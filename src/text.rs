//! Character-level text helpers with exact specifications.

use vstd::prelude::*;

verus! {

/// `p` occurs in `s` at character position `i`.
pub open spec fn occurs_at(s: Seq<char>, p: Seq<char>, i: int) -> bool {
    0 <= i && i + p.len() <= s.len() && s.subrange(i, i + p.len()) == p
}

/// `p` occurs somewhere in `s`.
pub open spec fn contains_text(s: Seq<char>, p: Seq<char>) -> bool {
    exists|i: int| occurs_at(s, p, i)
}

/// `i` is the first occurrence of `p` in `s` at or after `from`.
pub open spec fn is_first_from(s: Seq<char>, p: Seq<char>, from: int, i: int) -> bool {
    &&& from <= i
    &&& occurs_at(s, p, i)
    &&& forall|j: int| from <= j < i ==> !occurs_at(s, p, j)
}

/// The first occurrence of `p` in `s` at or after `from`, if any.
pub open spec fn first_from(s: Seq<char>, p: Seq<char>, from: int) -> Option<int> {
    if exists|i: int| is_first_from(s, p, from, i) {
        Some(choose|i: int| is_first_from(s, p, from, i))
    } else {
        None
    }
}

pub proof fn lemma_first_from_unique(s: Seq<char>, p: Seq<char>, from: int, i: int)
    requires
        is_first_from(s, p, from, i),
    ensures
        first_from(s, p, from) == Some(i),
{
    let c = choose|k: int| is_first_from(s, p, from, k);
    assert(is_first_from(s, p, from, c));
    if c < i {
        assert(!occurs_at(s, p, c));
    } else if i < c {
        assert(!occurs_at(s, p, i));
    }
}

pub proof fn lemma_first_from_none(s: Seq<char>, p: Seq<char>, from: int)
    requires
        forall|j: int| from <= j ==> !occurs_at(s, p, j),
    ensures
        first_from(s, p, from) is None,
{
}

/// The characters of `s`, one by one.
pub fn chars_of(s: &str) -> (r: Vec<char>)
    ensures
        r@ == s@,
{
    let n = s.unicode_len();
    let mut r: Vec<char> = Vec::new();
    let mut i: usize = 0;
    while i < n
        invariant
            n == s@.len(),
            i <= n,
            r@ == s@.subrange(0, i as int),
        decreases n - i,
    {
        let c = s.get_char(i);
        r.push(c);
        i = i + 1;
        assert(r@ =~= s@.subrange(0, i as int));
    }
    assert(r@ =~= s@);
    r
}

/// Whether `p` occurs in `s` at position `i`.
pub fn occurs_at_exec(s: &Vec<char>, p: &Vec<char>, i: usize) -> (r: bool)
    ensures
        r == occurs_at(s@, p@, i as int),
{
    if i > s.len() || p.len() > s.len() - i {
        return false;
    }
    let mut k: usize = 0;
    while k < p.len()
        invariant
            i + p@.len() <= s@.len(),
            s@.len() <= usize::MAX,
            k <= p@.len(),
            forall|j: int| 0 <= j < k ==> s@[i + j] == p@[j],
        decreases p@.len() - k,
    {
        if s[i + k] != p[k] {
            assert(s@.subrange(i as int, i + p@.len())[k as int] != p@[k as int]);
            return false;
        }
        k = k + 1;
    }
    assert(s@.subrange(i as int, i + p@.len()) =~= p@);
    true
}

/// The first occurrence of `p` in `s` at or after `from`.
pub fn find_from(s: &Vec<char>, p: &Vec<char>, from: usize) -> (r: Option<usize>)
    ensures
        r matches Some(i) ==> first_from(s@, p@, from as int) == Some(i as int),
        r is None ==> first_from(s@, p@, from as int) is None,
{
    let mut i: usize = from;
    while i < s.len()
        invariant
            from <= i,
            forall|j: int| from <= j < i ==> !occurs_at(s@, p@, j),
        decreases s@.len() - i,
    {
        if occurs_at_exec(s, p, i) {
            proof {
                lemma_first_from_unique(s@, p@, from as int, i as int);
            }
            return Some(i);
        }
        i = i + 1;
    }
    if i == s.len() && occurs_at_exec(s, p, i) {
        proof {
            lemma_first_from_unique(s@, p@, from as int, i as int);
        }
        return Some(i);
    }
    proof {
        assert forall|j: int| from <= j implies !occurs_at(s@, p@, j) by {
            if j > i || (j == i && i > s@.len()) {
                assert(j + p@.len() > s@.len());
            }
        }
        lemma_first_from_none(s@, p@, from as int);
    }
    None
}

/// Whether `p` occurs anywhere in `s`.
pub fn contains_exec(s: &Vec<char>, p: &Vec<char>) -> (r: bool)
    ensures
        r == contains_text(s@, p@),
{
    let f = find_from(s, p, 0);
    match f {
        Some(i) => true,
        None => {
            assert forall|j: int| !occurs_at(s@, p@, j) by {
                if 0 <= j && occurs_at(s@, p@, j) {
                    assert(exists|k: int| is_first_from(s@, p@, 0, k)) by {
                        lemma_exists_first(s@, p@, 0, j);
                    }
                }
            }
            false
        },
    }
}

/// Where `p` occurs at or after `from`, a first such occurrence exists.
pub proof fn lemma_exists_first(s: Seq<char>, p: Seq<char>, from: int, j: int)
    requires
        from <= j,
        occurs_at(s, p, j),
    ensures
        exists|k: int| is_first_from(s, p, from, k),
    decreases j - from,
{
    if forall|m: int| from <= m < j ==> !occurs_at(s, p, m) {
        assert(is_first_from(s, p, from, j));
    } else {
        let m = choose|m: int| from <= m < j && occurs_at(s, p, m);
        lemma_exists_first(s, p, from, m);
    }
}

/// The decimal digit `d`.
pub open spec fn digit_char(d: nat) -> char {
    if d == 0 { '0' }
    else if d == 1 { '1' }
    else if d == 2 { '2' }
    else if d == 3 { '3' }
    else if d == 4 { '4' }
    else if d == 5 { '5' }
    else if d == 6 { '6' }
    else if d == 7 { '7' }
    else if d == 8 { '8' }
    else { '9' }
}

/// `n` written in decimal.
pub open spec fn decimal(n: nat) -> Seq<char>
    decreases n,
{
    if n < 10 {
        seq![digit_char(n)]
    } else {
        decimal(n / 10) + seq![digit_char(n % 10)]
    }
}

fn digit_text(d: usize) -> (r: &'static str)
    requires
        d < 10,
    ensures
        r@ == seq![digit_char(d as nat)],
{
    proof {
        reveal_strlit("0");
        reveal_strlit("1");
        reveal_strlit("2");
        reveal_strlit("3");
        reveal_strlit("4");
        reveal_strlit("5");
        reveal_strlit("6");
        reveal_strlit("7");
        reveal_strlit("8");
        reveal_strlit("9");
    }
    let r = if d == 0 { "0" }
    else if d == 1 { "1" }
    else if d == 2 { "2" }
    else if d == 3 { "3" }
    else if d == 4 { "4" }
    else if d == 5 { "5" }
    else if d == 6 { "6" }
    else if d == 7 { "7" }
    else if d == 8 { "8" }
    else { "9" };
    assert(r@ =~= seq![digit_char(d as nat)]);
    r
}

/// `n` written in decimal.
pub fn decimal_text(n: usize) -> (r: String)
    ensures
        r@ == decimal(n as nat),
    decreases n,
{
    if n < 10 {
        String::from_str(digit_text(n))
    } else {
        let mut r = decimal_text(n / 10);
        r.append(digit_text(n % 10));
        r
    }
}

/// `n` written in decimal.
pub fn decimal_text_u64(n: u64) -> (r: String)
    ensures
        r@ == decimal(n as nat),
    decreases n,
{
    if n < 10 {
        String::from_str(digit_text(n as usize))
    } else {
        let mut r = decimal_text_u64(n / 10);
        r.append(digit_text((n % 10) as usize));
        r
    }
}

/// The first `k` items of `v` in decimal, separated by a comma and a space.
pub open spec fn joined_decimals(v: Seq<usize>, k: int) -> Seq<char>
    decreases k,
{
    if k <= 0 || k > v.len() {
        Seq::empty()
    } else if k == 1 {
        decimal(v[0] as nat)
    } else {
        joined_decimals(v, k - 1) + ", "@ + decimal(v[k - 1] as nat)
    }
}

/// A list of indices as `[0, 1, 2]`.
pub open spec fn list_text(v: Seq<usize>) -> Seq<char> {
    "["@ + joined_decimals(v, v.len() as int) + "]"@
}

/// A list of indices as `[0, 1, 2]`.
pub fn list_text_exec(v: &Vec<usize>) -> (r: String)
    ensures
        r@ == list_text(v@),
{
    let mut body = String::new();
    let mut i: usize = 0;
    while i < v.len()
        invariant
            i <= v@.len(),
            body@ == joined_decimals(v@, i as int),
        decreases v@.len() - i,
    {
        if i > 0 {
            body.append(", ");
        }
        let d = decimal_text(v[i]);
        body.append(d.as_str());
        i = i + 1;
    }
    let mut r = String::from_str("[");
    r.append(body.as_str());
    r.append("]");
    r
}

/// The items of `parts`, separated by `sep`.
pub open spec fn join_with(parts: Seq<Seq<char>>, sep: Seq<char>) -> Seq<char>
    decreases parts.len(),
{
    if parts.len() == 0 {
        Seq::empty()
    } else if parts.len() == 1 {
        parts[0]
    } else {
        join_with(parts.drop_last(), sep) + sep + parts.last()
    }
}

/// Whether the text `lit` occurs in `s`.
pub fn has(s: &Vec<char>, lit: &str) -> (r: bool)
    ensures
        r == contains_text(s@, lit@),
{
    let p = chars_of(lit);
    contains_exec(s, &p)
}

} // verus!
