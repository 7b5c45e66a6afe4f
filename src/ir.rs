//! The description of one buffered tensor operation, as the plan cache sees
//! it, and the structural key under which operations are matched.

use vstd::prelude::*;

verus! {

/// The status of a tensor when an operation uses it.
#[derive(Clone, Copy, Debug, PartialEq, Eq, Structural)]
pub enum TensorStatus {
    /// The tensor is read, not written.
    ReadOnly,
    /// The tensor is read and may be mutated in place.
    ReadWrite,
    /// The operation produces the tensor.
    NotInit,
}

/// The category of an operation.
#[derive(Clone, Copy, Debug, PartialEq, Eq, Structural)]
pub enum OperationKind {
    BaseFloat,
    BaseInt,
    BaseBool,
    NumericFloat,
    NumericInt,
    Bool,
    Int,
    Float,
    Module,
    Init,
    Custom,
    Drop,
}

/// One tensor that an operation touches.
#[derive(Clone, Debug)]
pub struct TensorNode {
    pub id: u64,
    pub status: TensorStatus,
    pub shape: Vec<usize>,
    pub dtype: String,
}

/// One logical tensor operation: its kind, the precise operation within that
/// kind, a rendering for people, and the tensors it touches.
#[derive(Clone, Debug)]
pub struct OperationRecord {
    pub kind: OperationKind,
    pub name: String,
    pub label: String,
    pub tensors: Vec<TensorNode>,
}

pub struct TensorView {
    pub id: u64,
    pub status: TensorStatus,
    pub shape: Seq<usize>,
    pub dtype: Seq<char>,
}

pub struct OperationView {
    pub kind: OperationKind,
    pub name: Seq<char>,
    pub label: Seq<char>,
    pub tensors: Seq<TensorView>,
}

impl View for TensorNode {
    type V = TensorView;

    open spec fn view(&self) -> TensorView {
        TensorView { id: self.id, status: self.status, shape: self.shape@, dtype: self.dtype@ }
    }
}

impl View for OperationRecord {
    type V = OperationView;

    open spec fn view(&self) -> OperationView {
        OperationView {
            kind: self.kind,
            name: self.name@,
            label: self.label@,
            tensors: self.tensors@.map_values(|t: TensorNode| t@),
        }
    }
}

/// What identifies a tensor use when operations are matched: everything but
/// the tensor's id.
pub struct TensorKey {
    pub status: TensorStatus,
    pub shape: Seq<usize>,
    pub dtype: Seq<char>,
}

/// What identifies an operation when sequences are matched: kind, operation
/// and the status, shape and dtype of each tensor, in order. Tensor ids and
/// the rendering are left out, so that a program run twice matches itself.
pub struct OperationKey {
    pub kind: OperationKind,
    pub name: Seq<char>,
    pub tensors: Seq<TensorKey>,
}

pub open spec fn tensor_key(t: TensorView) -> TensorKey {
    TensorKey { status: t.status, shape: t.shape, dtype: t.dtype }
}

pub open spec fn op_key(o: OperationView) -> OperationKey {
    OperationKey {
        kind: o.kind,
        name: o.name,
        tensors: o.tensors.map_values(|t: TensorView| tensor_key(t)),
    }
}

/// The keys of a sequence of operations.
pub open spec fn keys(s: Seq<OperationView>) -> Seq<OperationKey> {
    s.map_values(|o: OperationView| op_key(o))
}

/// The views of a sequence of records.
pub open spec fn views(s: Seq<OperationRecord>) -> Seq<OperationView> {
    s.map_values(|o: OperationRecord| o@)
}

/// The name of an operation kind.
pub open spec fn kind_name(k: OperationKind) -> Seq<char> {
    match k {
        OperationKind::BaseFloat => "BaseFloat"@,
        OperationKind::BaseInt => "BaseInt"@,
        OperationKind::BaseBool => "BaseBool"@,
        OperationKind::NumericFloat => "NumericFloat"@,
        OperationKind::NumericInt => "NumericInt"@,
        OperationKind::Bool => "Bool"@,
        OperationKind::Int => "Int"@,
        OperationKind::Float => "Float"@,
        OperationKind::Module => "Module"@,
        OperationKind::Init => "Init"@,
        OperationKind::Custom => "Custom"@,
        OperationKind::Drop => "Drop"@,
    }
}

/// The name of the category of an operation.
pub fn operation_type_name(kind: OperationKind) -> (r: String)
    ensures
        r@ == kind_name(kind),
{
    let s = match kind {
        OperationKind::BaseFloat => "BaseFloat",
        OperationKind::BaseInt => "BaseInt",
        OperationKind::BaseBool => "BaseBool",
        OperationKind::NumericFloat => "NumericFloat",
        OperationKind::NumericInt => "NumericInt",
        OperationKind::Bool => "Bool",
        OperationKind::Int => "Int",
        OperationKind::Float => "Float",
        OperationKind::Module => "Module",
        OperationKind::Init => "Init",
        OperationKind::Custom => "Custom",
        OperationKind::Drop => "Drop",
    };
    String::from_str(s)
}

fn same_shape(a: &Vec<usize>, b: &Vec<usize>) -> (r: bool)
    ensures
        r == (a@ == b@),
{
    if a.len() != b.len() {
        return false;
    }
    let mut i: usize = 0;
    while i < a.len()
        invariant
            a@.len() == b@.len(),
            i <= a@.len(),
            forall|j: int| 0 <= j < i ==> a@[j] == b@[j],
        decreases a@.len() - i,
    {
        if a[i] != b[i] {
            return false;
        }
        i = i + 1;
    }
    assert(a@ =~= b@);
    true
}

fn same_tensor_key(a: &TensorNode, b: &TensorNode) -> (r: bool)
    ensures
        r == (tensor_key(a@) == tensor_key(b@)),
{
    a.status == b.status && same_shape(&a.shape, &b.shape) && a.dtype == b.dtype
}

/// A copy of a list of sizes or indices.
pub fn copy_usizes(v: &Vec<usize>) -> (r: Vec<usize>)
    ensures
        r@ == v@,
{
    let mut r: Vec<usize> = Vec::new();
    let mut i: usize = 0;
    while i < v.len()
        invariant
            i <= v@.len(),
            r@ == v@.subrange(0, i as int),
        decreases v@.len() - i,
    {
        r.push(v[i]);
        i = i + 1;
        assert(r@ =~= v@.subrange(0, i as int));
    }
    assert(r@ =~= v@);
    r
}

impl TensorNode {
    /// A copy of this tensor use.
    pub fn duplicate(&self) -> (r: TensorNode)
        ensures
            r@ == self@,
    {
        TensorNode {
            id: self.id,
            status: self.status,
            shape: copy_usizes(&self.shape),
            dtype: self.dtype.clone(),
        }
    }
}

impl OperationRecord {
    /// A copy of this operation.
    pub fn duplicate(&self) -> (r: OperationRecord)
        ensures
            r@ == self@,
    {
        let mut tensors: Vec<TensorNode> = Vec::new();
        let mut i: usize = 0;
        while i < self.tensors.len()
            invariant
                i <= self.tensors@.len(),
                tensors@.len() == i,
                forall|j: int| 0 <= j < i ==> tensors@[j]@ == self.tensors@[j]@,
            decreases self.tensors@.len() - i,
        {
            tensors.push(self.tensors[i].duplicate());
            i = i + 1;
        }
        let r = OperationRecord {
            kind: self.kind,
            name: self.name.clone(),
            label: self.label.clone(),
            tensors,
        };
        assert(r@.tensors =~= self@.tensors);
        r
    }

    /// Whether two operations have the same key: they differ at most in
    /// tensor ids and rendering.
    pub fn same_key(&self, other: &OperationRecord) -> (r: bool)
        ensures
            r == (op_key(self@) == op_key(other@)),
    {
        let ghost ka = op_key(self@).tensors;
        let ghost kb = op_key(other@).tensors;
        if self.kind != other.kind || self.name != other.name {
            return false;
        }
        if self.tensors.len() != other.tensors.len() {
            assert(ka.len() != kb.len());
            return false;
        }
        let mut i: usize = 0;
        while i < self.tensors.len()
            invariant
                self.tensors@.len() == other.tensors@.len(),
                ka == op_key(self@).tensors,
                kb == op_key(other@).tensors,
                ka.len() == kb.len(),
                ka.len() == self.tensors@.len(),
                i <= self.tensors@.len(),
                forall|j: int| 0 <= j < i ==> ka[j] == kb[j],
            decreases self.tensors@.len() - i,
        {
            if !same_tensor_key(&self.tensors[i], &other.tensors[i]) {
                assert(ka[i as int] != kb[i as int]);
                return false;
            }
            i = i + 1;
        }
        assert(ka =~= kb);
        true
    }
}

/// A copy of a sequence of operations.
pub fn duplicate_all(v: &Vec<OperationRecord>) -> (r: Vec<OperationRecord>)
    ensures
        views(r@) == views(v@),
{
    let mut r: Vec<OperationRecord> = Vec::new();
    let mut i: usize = 0;
    while i < v.len()
        invariant
            i <= v@.len(),
            r@.len() == i,
            forall|j: int| 0 <= j < i ==> r@[j]@ == v@[j]@,
        decreases v@.len() - i,
    {
        r.push(v[i].duplicate());
        i = i + 1;
    }
    assert(views(r@) =~= views(v@));
    r
}

/// Whether `ops` has the keys of the operations of `buf` from `start` on.
pub fn keys_match_at(ops: &Vec<OperationRecord>, buf: &Vec<OperationRecord>, start: usize) -> (r: bool)
    requires
        start + ops@.len() <= buf@.len(),
    ensures
        r == (keys(views(ops@)) == keys(views(buf@)).subrange(start as int, start + ops@.len())),
{
    let ghost n = ops@.len() as int;
    let ghost ka = keys(views(ops@));
    let ghost kb = keys(views(buf@)).subrange(start as int, start + n);
    let blen = buf.len();
    let mut i: usize = 0;
    while i < ops.len()
        invariant
            n == ops@.len(),
            start + n <= buf@.len(),
            blen == buf@.len(),
            ka == keys(views(ops@)),
            kb == keys(views(buf@)).subrange(start as int, start + n),
            ka.len() == n && kb.len() == n,
            i <= n,
            forall|j: int| 0 <= j < i ==> ka[j] == kb[j],
        decreases n - i,
    {
        if !ops[i].same_key(&buf[start + i]) {
            assert(ka[i as int] != kb[i as int]);
            assert(ka != kb);
            return false;
        }
        i = i + 1;
    }
    assert(ka =~= kb);
    true
}

/// A copy of the operations of `buf` from `start` on.
pub fn duplicate_from(buf: &Vec<OperationRecord>, start: usize) -> (r: Vec<OperationRecord>)
    requires
        start <= buf@.len(),
    ensures
        views(r@) == views(buf@).subrange(start as int, buf@.len() as int),
{
    let mut r: Vec<OperationRecord> = Vec::new();
    let mut i: usize = start;
    while i < buf.len()
        invariant
            start <= i <= buf@.len(),
            r@.len() == i - start,
            forall|j: int| 0 <= j < r@.len() ==> r@[j]@ == buf@[start + j]@,
        decreases buf@.len() - i,
    {
        r.push(buf[i].duplicate());
        i = i + 1;
    }
    assert(views(r@) =~= views(buf@).subrange(start as int, buf@.len() as int));
    r
}

/// Whether two sequences of operations have the same keys.
pub fn same_keys(a: &Vec<OperationRecord>, b: &Vec<OperationRecord>) -> (r: bool)
    ensures
        r == (keys(views(a@)) == keys(views(b@))),
{
    let ghost ka = keys(views(a@));
    let ghost kb = keys(views(b@));
    if a.len() != b.len() {
        assert(ka.len() != kb.len());
        return false;
    }
    let mut i: usize = 0;
    while i < a.len()
        invariant
            a@.len() == b@.len(),
            ka == keys(views(a@)),
            kb == keys(views(b@)),
            ka.len() == a@.len(),
            kb.len() == b@.len(),
            i <= a@.len(),
            forall|j: int| 0 <= j < i ==> ka[j] == kb[j],
        decreases a@.len() - i,
    {
        if !a[i].same_key(&b[i]) {
            assert(ka[i as int] != kb[i as int]);
            return false;
        }
        i = i + 1;
    }
    assert(ka =~= kb);
    true
}

/// Operation `o` produces tensor `id`.
pub open spec fn produces(o: OperationView, id: u64) -> bool {
    exists|a: int| 0 <= a < o.tensors.len() && o.tensors[a].status == TensorStatus::NotInit && o.tensors[a].id == id
}

/// Some operation before position `i` produces tensor `id`.
pub open spec fn produced_before(ops: Seq<OperationView>, i: int, id: u64) -> bool {
    exists|j: int| 0 <= j < i && produces(ops[j], id)
}

/// Tensor `id` is read by an operation of `ops` before any operation of
/// `ops` produced it: its data comes from outside the sequence.
pub open spec fn is_external_input(ops: Seq<OperationView>, id: u64) -> bool {
    exists|i: int, a: int|
        0 <= i < ops.len() && 0 <= a < ops[i].tensors.len() && ops[i].tensors[a].status
            != TensorStatus::NotInit && ops[i].tensors[a].id == id && !produced_before(ops, i, id)
}

fn produces_exec(o: &OperationRecord, id: u64) -> (r: bool)
    ensures
        r == produces(o@, id),
{
    let mut a: usize = 0;
    while a < o.tensors.len()
        invariant
            a <= o.tensors@.len(),
            forall|b: int| 0 <= b < a ==> !(o@.tensors[b].status == TensorStatus::NotInit && o@.tensors[b].id == id),
        decreases o.tensors@.len() - a,
    {
        if o.tensors[a].status == TensorStatus::NotInit && o.tensors[a].id == id {
            assert(o@.tensors[a as int].id == id);
            return true;
        }
        a = a + 1;
    }
    false
}

fn produced_before_exec(ops: &Vec<OperationRecord>, i: usize, id: u64) -> (r: bool)
    requires
        i <= ops@.len(),
    ensures
        r == produced_before(views(ops@), i as int, id),
{
    let mut j: usize = 0;
    while j < i
        invariant
            i <= ops@.len(),
            j <= i,
            forall|k: int| 0 <= k < j ==> !produces(views(ops@)[k], id),
        decreases i - j,
    {
        if produces_exec(&ops[j], id) {
            assert(produces(views(ops@)[j as int], id));
            return true;
        }
        j = j + 1;
    }
    false
}

/// The `b`-th tensor of the `k`-th operation is read before `ops` produced it.
pub open spec fn external_read_at(ops: Seq<OperationView>, k: int, b: int) -> bool {
    &&& 0 <= k < ops.len()
    &&& 0 <= b < ops[k].tensors.len()
    &&& ops[k].tensors[b].status != TensorStatus::NotInit
    &&& !produced_before(ops, k, ops[k].tensors[b].id)
}

fn contains_id(v: &Vec<u64>, x: u64) -> (r: bool)
    ensures
        r == v@.contains(x),
{
    let mut k: usize = 0;
    while k < v.len()
        invariant
            k <= v@.len(),
            forall|m: int| 0 <= m < k ==> v@[m] != x,
        decreases v@.len() - k,
    {
        if v[k] == x {
            return true;
        }
        k = k + 1;
    }
    false
}

/// The tensors that `ops` reads before producing them, each once, in order
/// of first such read.
pub fn external_inputs(ops: &Vec<OperationRecord>) -> (r: Vec<u64>)
    ensures
        r@.no_duplicates(),
        forall|id: u64| r@.contains(id) <==> is_external_input(views(ops@), id),
{
    let ghost v = views(ops@);
    let mut r: Vec<u64> = Vec::new();
    let mut i: usize = 0;
    while i < ops.len()
        invariant
            v == views(ops@),
            i <= ops@.len(),
            r@.no_duplicates(),
            forall|id: u64| r@.contains(id) <==> exists|k: int, b: int|
                k < i && external_read_at(v, k, b) && v[k].tensors[b].id == id,
        decreases ops@.len() - i,
    {
        let op = &ops[i];
        let mut a: usize = 0;
        while a < op.tensors.len()
            invariant
                v == views(ops@),
                i < ops@.len(),
                *op == ops@[i as int],
                a <= op.tensors@.len(),
                r@.no_duplicates(),
                forall|id: u64| r@.contains(id) <==> exists|k: int, b: int|
                    (k < i || (k == i && b < a)) && external_read_at(v, k, b) && v[k].tensors[b].id == id,
            decreases op.tensors@.len() - a,
        {
            let t = &op.tensors[a];
            let id = t.id;
            assert(v[i as int].tensors[a as int] == t@);
            let ghost before = r@;
            if t.status != TensorStatus::NotInit && !produced_before_exec(ops, i, id) && !contains_id(&r, id) {
                r.push(id);
                proof {
                    assert(external_read_at(v, i as int, a as int));
                    assert forall|x: u64| r@.contains(x) implies exists|k: int, b: int|
                        (k < i || (k == i && b < a + 1)) && external_read_at(v, k, b) && v[k].tensors[b].id == x by {
                        if x != id {
                            assert(before.contains(x));
                        }
                    }
                    assert forall|x: u64| (exists|k: int, b: int|
                        (k < i || (k == i && b < a + 1)) && external_read_at(v, k, b) && v[k].tensors[b].id == x) implies r@.contains(x) by {
                        let (k, b) = choose|k: int, b: int|
                            (k < i || (k == i && b < a + 1)) && external_read_at(v, k, b) && v[k].tensors[b].id == x;
                        if k == i && b == a {
                            assert(r@.last() == x);
                        } else {
                            assert(before.contains(x));
                            let m = choose|m: int| 0 <= m < before.len() && before[m] == x;
                            assert(r@[m] == x);
                        }
                    }
                }
            } else {
                proof {
                    assert forall|x: u64| (exists|k: int, b: int|
                        (k < i || (k == i && b < a + 1)) && external_read_at(v, k, b) && v[k].tensors[b].id == x) implies r@.contains(x) by {
                        let (k, b) = choose|k: int, b: int|
                            (k < i || (k == i && b < a + 1)) && external_read_at(v, k, b) && v[k].tensors[b].id == x;
                        if k == i && b == a {
                            assert(r@.contains(id));
                        }
                    }
                }
            }
            a = a + 1;
        }
        i = i + 1;
    }
    proof {
        assert forall|id: u64| r@.contains(id) <==> is_external_input(v, id) by {
            if is_external_input(v, id) {
                let (k, b) = choose|k: int, b: int|
                    0 <= k < v.len() && 0 <= b < v[k].tensors.len() && v[k].tensors[b].status
                        != TensorStatus::NotInit && v[k].tensors[b].id == id && !produced_before(v, k, id);
                assert(external_read_at(v, k, b));
            }
        }
    }
    r
}

/// A character that may stand in an identifier.
pub open spec fn is_name_char(c: char) -> bool {
    ('a' <= c && c <= 'z') || ('A' <= c && c <= 'Z') || ('0' <= c && c <= '9') || c == '_'
}

/// The identifier that starts a text: its longest prefix of name characters.
pub open spec fn leading_name(s: Seq<char>) -> Seq<char> {
    if exists|k: int| 0 <= k < s.len() && !is_name_char(s[k]) {
        s.subrange(0, choose|k: int| 0 <= k < s.len() && !is_name_char(s[k]) && forall|j: int| 0 <= j < k ==> is_name_char(s[j]))
    } else {
        s
    }
}

/// The identifier that starts a text, such as the variant name at the start
/// of a rendered operation.
pub fn operation_name(text: &str) -> (r: String)
    ensures
        r@ == leading_name(text@),
{
    let n = text.unicode_len();
    let mut k: usize = 0;
    while k < n
        invariant
            n == text@.len(),
            k <= n,
            forall|j: int| 0 <= j < k ==> is_name_char(text@[j]),
        decreases n - k,
    {
        let c = text.get_char(k);
        if !(('a' <= c && c <= 'z') || ('A' <= c && c <= 'Z') || ('0' <= c && c <= '9') || c == '_') {
            proof {
                let w = choose|m: int| 0 <= m < text@.len() && !is_name_char(text@[m]) && forall|j: int| 0 <= j < m ==> is_name_char(text@[j]);
                assert(0 <= k < text@.len() && !is_name_char(text@[k as int]) && forall|j: int| 0 <= j < k ==> is_name_char(text@[j]));
                if w < k {
                    assert(is_name_char(text@[w]));
                } else if k < w {
                    assert(is_name_char(text@[k as int]));
                }
            }
            return String::from_str(text.substring_char(0, k));
        }
        k = k + 1;
    }
    assert(text@.subrange(0, n as int) =~= text@);
    String::from_str(text.substring_char(0, n))
}

fn same_tensor(a: &TensorNode, b: &TensorNode) -> (r: bool)
    ensures
        r == (a@ == b@),
{
    a.id == b.id && a.status == b.status && same_shape(&a.shape, &b.shape) && a.dtype == b.dtype
}

impl OperationRecord {
    /// Whether two operations are the same, tensor ids and rendering
    /// included.
    pub fn same_record(&self, other: &OperationRecord) -> (r: bool)
        ensures
            r == (self@ == other@),
    {
        if self.kind != other.kind || self.name != other.name || self.label != other.label {
            return false;
        }
        if self.tensors.len() != other.tensors.len() {
            assert(self@.tensors.len() != other@.tensors.len());
            return false;
        }
        let mut i: usize = 0;
        while i < self.tensors.len()
            invariant
                self.tensors@.len() == other.tensors@.len(),
                i <= self.tensors@.len(),
                forall|j: int| 0 <= j < i ==> self@.tensors[j] == other@.tensors[j],
            decreases self.tensors@.len() - i,
        {
            if !same_tensor(&self.tensors[i], &other.tensors[i]) {
                assert(self@.tensors[i as int] != other@.tensors[i as int]);
                return false;
            }
            i = i + 1;
        }
        assert(self@.tensors =~= other@.tensors);
        true
    }
}

/// Whether two sequences of operations are the same, tensor ids and
/// renderings included.
pub fn same_records(a: &Vec<OperationRecord>, b: &Vec<OperationRecord>) -> (r: bool)
    ensures
        r == (views(a@) == views(b@)),
{
    if a.len() != b.len() {
        assert(views(a@).len() != views(b@).len());
        return false;
    }
    let mut i: usize = 0;
    while i < a.len()
        invariant
            a@.len() == b@.len(),
            i <= a@.len(),
            forall|j: int| 0 <= j < i ==> views(a@)[j] == views(b@)[j],
        decreases a@.len() - i,
    {
        if !a[i].same_record(&b[i]) {
            assert(views(a@)[i as int] != views(b@)[i as int]);
            return false;
        }
        i = i + 1;
    }
    assert(views(a@) =~= views(b@));
    true
}

} // verus!
