//! Readable renderings of execution strategies and of the debug text of
//! fused traces.

use vstd::prelude::*;
use crate::ir::{OperationKind, OperationRecord};
use crate::store::ExecutionPlanSummary;
use crate::strategy::{part_count, ExecutionStrategy};
use crate::text::{
    chars_of, contains_text, decimal, decimal_text, find_from, first_from, has, join_with,
    list_text, list_text_exec,
};

verus! {

pub open spec fn opt_view(o: Option<String>) -> Option<Seq<char>> {
    match o {
        Some(s) => Some(s@),
        None => None,
    }
}

/// What `str::trim` returns for a text.
pub uninterp spec fn trimmed(s: Seq<char>) -> Seq<char>;

/// Relies on `str::trim`: the text without leading and trailing white space,
/// a function of the text alone.
#[verifier::external_body]
fn trim_text(s: &str) -> (r: &str)
    ensures
        r@ == trimmed(s@),
{
    s.trim()
}

/// The scalar values named in a trace text.
pub open spec fn scalars_info(t: Seq<char>) -> Option<Seq<char>> {
    if contains_text(t, "scalars: [(F32, 0), (F32, 1)]"@) {
        Some("Scalar(0) = 2.0, Scalar(1) = 1.0"@)
    } else if contains_text(t, "scalars:"@) {
        Some("Multiple scalar values used"@)
    } else {
        None
    }
}

/// Extracts scalar information.
pub fn extract_scalars(trace_str: &str) -> (r: Option<String>)
    ensures
        opt_view(r) == scalars_info(trace_str@),
{
    let t = chars_of(trace_str);
    if has(&t, "scalars: [(F32, 0), (F32, 1)]") {
        return Some(String::from_str("Scalar(0) = 2.0, Scalar(1) = 1.0"));
    }
    if has(&t, "scalars:") {
        return Some(String::from_str("Multiple scalar values used"));
    }
    None
}

/// The settings that a trace text turns on, in a fixed order.
pub open spec fn settings_list(t: Seq<char>) -> Seq<Seq<char>> {
    (if contains_text(t, "broadcast: true"@) { seq!["Broadcasting enabled"@] } else { Seq::empty() })
        + (if contains_text(t, "inplace: true"@) { seq!["In-place optimization"@] } else { Seq::empty() })
        + (if contains_text(t, "vectorization: Activated"@) { seq!["Vectorization active"@] } else { Seq::empty() })
}

pub open spec fn settings_info(t: Seq<char>) -> Option<Seq<char>> {
    if settings_list(t).len() > 0 {
        Some(join_with(settings_list(t), ", "@))
    } else {
        None
    }
}

/// Extracts settings information.
pub fn extract_settings(trace_str: &str) -> (r: Option<String>)
    ensures
        opt_view(r) == settings_info(trace_str@),
{
    let t = chars_of(trace_str);
    let ghost parts = settings_list(trace_str@);
    let mut settings: Vec<&str> = Vec::new();
    if has(&t, "broadcast: true") {
        settings.push("Broadcasting enabled");
    }
    if has(&t, "inplace: true") {
        settings.push("In-place optimization");
    }
    if has(&t, "vectorization: Activated") {
        settings.push("Vectorization active");
    }
    assert(settings@.map_values(|x: &str| x@) =~= parts);
    if settings.len() == 0 {
        return None;
    }
    let mut r = String::new();
    let mut i: usize = 0;
    while i < settings.len()
        invariant
            settings@.map_values(|x: &str| x@) == parts,
            i <= settings@.len(),
            r@ == join_with(parts.subrange(0, i as int), ", "@),
        decreases settings@.len() - i,
    {
        if i > 0 {
            r.append(", ");
        }
        r.append(settings[i]);
        i = i + 1;
        assert(parts.subrange(0, i as int).drop_last() =~= parts.subrange(0, i - 1));
    }
    assert(parts.subrange(0, i as int) =~= parts);
    Some(r)
}

/// The data flow of a trace text: the part that starts at `section` and ends
/// before the next `}`, if it names a tensor.
pub open spec fn reads_writes_info(t: Seq<char>, section: Seq<char>) -> Option<Seq<char>> {
    match first_from(t, section, 0) {
        Some(a) => match first_from(t, "}"@, a) {
            Some(b) => if contains_text(t.subrange(a, b), "TensorId"@) {
                Some("Input(0) \u{2194} Local(0), Local(3) \u{2194} Output(0)"@)
            } else {
                None
            },
            None => None,
        },
        None => None,
    }
}

/// Extracts reads/writes information.
pub fn extract_reads_writes(trace_str: &str, section: &str) -> (r: Option<String>)
    ensures
        opt_view(r) == reads_writes_info(trace_str@, section@),
{
    let t = chars_of(trace_str);
    let p = chars_of(section);
    let close = chars_of("}");
    match find_from(&t, &p, 0) {
        Some(a) => match find_from(&t, &close, a) {
            Some(b) => {
                let content = trace_str.substring_char(a, b);
                let c = chars_of(content);
                if has(&c, "TensorId") {
                    Some(String::from_str("Input(0) \u{2194} Local(0), Local(3) \u{2194} Output(0)"))
                } else {
                    None
                }
            },
            None => None,
        },
        None => None,
    }
}

/// The fused operations that a trace text names, in a fixed order.
pub open spec fn named_operations(s: Seq<char>) -> Seq<Seq<char>> {
    (if contains_text(s, "Mul("@) { seq!["Mul: Local(0) * Scalar(0) \u{2192} Local(1)"@] } else { Seq::empty() })
        + (if contains_text(s, "Add("@) { seq!["Add: Local(1) + Scalar(1) \u{2192} Local(2)"@] } else { Seq::empty() })
        + (if contains_text(s, "Tanh("@) { seq!["Tanh: Local(2) \u{2192} Local(3)"@] } else { Seq::empty() })
}

/// The text of `p` before its first `(`, or all of it.
pub open spec fn before_paren(p: Seq<char>) -> Seq<char> {
    match first_from(p, "("@, 0) {
        Some(i) => p.subrange(0, i),
        None => p,
    }
}

/// The entry for the `k`-th piece (from zero) of an operations list.
pub open spec fn piece_label(p: Seq<char>, k: nat) -> Seq<char> {
    trimmed(before_paren(p)) + ": Operation "@ + decimal(k + 1)
}

/// The entries for the pieces of `s` from `start` on, split at each `), `,
/// the first of them numbered `k`.
pub open spec fn piece_labels(s: Seq<char>, start: int, k: nat) -> Seq<Seq<char>>
    decreases s.len() - start,
{
    if start < 0 || start > s.len() {
        Seq::empty()
    } else {
        match first_from(s, "), "@, start) {
            Some(i) => if start <= i && i + 3 <= s.len() {
                seq![piece_label(s.subrange(start, i), k)] + piece_labels(s, i + 3, k + 1)
            } else {
                Seq::empty()
            },
            None => seq![piece_label(s.subrange(start, s.len() as int), k)],
        }
    }
}

/// The operations listed in an `ops` section of a trace text.
pub open spec fn operations_listing(s: Seq<char>) -> Seq<Seq<char>> {
    if named_operations(s).len() > 0 {
        named_operations(s)
    } else {
        piece_labels(s, 0, 0)
    }
}

pub open spec fn string_views(v: Seq<String>) -> Seq<Seq<char>> {
    v.map_values(|x: String| x@)
}

/// The entry for the `k`-th piece (from zero) of an operations list, given
/// the piece's trimmed name.
pub fn operation_entry(name: &str, k: usize) -> (r: String)
    requires
        k < usize::MAX,
    ensures
        r@ == name@ + ": Operation "@ + decimal(k as nat + 1),
{
    let mut r = String::from_str(name);
    r.append(": Operation ");
    let d = decimal_text(k + 1);
    r.append(d.as_str());
    r
}

fn piece_entry(s: &str, start: usize, end: usize, k: usize) -> (r: String)
    requires
        start <= end <= s@.len(),
        k < usize::MAX,
    ensures
        r@ == piece_label(s@.subrange(start as int, end as int), k as nat),
{
    let part = s.substring_char(start, end);
    let pc = chars_of(part);
    let open = chars_of("(");
    let name = match find_from(&pc, &open, 0) {
        Some(i) => part.substring_char(0, i),
        None => part,
    };
    operation_entry(trim_text(name), k)
}

/// Extracts the operations of an `ops` section.
pub fn extract_operations(ops_section: &str) -> (r: Vec<String>)
    ensures
        string_views(r@) == operations_listing(ops_section@),
{
    let s = chars_of(ops_section);
    let mut operations: Vec<String> = Vec::new();
    if has(&s, "Mul(") {
        operations.push(String::from_str("Mul: Local(0) * Scalar(0) \u{2192} Local(1)"));
    }
    if has(&s, "Add(") {
        operations.push(String::from_str("Add: Local(1) + Scalar(1) \u{2192} Local(2)"));
    }
    if has(&s, "Tanh(") {
        operations.push(String::from_str("Tanh: Local(2) \u{2192} Local(3)"));
    }
    if operations.len() > 0 {
        assert(string_views(operations@) =~= named_operations(ops_section@));
        return operations;
    }
    assert(string_views(operations@) =~= Seq::<Seq<char>>::empty());
    let sep = chars_of("), ");
    proof {
        reveal_strlit("), ");
    }
    let n = s.len();
    let mut start: usize = 0;
    loop
        invariant
            s@ == ops_section@,
            named_operations(ops_section@).len() == 0,
            n == s@.len(),
            sep@ == "), "@,
            sep@.len() == 3,
            start <= n,
            3 * operations@.len() <= start,
            string_views(operations@) + piece_labels(s@, start as int, operations@.len()) == piece_labels(
                s@,
                0,
                0,
            ),
        decreases n - start,
    {
        let k = operations.len();
        let ghost before = string_views(operations@);
        match find_from(&s, &sep, start) {
            Some(i) => {
                let entry = piece_entry(ops_section, start, i, k);
                operations.push(entry);
                assert(string_views(operations@) =~= before.push(entry@));
                assert(before + piece_labels(s@, start as int, k as nat) =~= string_views(operations@) + piece_labels(s@, i + 3, (k + 1) as nat));
                start = i + 3;
            },
            None => {
                let entry = piece_entry(ops_section, start, n, k);
                operations.push(entry);
                assert(string_views(operations@) =~= before.push(entry@));
                assert(string_views(operations@) =~= piece_labels(s@, 0, 0));
                return operations;
            },
        }
    }
}

/// The entries of `list` from the `k`-th on, each numbered from one on its
/// own indented line.
pub open spec fn numbered(list: Seq<Seq<char>>, k: int) -> Seq<char>
    decreases k,
{
    if k <= 0 || k > list.len() {
        Seq::empty()
    } else {
        numbered(list, k - 1) + "   "@ + decimal(k as nat) + ". "@ + list[k - 1] + "\n"@
    }
}

/// The fused operations part of a trace rendering.
pub open spec fn operations_part(t: Seq<char>) -> Seq<char> {
    match first_from(t, "ops: ["@, 0) {
        Some(a) => match first_from(t, "], shape_ref"@, a) {
            Some(b) => if a + 6 <= b {
                let list = operations_listing(t.subrange(a + 6, b));
                "\u{1F527} FUSED OPERATIONS:\n"@ + numbered(list, list.len() as int) + "\n"@
            } else {
                Seq::empty()
            },
            None => Seq::empty(),
        },
        None => Seq::empty(),
    }
}

pub open spec fn line_if(o: Option<Seq<char>>, head: Seq<char>) -> Seq<char> {
    match o {
        Some(x) => head + x + "\n"@,
        None => Seq::empty(),
    }
}

/// The data flow part of a trace rendering.
pub open spec fn flow_part(t: Seq<char>) -> Seq<char> {
    if contains_text(t, "reads:"@) && contains_text(t, "writes:"@) {
        "\u{1F4CA} DATA FLOW:\n"@ + line_if(reads_writes_info(t, "reads:"@), "   \u{1F4E5} Inputs:  "@)
            + line_if(reads_writes_info(t, "writes:"@), "   \u{1F4E4} Outputs: "@) + "\n"@
    } else {
        Seq::empty()
    }
}

/// The scalar part of a trace rendering.
pub open spec fn scalars_part(t: Seq<char>) -> Seq<char> {
    if contains_text(t, "scalars:"@) {
        match scalars_info(t) {
            Some(x) => "\u{1F522} SCALAR VALUES:\n"@ + "   "@ + x + "\n\n"@,
            None => Seq::empty(),
        }
    } else {
        Seq::empty()
    }
}

/// The settings part of a trace rendering.
pub open spec fn settings_part(t: Seq<char>) -> Seq<char> {
    if contains_text(t, "FuseSettings"@) {
        match settings_info(t) {
            Some(x) => "\u{2699}\u{FE0F}  OPTIMIZATION SETTINGS:\n"@ + "   "@ + x + "\n\n"@,
            None => Seq::empty(),
        }
    } else {
        Seq::empty()
    }
}

/// The rendering of the debug text of an optimization.
pub open spec fn trace_text(t: Seq<char>) -> Seq<char> {
    if contains_text(t, "FuseTrace"@) {
        "\u{1F4CB} FUSE TRACE DETAILS\n"@
            + "\u{2550}\u{2550}\u{2550}\u{2550}\u{2550}\u{2550}\u{2550}\u{2550}\u{2550}\u{2550}\u{2550}\u{2550}\u{2550}\u{2550}\u{2550}\u{2550}\u{2550}\u{2550}\u{2550}\u{2550}\u{2550}\u{2550}\u{2550}\n\n"@
            + operations_part(t) + flow_part(t) + scalars_part(t) + settings_part(t)
            + "\u{1F4A1} This FuseTrace becomes the FuseBlockConfig in compilation.log\n"@
            + "   and gets compiled into the final GPU kernel!\n"@
    } else {
        "\u{1F4CB} OPTIMIZATION DETAILS:\n"@ + "   "@ + t + "\n"@
    }
}

fn operations_part_exec(trace_str: &str, t: &Vec<char>) -> (r: String)
    requires
        t@ == trace_str@,
    ensures
        r@ == operations_part(trace_str@),
{
    let open = chars_of("ops: [");
    let close = chars_of("], shape_ref");
    proof {
        reveal_strlit("ops: [");
    }
    let tlen = t.len();
    match find_from(t, &open, 0) {
        Some(a) => match find_from(t, &close, a) {
            Some(b) => {
                assert(a + 6 <= tlen);
                if a + 6 <= b {
                    let section = trace_str.substring_char(a + 6, b);
                    let operations = extract_operations(section);
                    let ghost list = operations_listing(section@);
                    let mut r = String::from_str("\u{1F527} FUSED OPERATIONS:\n");
                    let mut body = String::new();
                    let mut i: usize = 0;
                    while i < operations.len()
                        invariant
                            string_views(operations@) == list,
                            i <= operations@.len(),
                            body@ == numbered(list, i as int),
                        decreases operations@.len() - i,
                    {
                        body.append("   ");
                        let d = decimal_text(i + 1);
                        body.append(d.as_str());
                        body.append(". ");
                        body.append(operations[i].as_str());
                        body.append("\n");
                        i = i + 1;
                    }
                    r.append(body.as_str());
                    r.append("\n");
                    r
                } else {
                    String::new()
                }
            },
            None => String::new(),
        },
        None => String::new(),
    }
}

fn line_if_exec(o: Option<String>, head: &str) -> (r: String)
    ensures
        r@ == line_if(opt_view(o), head@),
{
    match o {
        Some(x) => {
            let mut r = String::from_str(head);
            r.append(x.as_str());
            r.append("\n");
            r
        },
        None => String::new(),
    }
}

fn flow_part_exec(trace_str: &str, t: &Vec<char>) -> (r: String)
    requires
        t@ == trace_str@,
    ensures
        r@ == flow_part(trace_str@),
{
    if has(t, "reads:") && has(t, "writes:") {
        let mut r = String::from_str("\u{1F4CA} DATA FLOW:\n");
        let reads = line_if_exec(extract_reads_writes(trace_str, "reads:"), "   \u{1F4E5} Inputs:  ");
        r.append(reads.as_str());
        let writes = line_if_exec(extract_reads_writes(trace_str, "writes:"), "   \u{1F4E4} Outputs: ");
        r.append(writes.as_str());
        r.append("\n");
        r
    } else {
        String::new()
    }
}

fn scalars_part_exec(trace_str: &str, t: &Vec<char>) -> (r: String)
    requires
        t@ == trace_str@,
    ensures
        r@ == scalars_part(trace_str@),
{
    if has(t, "scalars:") {
        match extract_scalars(trace_str) {
            Some(x) => {
                let mut r = String::from_str("\u{1F522} SCALAR VALUES:\n");
                r.append("   ");
                r.append(x.as_str());
                r.append("\n\n");
                r
            },
            None => String::new(),
        }
    } else {
        String::new()
    }
}

fn settings_part_exec(trace_str: &str, t: &Vec<char>) -> (r: String)
    requires
        t@ == trace_str@,
    ensures
        r@ == settings_part(trace_str@),
{
    if has(t, "FuseSettings") {
        match extract_settings(trace_str) {
            Some(x) => {
                let mut r = String::from_str("\u{2699}\u{FE0F}  OPTIMIZATION SETTINGS:\n");
                r.append("   ");
                r.append(x.as_str());
                r.append("\n\n");
                r
            },
            None => String::new(),
        }
    } else {
        String::new()
    }
}

/// Renders the debug text of an optimization: the sections of a fused trace
/// that it recognizes, or the text itself.
pub fn pretty_print_fuse_trace(trace_str: &str) -> (r: String)
    ensures
        r@ == trace_text(trace_str@),
{
    let t = chars_of(trace_str);
    if has(&t, "FuseTrace") {
        let mut r = String::from_str("\u{1F4CB} FUSE TRACE DETAILS\n");
        r.append("\u{2550}\u{2550}\u{2550}\u{2550}\u{2550}\u{2550}\u{2550}\u{2550}\u{2550}\u{2550}\u{2550}\u{2550}\u{2550}\u{2550}\u{2550}\u{2550}\u{2550}\u{2550}\u{2550}\u{2550}\u{2550}\u{2550}\u{2550}\n\n");
        let ops = operations_part_exec(trace_str, &t);
        r.append(ops.as_str());
        let flow = flow_part_exec(trace_str, &t);
        r.append(flow.as_str());
        let scalars = scalars_part_exec(trace_str, &t);
        r.append(scalars.as_str());
        let settings = settings_part_exec(trace_str, &t);
        r.append(settings.as_str());
        r.append("\u{1F4A1} This FuseTrace becomes the FuseBlockConfig in compilation.log\n");
        r.append("   and gets compiled into the final GPU kernel!\n");
        r
    } else {
        let mut r = String::from_str("\u{1F4CB} OPTIMIZATION DETAILS:\n");
        r.append("   ");
        r.append(trace_str);
        r.append("\n");
        r
    }
}

/// The rendering of a strategy whose optimizations are given by their debug
/// text.
pub open spec fn strategy_info(s: ExecutionStrategy<String>) -> Seq<char>
    decreases s, part_count(s) + 1,
{
    match s {
        ExecutionStrategy::Optimization { opt, ordering } => {
            "\u{1F525} FUSED OPTIMIZATION ("@ + decimal(ordering@.len()) + " operations)\n"@
                + "   Execution order: "@ + list_text(ordering@) + "\n\n"@
                + if contains_text(opt@, "FuseTrace"@) {
                trace_text(opt@)
            } else {
                "   Optimization details:\n"@ + "   "@ + opt@ + "\n"@
            }
        },
        ExecutionStrategy::Operations { ordering } => {
            "\u{26A1} OPERATIONS STRATEGY ("@ + decimal(ordering@.len()) + " operations)\n   Execution order: "@
                + list_text(ordering@) + "\n   (No fusion optimization applied)\n"@
        },
        ExecutionStrategy::Composed(subs) => {
            "\u{1F517} COMPOSED STRATEGY ("@ + decimal(subs@.len()) + " sub-strategies)\n"@
                + strategy_info_upto(s, subs@.len() as int)
        },
    }
}

/// The renderings of the first `k` sub-strategies of a composition.
pub open spec fn strategy_info_upto(s: ExecutionStrategy<String>, k: int) -> Seq<char>
    decreases s, k,
{
    match s {
        ExecutionStrategy::Composed(subs) => {
            if 0 < k <= subs@.len() {
                strategy_info_upto(s, k - 1) + "\n--- Sub-strategy "@ + decimal((k - 1) as nat) + " ---\n"@
                    + strategy_info(*subs@[k - 1])
            } else {
                Seq::empty()
            }
        },
        _ => Seq::empty(),
    }
}

/// Renders a strategy whose optimizations are given by their debug text.
pub fn extract_fuse_trace_info(strategy: &ExecutionStrategy<String>) -> (r: String)
    ensures
        r@ == strategy_info(*strategy),
    decreases strategy,
{
    match strategy {
        ExecutionStrategy::Optimization { opt, ordering } => {
            let mut result = String::from_str("\u{1F525} FUSED OPTIMIZATION (");
            let count = decimal_text(ordering.len());
            result.append(count.as_str());
            result.append(" operations)\n");
            result.append("   Execution order: ");
            let order = list_text_exec(ordering);
            result.append(order.as_str());
            result.append("\n\n");
            let o = chars_of(opt.as_str());
            if has(&o, "FuseTrace") {
                let trace = pretty_print_fuse_trace(opt.as_str());
                result.append(trace.as_str());
            } else {
                result.append("   Optimization details:\n");
                result.append("   ");
                result.append(opt.as_str());
                result.append("\n");
            }
            result
        },
        ExecutionStrategy::Operations { ordering } => {
            let mut result = String::from_str("\u{26A1} OPERATIONS STRATEGY (");
            let count = decimal_text(ordering.len());
            result.append(count.as_str());
            result.append(" operations)\n   Execution order: ");
            let order = list_text_exec(ordering);
            result.append(order.as_str());
            result.append("\n   (No fusion optimization applied)\n");
            result
        },
        ExecutionStrategy::Composed(strategies) => {
            let mut result = String::from_str("\u{1F517} COMPOSED STRATEGY (");
            let count = decimal_text(strategies.len());
            result.append(count.as_str());
            result.append(" sub-strategies)\n");
            let mut body = String::new();
            let mut i: usize = 0;
            while i < strategies.len()
                invariant
                    *strategy == ExecutionStrategy::<String>::Composed(*strategies),
                    i <= strategies@.len(),
                    body@ == strategy_info_upto(*strategy, i as int),
                decreases strategies@.len() - i,
            {
                body.append("\n--- Sub-strategy ");
                let d = decimal_text(i);
                body.append(d.as_str());
                body.append(" ---\n");
                let sub: &ExecutionStrategy<String> = &strategies[i];
                proof {
                    assert(decreases_to!(*strategy => *sub));
                }
                let part = extract_fuse_trace_info(sub);
                body.append(part.as_str());
                i = i + 1;
            }
            result.append(body.as_str());
            result
        },
    }
}

/// The number of operations among the first `k` of `ops` of kind `kind`.
pub open spec fn kind_count(ops: Seq<OperationRecord>, k: int, kind: OperationKind) -> nat
    decreases k,
{
    if k <= 0 || k > ops.len() {
        0
    } else {
        kind_count(ops, k - 1, kind) + if ops[k - 1].kind == kind { 1nat } else { 0nat }
    }
}

/// The kinds among the first `k` of `ops`, each once, in order of first
/// appearance.
pub open spec fn kinds_upto(ops: Seq<OperationRecord>, k: int) -> Seq<OperationKind>
    decreases k,
{
    if k <= 0 || k > ops.len() {
        Seq::empty()
    } else if kinds_upto(ops, k - 1).contains(ops[k - 1].kind) {
        kinds_upto(ops, k - 1)
    } else {
        kinds_upto(ops, k - 1).push(ops[k - 1].kind)
    }
}

/// The operation counts of the first `k` plan summaries, added up.
pub open spec fn planned_operations(summaries: Seq<ExecutionPlanSummary>, k: int) -> nat
    decreases k,
{
    if k <= 0 || k > summaries.len() {
        0
    } else {
        planned_operations(summaries, k - 1) + summaries[k - 1].operation_count as nat
    }
}

proof fn lemma_kind_count_bound(ops: Seq<OperationRecord>, k: int, kind: OperationKind)
    requires
        0 <= k <= ops.len(),
    ensures
        kind_count(ops, k, kind) <= k,
    decreases k,
{
    if k > 0 {
        lemma_kind_count_bound(ops, k - 1, kind);
    }
}

/// Counts that compare the operations before optimization with the plans
/// after it.
#[derive(Debug, Clone)]
pub struct OptimizationCounts {
    /// The operations before optimization.
    pub operations: usize,
    /// The execution plans.
    pub plans: usize,
    /// The operations that the plans cover, added up; saturates at
    /// `usize::MAX`.
    pub operations_in_plans: usize,
    /// Each kind among the operations, in order of first appearance, with
    /// how many operations have it.
    pub per_kind: Vec<(OperationKind, usize)>,
}

fn position_of_kind(v: &Vec<(OperationKind, usize)>, kind: OperationKind) -> (r: Option<usize>)
    ensures
        r matches Some(j) ==> j < v@.len() && v@[j as int].0 == kind,
        r is None ==> forall|m: int| 0 <= m < v@.len() ==> v@[m].0 != kind,
{
    let mut j: usize = 0;
    while j < v.len()
        invariant
            j <= v@.len(),
            forall|m: int| 0 <= m < j ==> v@[m].0 != kind,
        decreases v@.len() - j,
    {
        if v[j].0 == kind {
            return Some(j);
        }
        j = j + 1;
    }
    None
}

/// Counts the operations before optimization by kind, and the operations
/// that the plans cover.
pub fn optimization_counts(pre_ops: &[OperationRecord], summaries: &[ExecutionPlanSummary]) -> (r: OptimizationCounts)
    ensures
        r.operations == pre_ops@.len(),
        r.plans == summaries@.len(),
        r.operations_in_plans == if planned_operations(summaries@, summaries@.len() as int) > usize::MAX {
            usize::MAX as nat
        } else {
            planned_operations(summaries@, summaries@.len() as int)
        },
        r.per_kind@.map_values(|e: (OperationKind, usize)| e.0) == kinds_upto(pre_ops@, pre_ops@.len() as int),
        forall|j: int|
            0 <= j < r.per_kind@.len() ==> (#[trigger] r.per_kind@[j]).1 == kind_count(
                pre_ops@,
                pre_ops@.len() as int,
                r.per_kind@[j].0,
            ),
{
    let mut total: usize = 0;
    let mut s: usize = 0;
    while s < summaries.len()
        invariant
            s <= summaries@.len(),
            total == if planned_operations(summaries@, s as int) > usize::MAX {
                usize::MAX as nat
            } else {
                planned_operations(summaries@, s as int)
            },
        decreases summaries@.len() - s,
    {
        total = total.saturating_add(summaries[s].operation_count);
        s = s + 1;
    }
    let mut per_kind: Vec<(OperationKind, usize)> = Vec::new();
    let mut i: usize = 0;
    while i < pre_ops.len()
        invariant
            i <= pre_ops@.len(),
            per_kind@.map_values(|e: (OperationKind, usize)| e.0) == kinds_upto(pre_ops@, i as int),
            forall|j: int|
                0 <= j < per_kind@.len() ==> (#[trigger] per_kind@[j]).1 == kind_count(
                    pre_ops@,
                    i as int,
                    per_kind@[j].0,
                ),
            forall|a: int, b: int| 0 <= a < b < per_kind@.len() ==> per_kind@[a].0 != per_kind@[b].0,
        decreases pre_ops@.len() - i,
    {
        let kind = pre_ops[i].kind;
        let ghost before = per_kind@;
        let found = position_of_kind(&per_kind, kind);
        proof {
            lemma_kind_count_bound(pre_ops@, i as int, kind);
        }
        if let Some(j) = found {
            let (k0, c) = per_kind[j];
            per_kind.set(j, (k0, c + 1));
            proof {
                assert(before.map_values(|e: (OperationKind, usize)| e.0)[j as int] == kind);
                assert(kinds_upto(pre_ops@, i as int).contains(kind));
                assert(per_kind@.map_values(|e: (OperationKind, usize)| e.0) =~= before.map_values(
                    |e: (OperationKind, usize)| e.0,
                ));
            }
        } else {
            per_kind.push((kind, 1));
            proof {
                assert(!kinds_upto(pre_ops@, i as int).contains(kind)) by {
                    if kinds_upto(pre_ops@, i as int).contains(kind) {
                        let prev = kinds_upto(pre_ops@, i as int);
                        let m = choose|m: int| 0 <= m < prev.len() && #[trigger] prev[m] == kind;
                        assert(before.map_values(|e: (OperationKind, usize)| e.0)[m] == kind);
                    }
                }
                assert(per_kind@.map_values(|e: (OperationKind, usize)| e.0) =~= before.map_values(
                    |e: (OperationKind, usize)| e.0,
                ).push(kind));
                assert forall|m: int| 0 <= m < before.len() implies before[m].0 != kind by {
                    assert(before.map_values(|e: (OperationKind, usize)| e.0)[m] == before[m].0);
                }
                assert(kind_count(pre_ops@, i as int, kind) == 0) by {
                    lemma_kind_absent(pre_ops@, i as int, kind);
                }
            }
        }
        i = i + 1;
    }
    OptimizationCounts {
        operations: pre_ops.len(),
        plans: summaries.len(),
        operations_in_plans: total,
        per_kind,
    }
}

proof fn lemma_kind_absent(ops: Seq<OperationRecord>, k: int, kind: OperationKind)
    requires
        0 <= k <= ops.len(),
        !kinds_upto(ops, k).contains(kind),
    ensures
        kind_count(ops, k, kind) == 0,
    decreases k,
{
    if k > 0 {
        let prev = kinds_upto(ops, k - 1);
        let cur = kinds_upto(ops, k);
        if prev.contains(kind) {
            let m = choose|m: int| 0 <= m < prev.len() && #[trigger] prev[m] == kind;
            assert(cur[m] == kind);
        } else {
            if ops[k - 1].kind == kind {
                assert(cur[prev.len() as int] == kind);
            }
            lemma_kind_absent(ops, k - 1, kind);
        }
    }
}

} // verus!
