//! Dependency graphs of a sequence of operations, as text.

use vstd::prelude::*;
use crate::ir::{produces, OperationRecord, OperationView, TensorStatus};
use crate::text::{decimal, decimal_text, decimal_text_u64, list_text, list_text_exec};

verus! {

/// The last of the first `k` operations that produces tensor `id`.
pub open spec fn producer_upto(ops: Seq<OperationView>, id: u64, k: int) -> Option<int>
    decreases k,
{
    if k <= 0 || k > ops.len() {
        None
    } else if produces(ops[k - 1], id) {
        Some(k - 1)
    } else {
        producer_upto(ops, id, k - 1)
    }
}

/// The last operation that produces tensor `id`.
pub open spec fn producer(ops: Seq<OperationView>, id: u64) -> Option<int> {
    producer_upto(ops, id, ops.len() as int)
}

/// Operation `p` produces a tensor that operation `i` reads.
pub open spec fn is_dependency(ops: Seq<OperationView>, i: int, p: int) -> bool {
    exists|a: int|
        0 <= a < ops[i].tensors.len() && ops[i].tensors[a].status != TensorStatus::NotInit && producer(
            ops,
            ops[i].tensors[a].id,
        ) == Some(p)
}

/// The operations among the first `k` that operation `i` depends on, in
/// increasing order.
pub open spec fn dependencies_upto(ops: Seq<OperationView>, i: int, k: int) -> Seq<usize>
    decreases k,
{
    if k <= 0 {
        Seq::empty()
    } else {
        dependencies_upto(ops, i, k - 1) + if is_dependency(ops, i, k - 1) {
            seq![(k - 1) as usize]
        } else {
            Seq::empty()
        }
    }
}

pub open spec fn dependencies(ops: Seq<OperationView>, i: int) -> Seq<usize> {
    dependencies_upto(ops, i, ops.len() as int)
}

/// How a tensor id is written.
pub open spec fn tensor_text(id: u64) -> Seq<char> {
    "TensorId("@ + decimal(id as nat) + ")"@
}

/// The inputs of operation `i` among its first `k` tensors, each with where
/// it comes from.
pub open spec fn input_items(ops: Seq<OperationView>, i: int, k: int) -> Seq<char>
    decreases k,
{
    if k <= 0 || k > ops[i].tensors.len() {
        Seq::empty()
    } else {
        let t = ops[i].tensors[k - 1];
        input_items(ops, i, k - 1) + if t.status != TensorStatus::NotInit {
            tensor_text(t.id) + match producer(ops, t.id) {
                Some(p) => "(from Op["@ + decimal(p as nat) + "]) "@,
                None => "(external) "@,
            }
        } else {
            Seq::empty()
        }
    }
}

/// The outputs of operation `i` among its first `k` tensors.
pub open spec fn output_items(ops: Seq<OperationView>, i: int, k: int) -> Seq<char>
    decreases k,
{
    if k <= 0 || k > ops[i].tensors.len() {
        Seq::empty()
    } else {
        let t = ops[i].tensors[k - 1];
        output_items(ops, i, k - 1) + if t.status == TensorStatus::NotInit {
            tensor_text(t.id) + " "@
        } else {
            Seq::empty()
        }
    }
}

pub open spec fn line_unless_empty(head: Seq<char>, items: Seq<char>) -> Seq<char> {
    if items.len() > 0 {
        head + items + "\n"@
    } else {
        Seq::empty()
    }
}

/// The lines for operation `i`.
pub open spec fn op_block(ops: Seq<OperationView>, i: int) -> Seq<char> {
    "Op["@ + decimal(i as nat) + "]: "@ + ops[i].label + "\n"@
        + line_unless_empty("  Inputs:  "@, input_items(ops, i, ops[i].tensors.len() as int))
        + line_unless_empty("  Outputs: "@, output_items(ops, i, ops[i].tensors.len() as int)) + "\n"@
}

pub open spec fn op_blocks(ops: Seq<OperationView>, k: int) -> Seq<char>
    decreases k,
{
    if k <= 0 {
        Seq::empty()
    } else {
        op_blocks(ops, k - 1) + op_block(ops, k - 1)
    }
}

pub open spec fn dependency_lines(ops: Seq<OperationView>, k: int) -> Seq<char>
    decreases k,
{
    if k <= 0 {
        Seq::empty()
    } else {
        dependency_lines(ops, k - 1) + if dependencies(ops, k - 1).len() > 0 {
            "Op["@ + decimal((k - 1) as nat) + "] depends on: "@ + list_text(dependencies(ops, k - 1)) + "\n"@
        } else {
            Seq::empty()
        }
    }
}

/// The text graph of a sequence of operations.
pub open spec fn ascii_graph(ops: Seq<OperationView>) -> Seq<char> {
    "Pre-optimized Operation Graph:\n"@ + "============================\n\n"@ + if ops.len() == 0 {
        "No operations found.\n"@
    } else {
        op_blocks(ops, ops.len() as int) + "Dependency Flow:\n"@ + "================\n"@ + dependency_lines(
            ops,
            ops.len() as int,
        )
    }
}

pub open spec fn slice_views(ops: Seq<OperationRecord>) -> Seq<OperationView> {
    ops.map_values(|o: OperationRecord| o@)
}

fn producer_exec(ops: &[OperationRecord], id: u64) -> (r: Option<usize>)
    ensures
        r matches Some(p) ==> producer(slice_views(ops@), id) == Some(p as int),
        r is None ==> producer(slice_views(ops@), id) is None,
{
    let ghost v = slice_views(ops@);
    let mut k: usize = ops.len();
    while k > 0
        invariant
            k <= ops@.len(),
            v == slice_views(ops@),
            producer(v, id) == producer_upto(v, id, k as int),
        decreases k,
    {
        let mut a: usize = 0;
        let o = &ops[k - 1];
        assert(v[k - 1] == o@);
        while a < o.tensors.len()
            invariant
                0 < k <= ops@.len(),
                v == slice_views(ops@),
                v[k - 1] == o@,
                producer(v, id) == producer_upto(v, id, k as int),
                a <= o.tensors@.len(),
                forall|b: int| 0 <= b < a ==> !(o@.tensors[b].status == TensorStatus::NotInit && o@.tensors[b].id == id),
            decreases o.tensors@.len() - a,
        {
            if o.tensors[a].status == TensorStatus::NotInit && o.tensors[a].id == id {
                assert(o@.tensors[a as int].id == id);
                assert(produces(v[k - 1], id));
                return Some(k - 1);
            }
            a = a + 1;
        }
        k = k - 1;
    }
    None
}

fn is_dependency_exec(ops: &[OperationRecord], i: usize, p: usize) -> (r: bool)
    requires
        i < ops@.len(),
    ensures
        r == is_dependency(slice_views(ops@), i as int, p as int),
{
    let ghost v = slice_views(ops@);
    let o = &ops[i];
    assert(v[i as int] == o@);
    let mut a: usize = 0;
    while a < o.tensors.len()
        invariant
            v == slice_views(ops@),
            i < ops@.len(),
            v[i as int] == o@,
            a <= o.tensors@.len(),
            forall|b: int|
                0 <= b < a ==> !(v[i as int].tensors[b].status != TensorStatus::NotInit && producer(
                    v,
                    v[i as int].tensors[b].id,
                ) == Some(p as int)),
        decreases o.tensors@.len() - a,
    {
        let t = &o.tensors[a];
        assert(v[i as int].tensors[a as int] == t@);
        if t.status != TensorStatus::NotInit {
            match producer_exec(ops, t.id) {
                Some(q) => {
                    if q == p {
                        return true;
                    }
                },
                None => {},
            }
        }
        a = a + 1;
    }
    false
}

/// The operations that operation `i` depends on, in increasing order.
pub fn dependencies_of(ops: &[OperationRecord], i: usize) -> (r: Vec<usize>)
    requires
        i < ops@.len(),
    ensures
        r@ == dependencies(slice_views(ops@), i as int),
{
    let mut r: Vec<usize> = Vec::new();
    let mut p: usize = 0;
    while p < ops.len()
        invariant
            i < ops@.len(),
            p <= ops@.len(),
            r@ == dependencies_upto(slice_views(ops@), i as int, p as int),
        decreases ops@.len() - p,
    {
        if is_dependency_exec(ops, i, p) {
            r.push(p);
        }
        p = p + 1;
        assert(r@ =~= dependencies_upto(slice_views(ops@), i as int, p as int));
    }
    r
}

fn tensor_text_exec(id: u64) -> (r: String)
    ensures
        r@ == tensor_text(id),
{
    let mut r = String::from_str("TensorId(");
    let d = decimal_text_u64(id);
    r.append(d.as_str());
    r.append(")");
    r
}

fn op_block_exec(ops: &[OperationRecord], i: usize) -> (r: String)
    requires
        i < ops@.len(),
    ensures
        r@ == op_block(slice_views(ops@), i as int),
{
    let ghost v = slice_views(ops@);
    let o = &ops[i];
    assert(v[i as int] == o@);
    let n = o.tensors.len();
    let mut inputs = String::new();
    let mut outputs = String::new();
    let mut a: usize = 0;
    while a < n
        invariant
            v == slice_views(ops@),
            i < ops@.len(),
            v[i as int] == o@,
            n == o.tensors@.len(),
            a <= n,
            inputs@ == input_items(v, i as int, a as int),
            outputs@ == output_items(v, i as int, a as int),
        decreases n - a,
    {
        let t = &o.tensors[a];
        assert(v[i as int].tensors[a as int] == t@);
        let id_text = tensor_text_exec(t.id);
        if t.status != TensorStatus::NotInit {
            inputs.append(id_text.as_str());
            match producer_exec(ops, t.id) {
                Some(p) => {
                    inputs.append("(from Op[");
                    let d = decimal_text(p);
                    inputs.append(d.as_str());
                    inputs.append("]) ");
                },
                None => {
                    inputs.append("(external) ");
                },
            }
        } else {
            outputs.append(id_text.as_str());
            outputs.append(" ");
        }
        a = a + 1;
    }
    let mut r = String::from_str("Op[");
    let d = decimal_text(i);
    r.append(d.as_str());
    r.append("]: ");
    r.append(o.label.as_str());
    r.append("\n");
    if inputs.as_str().unicode_len() > 0 {
        r.append("  Inputs:  ");
        r.append(inputs.as_str());
        r.append("\n");
    }
    if outputs.as_str().unicode_len() > 0 {
        r.append("  Outputs: ");
        r.append(outputs.as_str());
        r.append("\n");
    }
    r.append("\n");
    r
}

/// A text graph of a sequence of operations: each operation with where its
/// inputs come from and what it outputs, then what each depends on.
pub fn operations_to_ascii_graph(operations: &[OperationRecord]) -> (r: String)
    ensures
        r@ == ascii_graph(slice_views(operations@)),
{
    let ghost v = slice_views(operations@);
    let mut graph = String::from_str("Pre-optimized Operation Graph:\n");
    graph.append("============================\n\n");
    if operations.len() == 0 {
        graph.append("No operations found.\n");
        return graph;
    }
    let mut blocks = String::new();
    let mut i: usize = 0;
    while i < operations.len()
        invariant
            v == slice_views(operations@),
            i <= operations@.len(),
            blocks@ == op_blocks(v, i as int),
        decreases operations@.len() - i,
    {
        let b = op_block_exec(operations, i);
        blocks.append(b.as_str());
        i = i + 1;
    }
    let mut lines = String::new();
    let mut j: usize = 0;
    while j < operations.len()
        invariant
            v == slice_views(operations@),
            j <= operations@.len(),
            lines@ == dependency_lines(v, j as int),
        decreases operations@.len() - j,
    {
        let deps = dependencies_of(operations, j);
        if deps.len() > 0 {
            lines.append("Op[");
            let d = decimal_text(j);
            lines.append(d.as_str());
            lines.append("] depends on: ");
            let l = list_text_exec(&deps);
            lines.append(l.as_str());
            lines.append("\n");
        }
        j = j + 1;
    }
    graph.append(blocks.as_str());
    graph.append("Dependency Flow:\n");
    graph.append("================\n");
    graph.append(lines.as_str());
    graph
}

/// A label with each double quote replaced by a single one.
pub open spec fn quoted_label(l: Seq<char>) -> Seq<char> {
    l.map_values(|c: char| if c == '"' { '\'' } else { c })
}

pub open spec fn dot_nodes(ops: Seq<OperationView>, k: int) -> Seq<char>
    decreases k,
{
    if k <= 0 || k > ops.len() {
        Seq::empty()
    } else {
        dot_nodes(ops, k - 1) + "  op"@ + decimal((k - 1) as nat) + " [label=\"Op["@ + decimal((k - 1) as nat)
            + "]\\n"@ + quoted_label(ops[k - 1].label) + "\"];\n"@
    }
}

/// The edges into operation `i` from the producers of its first `k` tensors
/// that it reads.
pub open spec fn dot_edges_into(ops: Seq<OperationView>, i: int, k: int) -> Seq<char>
    decreases k,
{
    if k <= 0 || k > ops[i].tensors.len() {
        Seq::empty()
    } else {
        let t = ops[i].tensors[k - 1];
        dot_edges_into(ops, i, k - 1) + if t.status != TensorStatus::NotInit {
            match producer(ops, t.id) {
                Some(p) => "  op"@ + decimal(p as nat) + " -> op"@ + decimal(i as nat) + " [label=\""@
                    + tensor_text(t.id) + "\"];\n"@,
                None => Seq::empty(),
            }
        } else {
            Seq::empty()
        }
    }
}

pub open spec fn dot_edges(ops: Seq<OperationView>, k: int) -> Seq<char>
    decreases k,
{
    if k <= 0 || k > ops.len() {
        Seq::empty()
    } else {
        dot_edges(ops, k - 1) + dot_edges_into(ops, k - 1, ops[k - 1].tensors.len() as int)
    }
}

/// The graph of a sequence of operations in the DOT language.
pub open spec fn dot_graph(ops: Seq<OperationView>) -> Seq<char> {
    "digraph OperationGraph {\n"@ + "  rankdir=TB;\n"@ + "  node [shape=box];\n\n"@ + dot_nodes(
        ops,
        ops.len() as int,
    ) + dot_edges(ops, ops.len() as int) + "}\n"@
}

fn quoted_label_exec(l: &str) -> (r: String)
    ensures
        r@ == quoted_label(l@),
{
    let n = l.unicode_len();
    let mut r = String::new();
    let mut k: usize = 0;
    while k < n
        invariant
            n == l@.len(),
            k <= n,
            r@ == quoted_label(l@.subrange(0, k as int)),
        decreases n - k,
    {
        let c = l.get_char(k);
        proof {
            reveal_strlit("'");
        }
        if c == '"' {
            r.append("'");
        } else {
            r.append(l.substring_char(k, k + 1));
        }
        k = k + 1;
        assert(quoted_label(l@.subrange(0, k as int)) =~= quoted_label(l@.subrange(0, k - 1)) + seq![
            if c == '"' { '\'' } else { c },
        ]);
    }
    assert(l@.subrange(0, n as int) =~= l@);
    r
}

/// The graph of a sequence of operations in the DOT language: a node per
/// operation, and an edge from the producer of each tensor to each
/// operation that reads it.
pub fn operations_to_dot_graph(operations: &[OperationRecord]) -> (r: String)
    ensures
        r@ == dot_graph(slice_views(operations@)),
{
    let ghost v = slice_views(operations@);
    let mut dot = String::from_str("digraph OperationGraph {\n");
    dot.append("  rankdir=TB;\n");
    dot.append("  node [shape=box];\n\n");
    let mut nodes = String::new();
    let mut i: usize = 0;
    while i < operations.len()
        invariant
            v == slice_views(operations@),
            i <= operations@.len(),
            nodes@ == dot_nodes(v, i as int),
        decreases operations@.len() - i,
    {
        let o = &operations[i];
        assert(v[i as int] == o@);
        nodes.append("  op");
        let d = decimal_text(i);
        nodes.append(d.as_str());
        nodes.append(" [label=\"Op[");
        nodes.append(d.as_str());
        nodes.append("]\\n");
        let label = quoted_label_exec(o.label.as_str());
        nodes.append(label.as_str());
        nodes.append("\"];\n");
        i = i + 1;
    }
    let mut edges = String::new();
    let mut j: usize = 0;
    while j < operations.len()
        invariant
            v == slice_views(operations@),
            j <= operations@.len(),
            edges@ == dot_edges(v, j as int),
        decreases operations@.len() - j,
    {
        let o = &operations[j];
        assert(v[j as int] == o@);
        let n = o.tensors.len();
        let mut into = String::new();
        let mut a: usize = 0;
        while a < n
            invariant
                v == slice_views(operations@),
                j < operations@.len(),
                v[j as int] == o@,
                n == o.tensors@.len(),
                a <= n,
                into@ == dot_edges_into(v, j as int, a as int),
            decreases n - a,
        {
            let t = &o.tensors[a];
            assert(v[j as int].tensors[a as int] == t@);
            if t.status != TensorStatus::NotInit {
                match producer_exec(operations, t.id) {
                    Some(p) => {
                        into.append("  op");
                        let dp = decimal_text(p);
                        into.append(dp.as_str());
                        into.append(" -> op");
                        let dj = decimal_text(j);
                        into.append(dj.as_str());
                        into.append(" [label=\"");
                        let tt = tensor_text_exec(t.id);
                        into.append(tt.as_str());
                        into.append("\"];\n");
                    },
                    None => {},
                }
            }
            a = a + 1;
        }
        edges.append(into.as_str());
        j = j + 1;
    }
    dot.append(nodes.as_str());
    dot.append(edges.as_str());
    dot.append("}\n");
    dot
}

} // verus!
