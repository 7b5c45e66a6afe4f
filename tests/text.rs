use burn_fusion::debug::{
    operation_entry, optimization_counts,
    extract_fuse_trace_info, extract_operations, extract_reads_writes, extract_scalars,
    extract_settings, pretty_print_fuse_trace,
};
use burn_fusion::ir::{operation_type_name, OperationKind, OperationRecord};
use burn_fusion::store::ExecutionPlanSummary;
use burn_fusion::strategy::ExecutionStrategy;
use burn_fusion::text::{decimal_text, list_text_exec};

#[test]
fn scalars_are_recognized() {
    assert_eq!(
        extract_scalars("x scalars: [(F32, 0), (F32, 1)] y"),
        Some("Scalar(0) = 2.0, Scalar(1) = 1.0".to_string())
    );
    assert_eq!(extract_scalars("scalars: []"), Some("Multiple scalar values used".to_string()));
    assert_eq!(extract_scalars("nothing"), None);
}

#[test]
fn settings_are_listed_in_order() {
    assert_eq!(
        extract_settings("vectorization: Activated, broadcast: true"),
        Some("Broadcasting enabled, Vectorization active".to_string())
    );
    assert_eq!(
        extract_settings("inplace: true broadcast: true vectorization: Activated"),
        Some("Broadcasting enabled, In-place optimization, Vectorization active".to_string())
    );
    assert_eq!(extract_settings("broadcast: false"), None);
}

#[test]
fn reads_and_writes_need_a_tensor_before_the_brace() {
    let trace = "reads: { TensorId(3) }, writes: { Local }";
    assert_eq!(
        extract_reads_writes(trace, "reads:"),
        Some("Input(0) \u{2194} Local(0), Local(3) \u{2194} Output(0)".to_string())
    );
    assert_eq!(extract_reads_writes(trace, "writes:"), None);
    assert_eq!(extract_reads_writes("reads: TensorId", "reads:"), None);
    assert_eq!(extract_reads_writes(trace, "missing:"), None);
}

#[test]
fn known_operations_are_named() {
    assert_eq!(
        extract_operations("Tanh(a), Mul(b)"),
        vec![
            "Mul: Local(0) * Scalar(0) \u{2192} Local(1)".to_string(),
            "Tanh: Local(2) \u{2192} Local(3)".to_string()
        ]
    );
}

#[test]
fn other_operations_are_numbered_and_trimmed() {
    assert_eq!(
        extract_operations("  Exp(x), Log (y), Sqrt"),
        vec!["Exp: Operation 1".to_string(), "Log: Operation 2".to_string(), "Sqrt: Operation 3".to_string()]
    );
    assert_eq!(extract_operations(""), vec![": Operation 1".to_string()]);
}

#[test]
fn plain_optimization_text_is_indented() {
    assert_eq!(pretty_print_fuse_trace("abc"), "\u{1F4CB} OPTIMIZATION DETAILS:\n   abc\n");
}

#[test]
fn fuse_trace_text_is_sectioned() {
    let trace = "FuseTrace { ops: [Mul(a), Add(b)], shape_ref: x, scalars: [(F32, 0), (F32, 1)] }";
    let expected = String::new()
        + "\u{1F4CB} FUSE TRACE DETAILS\n"
        + &"\u{2550}".repeat(23)
        + "\n\n"
        + "\u{1F527} FUSED OPERATIONS:\n"
        + "   1. Mul: Local(0) * Scalar(0) \u{2192} Local(1)\n"
        + "   2. Add: Local(1) + Scalar(1) \u{2192} Local(2)\n"
        + "\n"
        + "\u{1F522} SCALAR VALUES:\n"
        + "   Scalar(0) = 2.0, Scalar(1) = 1.0\n\n"
        + "\u{1F4A1} This FuseTrace becomes the FuseBlockConfig in compilation.log\n"
        + "   and gets compiled into the final GPU kernel!\n";
    assert_eq!(pretty_print_fuse_trace(trace), expected);
}

#[test]
fn strategies_are_rendered() {
    let strategy: ExecutionStrategy<String> = ExecutionStrategy::Composed(vec![
        Box::new(ExecutionStrategy::Operations { ordering: vec![0, 1] }),
        Box::new(ExecutionStrategy::Optimization { opt: "Plain".to_string(), ordering: vec![2] }),
    ]);
    let expected = String::new()
        + "\u{1F517} COMPOSED STRATEGY (2 sub-strategies)\n"
        + "\n--- Sub-strategy 0 ---\n"
        + "\u{26A1} OPERATIONS STRATEGY (2 operations)\n   Execution order: [0, 1]\n   (No fusion optimization applied)\n"
        + "\n--- Sub-strategy 1 ---\n"
        + "\u{1F525} FUSED OPTIMIZATION (1 operations)\n   Execution order: [2]\n\n"
        + "   Optimization details:\n   Plain\n";
    assert_eq!(extract_fuse_trace_info(&strategy), expected);
}

#[test]
fn numbers_and_lists_are_written_in_decimal() {
    assert_eq!(decimal_text(0), "0");
    assert_eq!(decimal_text(1207), "1207");
    assert_eq!(list_text_exec(&vec![]), "[]");
    assert_eq!(list_text_exec(&vec![3, 10, 0]), "[3, 10, 0]");
}

#[test]
fn kinds_have_names() {
    assert_eq!(operation_type_name(OperationKind::NumericFloat), "NumericFloat");
    assert_eq!(operation_type_name(OperationKind::Drop), "Drop");
}

fn record(kind: OperationKind) -> OperationRecord {
    OperationRecord { kind, name: "Op".to_string(), label: "Op".to_string(), tensors: vec![] }
}

#[test]
fn counts_compare_operations_and_plans() {
    let ops = vec![
        record(OperationKind::Float),
        record(OperationKind::Init),
        record(OperationKind::Float),
        record(OperationKind::Drop),
    ];
    let summaries = vec![
        ExecutionPlanSummary { id: 0, operation_count: 1, trigger_count: 1 },
        ExecutionPlanSummary { id: 1, operation_count: 2, trigger_count: 1 },
    ];
    let counts = optimization_counts(&ops, &summaries);
    assert_eq!(counts.operations, 4);
    assert_eq!(counts.plans, 2);
    assert_eq!(counts.operations_in_plans, 3);
    assert_eq!(
        counts.per_kind,
        vec![(OperationKind::Float, 2), (OperationKind::Init, 1), (OperationKind::Drop, 1)]
    );
    let saturated = optimization_counts(
        &[],
        &[
            ExecutionPlanSummary { id: 0, operation_count: usize::MAX, trigger_count: 0 },
            ExecutionPlanSummary { id: 1, operation_count: 1, trigger_count: 0 },
        ],
    );
    assert_eq!(saturated.operations_in_plans, usize::MAX);
    assert!(saturated.per_kind.is_empty());
}

#[test]
fn entries_are_numbered_from_one() {
    assert_eq!(operation_entry("Exp", 0), "Exp: Operation 1");
    assert_eq!(operation_entry("", 41), ": Operation 42");
}
