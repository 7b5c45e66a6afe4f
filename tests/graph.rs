use burn_fusion::graph::{dependencies_of, operations_to_ascii_graph, operations_to_dot_graph};
use burn_fusion::ir::{operation_name, OperationKind, OperationRecord, TensorNode, TensorStatus};
use burn_fusion::store::{ExecutionPlan, ExecutionPlanStore, ExecutionTrigger};
use burn_fusion::strategy::{BlockOptimization, ExecutionStrategy};

fn node(id: u64, status: TensorStatus) -> TensorNode {
    TensorNode { id, status, shape: vec![4], dtype: "F32".to_string() }
}

fn unary(label: &str, input: u64, out: u64) -> OperationRecord {
    OperationRecord {
        kind: OperationKind::Float,
        name: label.to_string(),
        label: label.to_string(),
        tensors: vec![node(input, TensorStatus::ReadOnly), node(out, TensorStatus::NotInit)],
    }
}

#[test]
fn ascii_graph_of_nothing() {
    assert_eq!(
        operations_to_ascii_graph(&[]),
        "Pre-optimized Operation Graph:\n============================\n\nNo operations found.\n"
    );
}

#[test]
fn ascii_graph_shows_producers_and_dependencies() {
    let ops = vec![unary("Mul", 0, 1), unary("Tanh", 1, 2)];
    let expected = "Pre-optimized Operation Graph:\n============================\n\n\
Op[0]: Mul\n  Inputs:  TensorId(0)(external) \n  Outputs: TensorId(1) \n\n\
Op[1]: Tanh\n  Inputs:  TensorId(1)(from Op[0]) \n  Outputs: TensorId(2) \n\n\
Dependency Flow:\n================\nOp[1] depends on: [0]\n";
    assert_eq!(operations_to_ascii_graph(&ops), expected);
}

#[test]
fn dependencies_are_sorted_and_unique() {
    let join = OperationRecord {
        kind: OperationKind::NumericFloat,
        name: "Add".to_string(),
        label: "Add".to_string(),
        tensors: vec![
            node(3, TensorStatus::ReadOnly),
            node(1, TensorStatus::ReadOnly),
            node(3, TensorStatus::ReadWrite),
            node(9, TensorStatus::NotInit),
        ],
    };
    let ops = vec![unary("A", 0, 1), unary("B", 0, 3), join];
    assert_eq!(dependencies_of(&ops, 2), vec![0, 1]);
    assert_eq!(dependencies_of(&ops, 0), Vec::<usize>::new());
}

#[test]
fn dot_graph_has_nodes_and_edges() {
    let ops = vec![unary("say \"hi\"", 0, 1), unary("Tanh", 1, 2)];
    let expected = String::new()
        + "digraph OperationGraph {\n  rankdir=TB;\n  node [shape=box];\n\n"
        + "  op0 [label=\"Op[0]\\nsay 'hi'\"];\n"
        + "  op1 [label=\"Op[1]\\nTanh\"];\n"
        + "  op0 -> op1 [label=\"TensorId(1)\"];\n"
        + "}\n";
    assert_eq!(operations_to_dot_graph(&ops), expected);
}

#[test]
fn operation_names_are_leading_identifiers() {
    assert_eq!(operation_name("MulScalar(ScalarOpIr { lhs: 1 })"), "MulScalar");
    assert_eq!(operation_name("Drop"), "Drop");
    assert_eq!(operation_name(" x"), "");
}

#[test]
fn json_export_reports_that_it_is_not_offered() {
    let store: ExecutionPlanStore<String> = ExecutionPlanStore::new();
    assert_eq!(
        store.debug_to_json().unwrap(),
        "{\"error\": \"Serialization not yet implemented for ExecutionPlan\"}"
    );
}

#[test]
fn optimizations_give_access_to_strategies() {
    let mut store: ExecutionPlanStore<String> = ExecutionPlanStore::new();
    store.add(ExecutionPlan {
        operations: vec![unary("Exp", 0, 1), unary("Log", 1, 2)],
        triggers: vec![ExecutionTrigger::OnSync],
        optimization: BlockOptimization {
            strategy: ExecutionStrategy::Optimization { opt: "k".to_string(), ordering: vec![1, 0] },
            ordering: vec![0, 1],
        },
    });
    let all = store.debug_optimizations();
    assert_eq!(all.len(), 1);
    assert_eq!(all[0].id, 0);
    assert_eq!(all[0].operation_count, 2);
    assert_eq!(all[0].operations[1].label, "Log");
    assert_eq!(all[0].optimization_strategy.execution_order(), vec![1, 0]);
}

#[test]
fn a_default_store_is_empty_and_plans_can_be_refined_in_place() {
    let mut store: ExecutionPlanStore<String> = ExecutionPlanStore::default();
    assert_eq!(store.debug_plan_count(), 0);
    store.add(ExecutionPlan {
        operations: vec![unary("Exp", 0, 1)],
        triggers: vec![],
        optimization: BlockOptimization { strategy: ExecutionStrategy::unfused(1), ordering: vec![0] },
    });
    store.get_mut_unchecked(0).optimization.strategy =
        ExecutionStrategy::Optimization { opt: "refined".to_string(), ordering: vec![0] };
    match &store.get_unchecked(0).optimization.strategy {
        ExecutionStrategy::Optimization { opt, .. } => assert_eq!(opt, "refined"),
        _ => panic!("expected the refined strategy"),
    }
}
