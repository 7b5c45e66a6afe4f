use burn_fusion::index::SearchQuery;
use burn_fusion::ir::{external_inputs, OperationKind, OperationRecord, TensorNode, TensorStatus};
use burn_fusion::server::FusionServer;
use burn_fusion::store::{ExecutionPlan, ExecutionPlanStore, ExecutionTrigger};
use burn_fusion::strategy::{BlockOptimization, ExecutionStep, ExecutionStrategy};
use burn_fusion::stream::{checked_block, DrainedSegment, Explorer};

fn tensor(id: u64, status: TensorStatus) -> TensorNode {
    TensorNode { id, status, shape: vec![2, 2], dtype: "F32".to_string() }
}

fn op(kind: OperationKind, name: &str, tensors: Vec<TensorNode>) -> OperationRecord {
    OperationRecord { kind, name: name.to_string(), label: name.to_string(), tensors }
}

fn mul_scalar(input: u64, out: u64) -> OperationRecord {
    op(
        OperationKind::NumericFloat,
        "MulScalar",
        vec![tensor(input, TensorStatus::ReadOnly), tensor(out, TensorStatus::NotInit)],
    )
}

fn add_scalar(input: u64, out: u64) -> OperationRecord {
    op(
        OperationKind::NumericFloat,
        "AddScalar",
        vec![tensor(input, TensorStatus::ReadOnly), tensor(out, TensorStatus::NotInit)],
    )
}

fn tanh(input: u64, out: u64) -> OperationRecord {
    op(
        OperationKind::Float,
        "Tanh",
        vec![tensor(input, TensorStatus::ReadOnly), tensor(out, TensorStatus::NotInit)],
    )
}

fn drop_op(id: u64) -> OperationRecord {
    op(OperationKind::Drop, "Drop", vec![tensor(id, TensorStatus::ReadWrite)])
}

/// Fuses whatever it is given, in registration order.
struct FuseAll {
    calls: usize,
}

impl Explorer<String> for FuseAll {
    fn explore(&mut self, operations: &Vec<OperationRecord>) -> Option<BlockOptimization<String>> {
        self.calls += 1;
        let ordering: Vec<usize> = (0..operations.len()).collect();
        Some(BlockOptimization {
            strategy: ExecutionStrategy::Optimization { opt: "fused".to_string(), ordering: ordering.clone() },
            ordering,
        })
    }
}

/// Finds nothing to fuse.
struct NoFusion;

impl Explorer<String> for NoFusion {
    fn explore(&mut self, _operations: &Vec<OperationRecord>) -> Option<BlockOptimization<String>> {
        None
    }
}

/// Proposes a strategy that replays an operation that does not exist.
struct OutOfRange;

impl Explorer<String> for OutOfRange {
    fn explore(&mut self, operations: &Vec<OperationRecord>) -> Option<BlockOptimization<String>> {
        Some(BlockOptimization {
            strategy: ExecutionStrategy::Operations { ordering: vec![operations.len()] },
            ordering: vec![],
        })
    }
}

fn register_scenario_a(server: &mut FusionServer<String>, explorer: &mut FuseAll, base: u64) {
    server.register(0, mul_scalar(base, base + 1), explorer);
    server.register(0, add_scalar(base + 1, base + 2), explorer);
    server.register(0, tanh(base + 2, base + 3), explorer);
}

#[test]
fn scenario_a_one_plan_for_three_operations() {
    let mut server: FusionServer<String> = FusionServer::new();
    let mut explorer = FuseAll { calls: 0 };
    register_scenario_a(&mut server, &mut explorer, 0);
    let segments = server.drain_stream(0, &mut explorer);
    assert_eq!(segments, vec![DrainedSegment { plan: 0, offset: 0, len: 3 }]);
    let store = server.debug_post_optimized();
    assert_eq!(store.debug_plan_count(), 1);
    let plan = store.get_unchecked(0);
    assert_eq!(plan.operations.len(), 3);
    assert_eq!(plan.triggers.len(), 1);
    let expected = ExecutionTrigger::OnOperations(vec![mul_scalar(0, 1), add_scalar(1, 2), tanh(2, 3)]);
    assert!(plan.triggers[0].same_as(&expected));
    let mut order = plan.optimization.strategy.execution_order();
    order.sort();
    assert_eq!(order, vec![0, 1, 2]);
    assert!(plan.optimization.strategy.is_schedule(3));
    assert_eq!(server.debug_pre_optimized(0).map(|q| q.len()), Some(0));
}

#[test]
fn scenario_b_replay_with_fresh_ids_reuses_the_plan() {
    let mut server: FusionServer<String> = FusionServer::new();
    let mut explorer = FuseAll { calls: 0 };
    register_scenario_a(&mut server, &mut explorer, 0);
    server.drain_stream(0, &mut explorer);
    assert_eq!(server.register(0, mul_scalar(100, 101), &mut explorer).matched, None);
    server.register(0, add_scalar(101, 102), &mut explorer);
    let registration = server.register(0, tanh(102, 103), &mut explorer);
    assert!(registration.drained.is_empty());
    assert_eq!(registration.matched, Some(0));
    let buffered = server.debug_pre_optimized(0).unwrap().clone();
    let found = server.debug_post_optimized().find(SearchQuery::PlansMatchingPrefixOf(&buffered));
    assert_eq!(found, vec![0]);
    let segments = server.drain_stream(0, &mut explorer);
    assert_eq!(segments, vec![DrainedSegment { plan: 0, offset: 0, len: 3 }]);
    assert_eq!(server.debug_post_optimized().debug_plan_count(), 1);
    assert_eq!(explorer.calls, 1);
}

#[test]
fn scenario_c_dropped_tensor_is_no_external_input() {
    let ops = vec![mul_scalar(0, 1), drop_op(1), add_scalar(0, 2)];
    assert_eq!(external_inputs(&ops), vec![0]);
    let mut server: FusionServer<String> = FusionServer::new();
    let mut explorer = FuseAll { calls: 0 };
    for o in ops {
        server.register(3, o, &mut explorer);
    }
    server.drain_stream(3, &mut explorer);
    let plan = server.debug_post_optimized().get_unchecked(0);
    assert_eq!(external_inputs(&plan.operations), vec![0]);
}

#[test]
fn scenario_d_draining_one_stream_leaves_the_other() {
    let mut server: FusionServer<String> = FusionServer::new();
    let mut explorer = FuseAll { calls: 0 };
    server.register(1, mul_scalar(0, 1), &mut explorer);
    server.register(2, mul_scalar(10, 11), &mut explorer);
    server.register(2, add_scalar(11, 12), &mut explorer);
    let segments = server.drain_stream(1, &mut explorer);
    assert_eq!(segments.len(), 1);
    assert_eq!(server.debug_pre_optimized(1).map(|q| q.len()), Some(0));
    assert_eq!(server.debug_pre_optimized(2).map(|q| q.len()), Some(2));
}

#[test]
fn draining_an_empty_stream_does_nothing() {
    let mut server: FusionServer<String> = FusionServer::new();
    let mut explorer = FuseAll { calls: 0 };
    assert!(server.drain_stream(7, &mut explorer).is_empty());
    server.register(7, mul_scalar(0, 1), &mut explorer);
    server.drain_stream(7, &mut explorer);
    assert!(server.drain_stream(7, &mut explorer).is_empty());
    assert_eq!(server.debug_post_optimized().debug_plan_count(), 1);
    assert_eq!(explorer.calls, 1);
}

#[test]
fn replay_under_other_ids_allocates_no_plan() {
    let mut server: FusionServer<String> = FusionServer::new();
    let mut explorer = FuseAll { calls: 0 };
    server.register(0, mul_scalar(1, 2), &mut explorer);
    server.register(0, tanh(2, 3), &mut explorer);
    server.drain_stream(0, &mut explorer);
    server.register(0, mul_scalar(41, 42), &mut explorer);
    server.register(0, tanh(42, 43), &mut explorer);
    server.drain_stream(0, &mut explorer);
    assert_eq!(server.debug_post_optimized().debug_plan_count(), 1);
}

#[test]
fn a_known_prefix_runs_through_its_plan_and_the_rest_is_explored() {
    let mut server: FusionServer<String> = FusionServer::new();
    let mut explorer = FuseAll { calls: 0 };
    server.register(0, mul_scalar(0, 1), &mut explorer);
    server.drain_stream(0, &mut explorer);
    server.register(0, mul_scalar(5, 6), &mut explorer);
    server.register(0, tanh(6, 7), &mut explorer);
    let segments = server.drain_stream(0, &mut explorer);
    assert_eq!(
        segments,
        vec![DrainedSegment { plan: 0, offset: 0, len: 1 }, DrainedSegment { plan: 1, offset: 1, len: 1 }]
    );
    let store = server.debug_post_optimized();
    assert_eq!(store.debug_plan_count(), 2);
    assert_eq!(store.get_unchecked(1).operations[0].name, "Tanh");
}

#[test]
fn the_longest_recognized_plan_wins() {
    let mut server: FusionServer<String> = FusionServer::new();
    let mut explorer = FuseAll { calls: 0 };
    server.register(0, mul_scalar(0, 1), &mut explorer);
    server.drain_stream(0, &mut explorer);
    server.register(0, mul_scalar(0, 1), &mut explorer);
    server.register(0, tanh(1, 2), &mut explorer);
    server.drain_stream(0, &mut explorer);
    server.register(0, mul_scalar(0, 1), &mut explorer);
    server.register(0, tanh(1, 2), &mut explorer);
    let segments = server.drain_stream(0, &mut explorer);
    assert_eq!(segments, vec![DrainedSegment { plan: 0, offset: 0, len: 1 }, DrainedSegment { plan: 1, offset: 1, len: 1 }]);
}

#[test]
fn no_fusion_falls_back_to_single_operations() {
    let mut server: FusionServer<String> = FusionServer::new();
    server.register(0, mul_scalar(0, 1), &mut NoFusion);
    server.register(0, tanh(1, 2), &mut NoFusion);
    server.drain_stream(0, &mut NoFusion);
    let plan = server.debug_post_optimized().get_unchecked(0);
    match &plan.optimization.strategy {
        ExecutionStrategy::Operations { ordering } => assert_eq!(ordering, &vec![0, 1]),
        _ => panic!("expected the unfused strategy"),
    }
}

#[test]
fn an_invalid_proposal_falls_back_to_single_operations() {
    let mut server: FusionServer<String> = FusionServer::new();
    server.register(0, mul_scalar(0, 1), &mut OutOfRange);
    server.drain_stream(0, &mut OutOfRange);
    let plan = server.debug_post_optimized().get_unchecked(0);
    assert_eq!(plan.optimization.strategy.execution_order(), vec![0]);
}

#[test]
fn register_drains_a_stream_holding_a_shared_tensor() {
    let mut server: FusionServer<String> = FusionServer::new();
    let mut explorer = FuseAll { calls: 0 };
    server.register(1, mul_scalar(0, 5), &mut explorer);
    server.register(3, tanh(20, 21), &mut explorer);
    let registration = server.register(2, add_scalar(5, 6), &mut explorer);
    assert_eq!(registration.drained.len(), 1);
    assert_eq!(registration.drained[0].stream, 1);
    assert_eq!(registration.drained[0].segments, vec![DrainedSegment { plan: 0, offset: 0, len: 1 }]);
    assert_eq!(server.debug_post_optimized().debug_plan_count(), 1);
    assert_eq!(server.debug_post_optimized().get_unchecked(0).operations[0].tensors[1].id, 5);
    assert_eq!(server.debug_pre_optimized(1).map(|q| q.len()), Some(0));
    assert_eq!(server.debug_pre_optimized(2).map(|q| q.len()), Some(1));
    assert_eq!(server.debug_pre_optimized(3).map(|q| q.len()), Some(1));
}

#[test]
fn fusion_summary_counts_streams_operations_and_plans() {
    let mut server: FusionServer<String> = FusionServer::new();
    let mut explorer = FuseAll { calls: 0 };
    server.register(0, mul_scalar(0, 1), &mut explorer);
    server.drain_stream(0, &mut explorer);
    server.register(0, mul_scalar(2, 3), &mut explorer);
    server.register(0, tanh(3, 4), &mut explorer);
    server.register(9, tanh(30, 31), &mut explorer);
    let summary = server.debug_fusion_summary();
    assert_eq!(summary.stream_count, 2);
    assert_eq!(summary.total_operations, 3);
    assert_eq!(summary.execution_plan_count, 1);
    assert_eq!(summary.execution_plan_summaries.len(), 1);
    assert_eq!(summary.execution_plan_summaries[0].operation_count, 1);
    assert_eq!(summary.execution_plan_summaries[0].trigger_count, 1);
    let all = server.debug_all_pre_optimized();
    assert_eq!(all.iter().map(|(id, q)| (*id, q.len())).collect::<Vec<_>>(), vec![(0, 2), (9, 1)]);
}

fn plan_of(ops: Vec<OperationRecord>) -> ExecutionPlan<String> {
    let n = ops.len();
    ExecutionPlan {
        operations: ops,
        triggers: vec![ExecutionTrigger::OnSync],
        optimization: BlockOptimization { strategy: ExecutionStrategy::unfused(n), ordering: vec![] },
    }
}

#[test]
fn add_trigger_twice_keeps_one_copy() {
    let mut store: ExecutionPlanStore<String> = ExecutionPlanStore::new();
    let id = store.add(plan_of(vec![mul_scalar(0, 1)]));
    assert_eq!(id, 0);
    store.add_trigger(0, ExecutionTrigger::Always);
    store.add_trigger(0, ExecutionTrigger::Always);
    assert_eq!(store.get_unchecked(0).triggers.len(), 2);
    store.add_trigger(0, ExecutionTrigger::OnOperations(vec![mul_scalar(4, 5)]));
    store.add_trigger(0, ExecutionTrigger::OnOperations(vec![mul_scalar(4, 5)]));
    assert_eq!(store.get_unchecked(0).triggers.len(), 3);
    store.add_trigger(0, ExecutionTrigger::OnSync);
    assert_eq!(store.get_unchecked(0).triggers.len(), 3);
}

#[test]
fn add_trigger_keeps_triggers_that_differ_in_tensor_ids() {
    let mut store: ExecutionPlanStore<String> = ExecutionPlanStore::new();
    store.add(plan_of(vec![mul_scalar(0, 1)]));
    store.add_trigger(0, ExecutionTrigger::OnOperations(vec![mul_scalar(4, 5)]));
    store.add_trigger(0, ExecutionTrigger::OnOperations(vec![mul_scalar(8, 9)]));
    assert_eq!(store.get_unchecked(0).triggers.len(), 3);
    assert!(store.get_unchecked(0).triggers[1].same_as(&store.get_unchecked(0).triggers[2]));
    assert!(!store.get_unchecked(0).triggers[1].equals(&store.get_unchecked(0).triggers[2]));
}

#[test]
fn store_ids_follow_insertion_and_find_by_first_operation() {
    let mut store: ExecutionPlanStore<String> = ExecutionPlanStore::new();
    assert_eq!(store.add(plan_of(vec![mul_scalar(0, 1), tanh(1, 2)])), 0);
    assert_eq!(store.add(plan_of(vec![tanh(0, 1)])), 1);
    assert_eq!(store.add(plan_of(vec![mul_scalar(7, 8)])), 2);
    let probe = mul_scalar(50, 51);
    assert_eq!(store.find(SearchQuery::PlansStartingWith(&probe)), vec![0, 2]);
    let buffer = vec![mul_scalar(3, 4), tanh(4, 5)];
    assert_eq!(store.find(SearchQuery::PlansMatchingPrefixOf(&buffer)), vec![0, 2]);
    let short = vec![mul_scalar(3, 4)];
    assert_eq!(store.find(SearchQuery::PlansMatchingPrefixOf(&short)), vec![2]);
    assert_eq!(store.find(SearchQuery::PlansWithOperations(&buffer)), vec![0]);
    assert_eq!(store.find(SearchQuery::PlansWithOperations(&short)), vec![2]);
    let longer = vec![mul_scalar(3, 4), tanh(4, 5), tanh(5, 6)];
    assert!(store.find(SearchQuery::PlansWithOperations(&longer)).is_empty());
    assert!(store.find(SearchQuery::PlansMatchingPrefixOf(&vec![])).is_empty());
    let summary = store.debug_summary();
    assert_eq!(summary.iter().map(|s| (s.id, s.operation_count, s.trigger_count)).collect::<Vec<_>>(), vec![(0, 2, 1), (1, 1, 1), (2, 1, 1)]);
    let with_ops = store.debug_summary_with_operations();
    assert_eq!(with_ops[0].operation_types, vec!["NumericFloat".to_string(), "Float".to_string()]);
}

#[test]
fn keys_ignore_tensor_ids_but_not_shapes() {
    assert!(mul_scalar(0, 1).same_key(&mul_scalar(8, 9)));
    let mut other = mul_scalar(0, 1);
    other.tensors[0].shape = vec![3];
    assert!(!mul_scalar(0, 1).same_key(&other));
    assert!(!mul_scalar(0, 1).same_key(&add_scalar(0, 1)));
}

#[test]
fn composed_strategy_runs_its_parts_in_order() {
    let strategy: ExecutionStrategy<String> = ExecutionStrategy::Composed(vec![
        Box::new(ExecutionStrategy::Optimization { opt: "a".to_string(), ordering: vec![1, 0] }),
        Box::new(ExecutionStrategy::Operations { ordering: vec![2, 3] }),
    ]);
    assert_eq!(strategy.execution_order(), vec![1, 0, 2, 3]);
    let steps = strategy.execution_steps();
    assert_eq!(steps.len(), 3);
    match &steps[0] {
        ExecutionStep::Fused { opt, ordering } => {
            assert_eq!(opt.as_str(), "a");
            assert_eq!(ordering.as_slice(), &[1, 0]);
        }
        _ => panic!("expected the fused step first"),
    }
    assert!(matches!(steps[1], ExecutionStep::Single { index: 2 }));
    assert!(matches!(steps[2], ExecutionStep::Single { index: 3 }));
    assert!(strategy.is_schedule(4));
    assert!(!strategy.is_schedule(3));
}

#[test]
fn registering_without_shared_tensors_drains_nothing() {
    let mut server: FusionServer<String> = FusionServer::new();
    let mut explorer = FuseAll { calls: 0 };
    server.register(1, mul_scalar(0, 1), &mut explorer);
    let registration = server.register(2, mul_scalar(10, 11), &mut explorer);
    assert!(registration.drained.is_empty());
    assert_eq!(registration.matched, None);
    assert_eq!(explorer.calls, 0);
    assert_eq!(server.debug_pre_optimized(1).map(|q| q.len()), Some(1));
}

#[test]
fn a_proposal_is_kept_only_when_it_replays_each_operation_once() {
    let fused = BlockOptimization {
        strategy: ExecutionStrategy::Optimization { opt: "f".to_string(), ordering: vec![1, 0] },
        ordering: vec![0, 1],
    };
    let kept = checked_block(Some(fused), 2);
    assert!(matches!(kept.strategy, ExecutionStrategy::Optimization { .. }));
    let repeated = BlockOptimization {
        strategy: ExecutionStrategy::Optimization { opt: "f".to_string(), ordering: vec![0, 0] },
        ordering: vec![0, 1],
    };
    let fallback = checked_block(Some(repeated), 2);
    match &fallback.strategy {
        ExecutionStrategy::Operations { ordering } => assert_eq!(ordering, &vec![0, 1]),
        _ => panic!("expected the unfused strategy"),
    }
    let none: BlockOptimization<String> = checked_block(None, 3);
    assert_eq!(none.strategy.execution_order(), vec![0, 1, 2]);
}

#[test]
fn reading_out_a_tensor_forgets_an_idle_stream() {
    let mut server: FusionServer<String> = FusionServer::new();
    let mut explorer = FuseAll { calls: 0 };
    server.register(4, mul_scalar(0, 1), &mut explorer);
    server.mark_read(4, &tensor(1, TensorStatus::ReadWrite));
    assert_eq!(server.debug_pre_optimized(4).map(|q| q.len()), Some(1));
    server.drain_stream(4, &mut explorer);
    server.mark_read(4, &tensor(1, TensorStatus::ReadOnly));
    assert_eq!(server.debug_pre_optimized(4).map(|q| q.len()), Some(0));
    server.mark_read(4, &tensor(1, TensorStatus::ReadWrite));
    assert!(server.debug_pre_optimized(4).is_none());
    assert_eq!(server.debug_post_optimized().debug_plan_count(), 1);
}
