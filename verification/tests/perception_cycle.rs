use localview::control::fresh_snapshot::FreshSnapshotError;
use localview::control::perception::{PerceptionActionKind, PerceptionBudgetUsage};
use localview::control::perception_cycle::{
    add_actual_non_latency_usage, checked_visual_usage, execution_error_answer, native_visual_operation_budget,
    next_cycle_move, zero_usage, CycleMove, PerceptionBudgetContract, MAX_PERCEPTION_CYCLE_STEPS,
};

fn usage(latency_ms: u64, text_tokens: u64, image_regions: u64, chromium_spawns: u64) -> PerceptionBudgetUsage {
    PerceptionBudgetUsage { latency_ms, text_tokens, image_regions, chromium_spawns }
}

#[test]
fn cycle_moves_follow_the_plan_and_the_step_limit() {
    assert_eq!(next_cycle_move(MAX_PERCEPTION_CYCLE_STEPS, Some(PerceptionActionKind::SemanticSnapshot), false, true), CycleMove::StepLimit);
    assert_eq!(next_cycle_move(0, None, false, false), CycleMove::Finish);
    assert_eq!(next_cycle_move(1, None, true, false), CycleMove::BudgetExhausted);
    assert_eq!(next_cycle_move(1, Some(PerceptionActionKind::SemanticSnapshot), false, false), CycleMove::SemanticSnapshot);
    assert_eq!(next_cycle_move(2, Some(PerceptionActionKind::RegionCapture), false, true), CycleMove::RegionCapture);
    assert_eq!(next_cycle_move(2, Some(PerceptionActionKind::RegionCapture), false, false), CycleMove::ViewportRequired);
    assert_eq!(next_cycle_move(3, Some(PerceptionActionKind::NetworkRead), false, true), CycleMove::ExecutorUnavailable);
}

#[test]
fn usage_and_budgets_saturate() {
    assert_eq!(zero_usage(), usage(0, 0, 0, 0));
    let budget = PerceptionBudgetContract { latency_ms: 1_000, text_tokens: 100, image_regions: 0, chromium_spawns: 3 };
    assert_eq!(
        native_visual_operation_budget(&budget, &usage(1_500, 40, 0, 0)),
        PerceptionBudgetContract { latency_ms: 0, text_tokens: 60, image_regions: 1, chromium_spawns: 0 }
    );
    assert_eq!(
        add_actual_non_latency_usage(&usage(9, u64::MAX - 1, 1, 0), &usage(500, 5, 1, 0)),
        usage(9, u64::MAX, 2, 0)
    );
    assert_eq!(checked_visual_usage(None), Err("native_visual_usage_missing"));
    assert_eq!(checked_visual_usage(Some(usage(1, 1, 2, 0))), Err("native_visual_usage_invalid"));
    assert_eq!(checked_visual_usage(Some(usage(1, 1, 1, 1))), Err("native_visual_usage_invalid"));
    assert_eq!(checked_visual_usage(Some(usage(1, 1, 1, 0))), Ok(usage(1, 1, 1, 0)));
}

#[test]
fn failed_snapshots_are_answered_by_route() {
    assert_eq!(execution_error_answer(FreshSnapshotError::Timeout), (504, "perception_semantic_snapshot_timeout"));
    assert_eq!(execution_error_answer(FreshSnapshotError::Invalid), (502, "invalid_perception_semantic_snapshot"));
    assert_eq!(FreshSnapshotError::Failed.route_answer(), (502, "fresh_semantic_snapshot_failed"));
    assert_eq!(FreshSnapshotError::SessionNotFound.route_answer(), (404, "session_not_found"));
}
