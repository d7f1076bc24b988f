//! The decisions of a perception cycle: what each step does, how usage adds up,
//! and how a failed step is answered.
use vstd::prelude::*;
use crate::control::fresh_snapshot::FreshSnapshotError;
use crate::control::perception::{PerceptionActionKind, PerceptionBudgetUsage};

verus! {

/// Elapsed milliseconds as a `u64`, saturating.
pub fn elapsed_ms(elapsed_millis: u128) -> (r: u64)
    ensures
        r == if elapsed_millis > u64::MAX as u128 {
            u64::MAX
        } else {
            elapsed_millis as u64
        },
{
    if elapsed_millis > u64::MAX as u128 {
        u64::MAX
    } else {
        elapsed_millis as u64
    }
}

/// The most steps one perception cycle takes.
pub const MAX_PERCEPTION_CYCLE_STEPS: usize = 4;

/// The limits a perception cycle must keep.
#[derive(Debug, Clone, Copy, PartialEq, Eq, Structural)]
pub struct PerceptionBudgetContract {
    pub latency_ms: u64,
    pub text_tokens: u64,
    pub image_regions: u64,
    pub chromium_spawns: u64,
}

pub fn zero_usage() -> (r: PerceptionBudgetUsage)
    ensures
        r == (PerceptionBudgetUsage { latency_ms: 0, text_tokens: 0, image_regions: 0, chromium_spawns: 0 }),
{
    PerceptionBudgetUsage { latency_ms: 0, text_tokens: 0, image_regions: 0, chromium_spawns: 0 }
}

pub open spec fn sat_sub(a: u64, b: u64) -> u64 {
    if a >= b {
        (a - b) as u64
    } else {
        0
    }
}

pub open spec fn sat_add(a: u64, b: u64) -> u64 {
    if a + b > u64::MAX {
        u64::MAX
    } else {
        (a + b) as u64
    }
}

/// The budget of one native visual capture: what is left of the cycle's latency and
/// text, one image, and no Chromium.
pub fn native_visual_operation_budget(
    budget: &PerceptionBudgetContract,
    spent: &PerceptionBudgetUsage,
) -> (r: PerceptionBudgetContract)
    ensures
        r == (PerceptionBudgetContract {
            latency_ms: sat_sub(budget.latency_ms, spent.latency_ms),
            text_tokens: sat_sub(budget.text_tokens, spent.text_tokens),
            image_regions: 1,
            chromium_spawns: 0,
        }),
{
    PerceptionBudgetContract {
        latency_ms: budget.latency_ms.saturating_sub(spent.latency_ms),
        text_tokens: budget.text_tokens.saturating_sub(spent.text_tokens),
        image_regions: 1,
        chromium_spawns: 0,
    }
}

/// The usage after a capture: its text, images and Chromium spawns added,
/// saturating, and the latency left as it was.
pub fn add_actual_non_latency_usage(
    spent: &PerceptionBudgetUsage,
    actual: &PerceptionBudgetUsage,
) -> (r: PerceptionBudgetUsage)
    ensures
        r == (PerceptionBudgetUsage {
            latency_ms: spent.latency_ms,
            text_tokens: sat_add(spent.text_tokens, actual.text_tokens),
            image_regions: sat_add(spent.image_regions, actual.image_regions),
            chromium_spawns: sat_add(spent.chromium_spawns, actual.chromium_spawns),
        }),
{
    PerceptionBudgetUsage {
        latency_ms: spent.latency_ms,
        text_tokens: spent.text_tokens.saturating_add(actual.text_tokens),
        image_regions: spent.image_regions.saturating_add(actual.image_regions),
        chromium_spawns: spent.chromium_spawns.saturating_add(actual.chromium_spawns),
    }
}

/// The usage a native capture reports, where present and within one image and no
/// Chromium spawn; otherwise the error code of the refusal.
pub fn checked_visual_usage(actual: Option<PerceptionBudgetUsage>) -> (r: Result<
    PerceptionBudgetUsage,
    &'static str,
>)
    ensures
        match actual {
            None => r matches Err(code) && code@ == "native_visual_usage_missing"@,
            Some(u) => if u.chromium_spawns != 0 || u.image_regions > 1 {
                r matches Err(code) && code@ == "native_visual_usage_invalid"@
            } else {
                r == Ok::<PerceptionBudgetUsage, &'static str>(u)
            },
        },
{
    match actual {
        None => Err("native_visual_usage_missing"),
        Some(u) => if u.chromium_spawns != 0 || u.image_regions > 1 {
            Err("native_visual_usage_invalid")
        } else {
            Ok(u)
        },
    }
}

/// What a perception cycle does next.
#[derive(Debug, Clone, Copy, PartialEq, Eq, Structural)]
pub enum CycleMove {
    /// The cycle has taken its most steps.
    StepLimit,
    /// Nothing is left to do: the cycle ends with its final budget decision.
    Finish,
    /// The planner refused every candidate for the budget.
    BudgetExhausted,
    /// Take a fresh semantic snapshot.
    SemanticSnapshot,
    /// Ask the native executor for a visual packet.
    RegionCapture,
    /// A region capture needs a viewport that the request did not give.
    ViewportRequired,
    /// No executor runs the selected action.
    ExecutorUnavailable,
}

pub open spec fn spec_next_move(
    steps_taken: usize,
    selected: Option<PerceptionActionKind>,
    any_rejected: bool,
    viewport_given: bool,
) -> CycleMove {
    if steps_taken >= MAX_PERCEPTION_CYCLE_STEPS {
        CycleMove::StepLimit
    } else {
        match selected {
            None => if any_rejected {
                CycleMove::BudgetExhausted
            } else {
                CycleMove::Finish
            },
            Some(PerceptionActionKind::SemanticSnapshot) => CycleMove::SemanticSnapshot,
            Some(PerceptionActionKind::RegionCapture) => if viewport_given {
                CycleMove::RegionCapture
            } else {
                CycleMove::ViewportRequired
            },
            Some(_) => CycleMove::ExecutorUnavailable,
        }
    }
}

/// What a perception cycle does after `steps_taken` steps, given the first action
/// of the new plan (if any), whether the plan refused candidates, and whether the
/// request gave a viewport.
pub fn next_cycle_move(
    steps_taken: usize,
    selected: Option<PerceptionActionKind>,
    any_rejected: bool,
    viewport_given: bool,
) -> (r: CycleMove)
    ensures
        r == spec_next_move(steps_taken, selected, any_rejected, viewport_given),
{
    if steps_taken >= MAX_PERCEPTION_CYCLE_STEPS {
        return CycleMove::StepLimit;
    }
    match selected {
        None => if any_rejected {
            CycleMove::BudgetExhausted
        } else {
            CycleMove::Finish
        },
        Some(PerceptionActionKind::SemanticSnapshot) => CycleMove::SemanticSnapshot,
        Some(PerceptionActionKind::RegionCapture) => if viewport_given {
            CycleMove::RegionCapture
        } else {
            CycleMove::ViewportRequired
        },
        Some(_) => CycleMove::ExecutorUnavailable,
    }
}

pub open spec fn spec_execution_answer(error: FreshSnapshotError) -> (u16, Seq<char>) {
    match error {
        FreshSnapshotError::SessionNotFound => (404, "session_not_found"@),
        FreshSnapshotError::Timeout => (504, "perception_semantic_snapshot_timeout"@),
        FreshSnapshotError::Failed => (502, "perception_semantic_snapshot_failed"@),
        FreshSnapshotError::Invalid => (502, "invalid_perception_semantic_snapshot"@),
    }
}

/// The HTTP status and error code with which a cycle answers a failed snapshot.
pub fn execution_error_answer(error: FreshSnapshotError) -> (r: (u16, &'static str))
    ensures
        (r.0, r.1@) == spec_execution_answer(error),
{
    match error {
        FreshSnapshotError::SessionNotFound => (404, "session_not_found"),
        FreshSnapshotError::Timeout => (504, "perception_semantic_snapshot_timeout"),
        FreshSnapshotError::Failed => (502, "perception_semantic_snapshot_failed"),
        FreshSnapshotError::Invalid => (502, "invalid_perception_semantic_snapshot"),
    }
}

} // verus!
