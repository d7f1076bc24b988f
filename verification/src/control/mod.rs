pub mod css_trace;
pub mod fresh_snapshot;
pub mod managed_consequential;
pub mod resource_runtime;
pub mod runtime;
pub mod visual_full_page;
pub mod visual_region;
pub mod visual_responsive;
pub mod source_map_runtime;
pub mod vue_snapshot_authority;
pub mod runtime_source_resolution;
pub mod runtime_source_map;
pub mod perception;
pub mod action_correlation;
pub mod network_fault;
pub mod visual_diff;
pub mod surface_owner;
pub mod perception_cycle;
pub mod capture_settle;
pub mod native_executor;
pub mod visual_verify;
pub mod surface_recovery;
pub mod css_source_coordinate;
