//! How a visual diff relates a capture to its baseline.
use vstd::prelude::*;

verus! {

#[derive(Debug, Clone, Copy, PartialEq, Eq, Structural)]
pub enum VisualDiffMode {
    Unchanged,
    Regions,
    Viewport,
    BaselineReset,
}

impl VisualDiffMode {
    /// The mode's wire name.
    pub fn as_str(self) -> (r: &'static str)
        ensures
            r@ == match self {
                VisualDiffMode::Unchanged => "unchanged"@,
                VisualDiffMode::Regions => "regions"@,
                VisualDiffMode::Viewport => "viewport"@,
                VisualDiffMode::BaselineReset => "baseline_reset"@,
            },
    {
        match self {
            VisualDiffMode::Unchanged => "unchanged",
            VisualDiffMode::Regions => "regions",
            VisualDiffMode::Viewport => "viewport",
            VisualDiffMode::BaselineReset => "baseline_reset",
        }
    }

    /// Whether the capture can be compared with the baseline: every mode but a reset.
    pub fn baseline_comparable(self) -> (r: bool)
        ensures
            r == (self != VisualDiffMode::BaselineReset),
    {
        self != VisualDiffMode::BaselineReset
    }

    /// The kind of capture the diff's parent must be: none when unchanged, a region
    /// for regions, else the viewport.
    pub fn expected_parent_target(self) -> (r: Option<&'static str>)
        ensures
            match self {
                VisualDiffMode::Unchanged => r is None,
                VisualDiffMode::Regions => r matches Some(s) && s@ == "region"@,
                _ => r matches Some(s) && s@ == "viewport"@,
            },
    {
        match self {
            VisualDiffMode::Unchanged => None,
            VisualDiffMode::Regions => Some("region"),
            VisualDiffMode::Viewport => Some("viewport"),
            VisualDiffMode::BaselineReset => Some("viewport"),
        }
    }
}

} // verus!
