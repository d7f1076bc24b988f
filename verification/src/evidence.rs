//! The kinds of evidence that observations, captures and analyses produce.
use vstd::prelude::*;

verus! {

#[derive(Debug, Clone, Copy, PartialEq, Eq, Structural)]
pub enum EvidenceKind {
    Semantic,
    Layout,
    Visual,
    Console,
    Network,
    Performance,
    Interaction,
    Causal,
    Contract,
    Proof,
    NativeAx,
    AxeRule,
    LocalDeterministic,
    Heuristic,
}

} // verus!
