//! Waiting for a native visual diff.
use vstd::prelude::*;

verus! {

#[derive(Debug, Clone, Copy, PartialEq, Eq, Structural)]
pub enum NativeVisualDiffWaitError {
    Timeout,
}

} // verus!
