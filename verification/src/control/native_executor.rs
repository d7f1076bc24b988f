//! Waiting for the native executor.
use vstd::prelude::*;

verus! {

#[derive(Debug, Clone, Copy, PartialEq, Eq, Structural)]
pub enum NativeExecutorWaitError {
    Timeout,
}

} // verus!
