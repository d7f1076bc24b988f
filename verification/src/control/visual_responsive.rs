//! Request checks of the responsive visual route.
use vstd::prelude::*;
use crate::control::runtime::{artifact_id_shape, spec_valid_artifact_id};

verus! {

pub fn valid_artifact_id(value: &str) -> (r: bool)
    ensures
        r == spec_valid_artifact_id(value@),
{
    artifact_id_shape(value)
}

} // verus!
