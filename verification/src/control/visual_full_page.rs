//! Request checks of the visual capture route.
use vstd::prelude::*;
use crate::control::runtime::{artifact_id_shape, backend_name, spec_valid_artifact_id, spec_valid_backend};

verus! {

pub fn valid_artifact_id(value: &str) -> (r: bool)
    ensures
        r == spec_valid_artifact_id(value@),
{
    artifact_id_shape(value)
}

pub fn valid_backend(value: &str) -> (r: bool)
    ensures
        r == spec_valid_backend(value@),
{
    backend_name(value)
}

} // verus!
