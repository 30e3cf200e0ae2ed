use vstd::prelude::*;

verus! {

/// Relies on uuid::Uuid::new_v4: a randomly generated 128-bit identifier.
/// Nothing is assumed about the value; callers detect collisions explicitly.
#[verifier::external_body]
pub(crate) fn random_id() -> u128 {
    uuid::Uuid::new_v4().as_u128()
}

} // verus!
