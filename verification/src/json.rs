use vstd::prelude::*;

verus! {

/// Whether a character sequence is a well-formed JSON document.
///
/// The predicate is left abstract on purpose: the engine never looks inside a
/// payload, it only needs a fixed yes/no answer per document, and that answer
/// is supplied by `check_json`.
pub uninterp spec fn json_well_formed(s: Seq<char>) -> bool;

/// Relies on serde_json::from_str::<serde::de::IgnoredAny>: it succeeds
/// exactly on well-formed JSON text, and its answer depends on the text alone.
#[verifier::external_body]
pub(crate) fn check_json(s: &str) -> (r: bool)
    ensures
        r == json_well_formed(s@),
{
    serde_json::from_str::<serde::de::IgnoredAny>(s).is_ok()
}

} // verus!
