//! The byte source's "nothing yet, or failed" answer, as Verus sees it.
use nb::Error as NonBlocking;
use vstd::prelude::*;

verus! {

/// Relies on `nb::Error` being the enum `Other(E) | WouldBlock`: its variants
/// are visible to Verus, so the decoder can tell "no byte yet" from a failure.
#[verifier::external_type_specification]
#[verifier::reject_recursive_types(E)]
pub struct ExNonBlocking<E>(NonBlocking<E>);

} // verus!
