//! The types of `nb` and `bare-metal` that the library's signatures carry.
use core::convert::Infallible;
use vstd::prelude::*;

verus! {

/// `nb::Error`: a public enum with the variants `Other(E)` and `WouldBlock`. Its variants are
/// visible to proofs as they are declared; nothing else is claimed of it.
#[verifier::external_type_specification]
#[verifier::reject_recursive_types(E)]
pub struct ExNbError<E>(nb::Error<E>);

/// `bare_metal::CriticalSection`: a token that holds no data. Only its existence is used, so it
/// stays opaque and nothing is claimed of it.
#[verifier::external_type_specification]
#[verifier::external_body]
pub struct ExCriticalSection(bare_metal::CriticalSection);

/// The result of an operation that has to be tried again later.
pub open spec fn would_block<T>() -> nb::Result<T, Infallible> {
    Err(nb::Error::WouldBlock)
}

} // verus!
