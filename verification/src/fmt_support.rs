//! Declarations that let diagnostic formatting be written for library types.
use vstd::prelude::*;

verus! {

/// The standard formatter, carried opaquely through `Debug` implementations.
#[verifier::external_type_specification]
#[verifier::external_body]
pub struct ExFormatter<'a>(core::fmt::Formatter<'a>);

/// The standard formatting error, carried opaquely.
#[verifier::external_type_specification]
#[verifier::external_body]
pub struct ExFmtError(core::fmt::Error);

} // verus!
