//! Errors that painting reports.

use vstd::prelude::*;
use std::backtrace::Backtrace;

verus! {

#[verifier::external_type_specification]
#[verifier::external_body]
pub struct ExBacktrace(Backtrace);

/// An error found while painting, with where it was found.
pub enum Error {
    InvalidPath(Backtrace),
}

} // verus!
