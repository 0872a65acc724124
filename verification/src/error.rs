//! Failures surfaced to a value-lookup caller.

use vstd::prelude::*;

verus! {

/// A failure delivered over a value-lookup callback channel. The query keeps
/// running for other peers after such a failure is sent.
#[derive(Clone, Copy, PartialEq, Eq, Debug)]
pub enum FindValueError {
    /// No value is stored under the requested key.
    NotFound,
    /// A response carrying the value could not be decoded upstream.
    InvalidValue,
}

} // verus!
