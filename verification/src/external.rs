//! Declarations of the outside channel types that a query carries: the
//! delivery ends of `tokio`'s oneshot and unbounded mpsc channels. The core
//! stores these and hands them through without calling them, so they stay
//! opaque here; delivery itself is the caller's side of the interface.

use vstd::prelude::*;

verus! {

/// The single-use delivery channel of `tokio` (`sync::oneshot::Sender`),
/// over which a node lookup reports its final record list exactly once.
#[verifier::external_type_specification]
#[verifier::external_body]
#[verifier::reject_recursive_types(T)]
pub struct ExOneshotSender<T>(tokio::sync::oneshot::Sender<T>);

/// The unbounded multi-use delivery channel of `tokio`
/// (`sync::mpsc::UnboundedSender`), over which a value lookup streams any
/// number of results without blocking.
#[verifier::external_type_specification]
#[verifier::external_body]
#[verifier::reject_recursive_types(T)]
pub struct ExUnboundedSender<T>(tokio::sync::mpsc::UnboundedSender<T>);

} // verus!
