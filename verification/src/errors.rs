//! The error vocabulary of the inference core.
//!
//! Every anomaly is returned to the caller and aborts the current round or
//! read-out; nothing is retried or silently recovered.

use vstd::prelude::*;

verus! {

#[derive(Clone, Copy, PartialEq, Eq, Structural, Debug)]
pub enum NodeError {
    /// A prior was set twice.
    AlreadySet,
    /// An operation ran before the node was initialized, or before a prior
    /// was configured.
    NotInitialized,
    /// An inbox or outgoing message contains a value that is not a number;
    /// carries the id of the neighbor the message belongs to.
    InvalidMessage(usize),
    /// A factor node was initialized with a connection list whose length
    /// does not match its coefficient vector.
    WrongConnectionCount,
    /// A message degenerated to all-zero or to values that are not numbers,
    /// so no normalization scale exists.
    NormalizationFailure,
    /// A read-out was requested for a node that has no completed result.
    ResultMissing,
}

} // verus!
