use vstd::prelude::*;

verus! {

/// The kinds of failure reported by the security state.
#[derive(Clone, Copy, Debug, PartialEq, Eq, Structural)]
pub enum SecurityStateError {
    /// An entry point that must run on the initiating thread ran elsewhere.
    WrongThread,
    /// The store was used before it could be opened.
    NotInitialized,
    /// A stored record or value failed validation.
    MalformedRecord,
    /// A stored hash list failed validation.
    MalformedList,
    /// Filter bytes did not parse as a CRLite filter.
    InvalidFilter,
    /// A field is longer than its 16-bit length allows.
    TooLong,
    /// A filesystem or key-value store failure.
    Io,
    /// The clock reads before the Unix epoch.
    Clock,
    /// An inconsistent internal state.
    Internal,
}

} // verus!
