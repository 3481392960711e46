//! The single error sum shared by every subsystem of the library.

use vstd::prelude::*;

use crate::ids::Id;

verus! {

/// Every failure the library can surface. Errors are returned by value;
/// no verified function of this crate panics.
#[derive(Debug, Clone, PartialEq)]
pub enum Error {
    /// An explicit lookup of a record that is not present.
    NotFound(Id),
    /// A value expected alongside a key is missing.
    ValueNotFound,
    /// An edge was constructed from a vertex that has no id yet.
    VertexInvalid,
    /// `next` was called on an empty traversal stream.
    EmptyTraversal,
    /// The codec refused a byte string.
    SerializationFailed,
    /// An id could not be decoded from its byte form.
    IdDecodeFailed,
    /// An I/O failure reported by the surrounding program.
    IoError,
    /// The id generator cannot advance without reaching the reserved
    /// maximum ULID.
    UlidOverflow,
    /// A failure inside the store.
    StoreError,
    /// A write did not take effect.
    BadWrite,
    /// Waiting for the write lock timed out; the payload is the wait
    /// in milliseconds.
    TimedOut(u64),
    /// The write lock was already held and no wait was requested.
    Busy,
    /// A `PValue` carried a different variant than the conversion
    /// expected; the payload names the variant found.
    InvalidPValue(String),
    /// A malformed traversal, with the reason.
    BadRequest(&'static str),
}

} // verus!
