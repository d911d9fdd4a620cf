use vstd::prelude::*;

verus! {

/// The error kinds that core operations report. Operations return these
/// instead of aborting; the caller decides how to surface them.
#[derive(Clone, Copy, Debug, PartialEq, Eq, Structural)]
pub enum TwigError {
    /// Identifier resolution or task lookup found nothing.
    NotFound,
    /// A malformed identifier, date or effort string.
    InvalidFormat,
    /// A file could not be read or written.
    IoError,
    /// Persisted content could not be parsed.
    ParseError,
    /// A collection could not be serialized.
    SerializationError,
}

} // verus!
