use vstd::prelude::*;

verus! {

/// The single error surface of every fallible operation of the library.
#[derive(Debug, Clone, PartialEq, Eq)]
pub enum TransformationError {
    /// The payload could not be encoded.
    SerializationFailed(String),
    /// Stored bytes could not be decoded into the expected shape.
    DeserializationFailed(String),
    /// The key-value store reported a failure.
    DatabaseError(String),
    /// No value is stored under the key.
    NotFound(String),
    /// A record did not have the shape a rule expects.
    InvalidType,
    /// A record lacked a value a rule depends on.
    InvalidValue,
    /// A failure defined by a caller's rule.
    CustomError(String),
}

/// Lets a value be changed in place by a fallible step, handing the value
/// back for further steps when the step succeeds.
pub trait Applicable {
    fn apply<F>(&mut self, func: F) -> Result<&mut Self, TransformationError> where
        F: FnOnce(&mut Self) -> Result<(), TransformationError>,
    ;
}

} // verus!
