pub mod frame;
pub mod types;

use vstd::prelude::*;

verus! {

/// Errors raised while decoding RESP data read from the wire.
#[derive(Debug)]
pub enum RespError {
    /// A bulk string could not be decoded; carries a description.
    InvalidBulkString(String),
    /// A simple string could not be decoded; carries a description.
    InvalidSimpleString(String),
    /// An array header could not be decoded; carries a description.
    InvalidArray(String),
    /// Any other decoding failure, with a description.
    Other(String),
}

impl RespError {
    /// The description carried by this error.
    pub open spec fn message_spec(&self) -> Seq<char> {
        match self {
            RespError::InvalidBulkString(m) => m@,
            RespError::InvalidSimpleString(m) => m@,
            RespError::InvalidArray(m) => m@,
            RespError::Other(m) => m@,
        }
    }

    /// Returns the description carried by this error.
    pub fn message(&self) -> (r: String)
        ensures
            r@ == self.message_spec(),
    {
        match self {
            RespError::InvalidBulkString(m) => m.clone(),
            RespError::InvalidSimpleString(m) => m.clone(),
            RespError::InvalidArray(m) => m.clone(),
            RespError::Other(m) => m.clone(),
        }
    }
}

} // verus!
