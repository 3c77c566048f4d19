pub mod db;

use vstd::prelude::*;

verus! {

/// Errors raised by storage operations.
#[derive(Debug)]
pub enum DBError {
    /// The command expects one stored value variant but the key holds the
    /// other.
    WrongType,
    /// Any other storage failure, with a description.
    Other(String),
}

impl DBError {
    /// The description of this error.
    pub open spec fn message_spec(&self) -> Seq<char> {
        match self {
            DBError::WrongType => "WRONGTYPE Operation against a key holding the wrong kind of value"@,
            DBError::Other(m) => m@,
        }
    }

    /// Returns the description of this error.
    pub fn message(&self) -> (r: String)
        ensures
            r@ == self.message_spec(),
    {
        match self {
            DBError::WrongType => "WRONGTYPE Operation against a key holding the wrong kind of value".to_owned(),
            DBError::Other(m) => m.clone(),
        }
    }
}

} // verus!
