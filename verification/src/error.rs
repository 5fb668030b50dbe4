//! The failures of this layer, each kept apart from the others.

use vstd::prelude::*;

verus! {

/// Why bytes could not be turned into a value, or a value into bytes.
#[derive(Clone, Copy, Debug, PartialEq, Eq, Structural)]
pub enum SerError {
    /// The bytes end before the record does.
    UnexpectedEof,
    /// The bytes, or the value, do not fit the record's layout.
    CorruptedData,
}

impl SerError {
    /// What `to_string` returns.
    pub open spec fn text(&self) -> Seq<char> {
        match self {
            SerError::UnexpectedEof => "unexpected end of data"@,
            SerError::CorruptedData => "corrupted data"@,
        }
    }

    /// A short description of the failure.
    pub fn to_string(&self) -> (s: String)
        ensures
            s@ == self.text(),
    {
        match self {
            SerError::UnexpectedEof => String::from_str("unexpected end of data"),
            SerError::CorruptedData => String::from_str("corrupted data"),
        }
    }
}

/// Main error type of the store.
#[derive(Debug, PartialEq, Eq)]
pub enum Error {
    /// The key is absent. Expected and recoverable.
    NotFoundErr,
    /// A fault of the storage engine, with the engine's own words.
    RocksDbErr(String),
    /// Stored bytes and record layout disagree.
    SerErr(SerError),
    /// A header was to be indexed whose declared predecessor is not the
    /// header indexed one height below.
    HeightErr,
}

impl Error {
    /// What `to_string` returns.
    pub open spec fn text(&self) -> Seq<char> {
        match self {
            Error::NotFoundErr => "Not Found"@,
            Error::RocksDbErr(s) => "RocksDb Error: "@ + s@,
            Error::SerErr(e) => "Serialization Error: "@ + e.text(),
            Error::HeightErr => "Height Consistency Error"@,
        }
    }

    /// The error in words: its kind, then the detail it carries.
    pub fn to_string(&self) -> (s: String)
        ensures
            s@ == self.text(),
    {
        match self {
            Error::NotFoundErr => String::from_str("Not Found"),
            Error::RocksDbErr(s) => String::from_str("RocksDb Error: ").concat(s.as_str()),
            Error::SerErr(e) => {
                let detail = e.to_string();
                String::from_str("Serialization Error: ").concat(detail.as_str())
            },
            Error::HeightErr => String::from_str("Height Consistency Error"),
        }
    }
}

/// Turns "absent" into `NotFoundErr`, for callers that need the value to be
/// there; a value and a failure pass through.
pub fn option_to_not_found<T>(res: Result<Option<T>, Error>) -> (out: Result<T, Error>)
    ensures
        out == match res {
            Ok(None) => Err(Error::NotFoundErr),
            Ok(Some(o)) => Ok(o),
            Err(e) => Err(e),
        },
{
    match res {
        Ok(None) => Err(Error::NotFoundErr),
        Ok(Some(o)) => Ok(o),
        Err(e) => Err(e),
    }
}

} // verus!
