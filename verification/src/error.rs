//! The library's error type: one variant per failure family, each
//! carrying a human-readable message.

use vstd::prelude::*;

verus! {

/// A capture-pipeline failure. Connection and protocol failures are fatal
/// for one target; decode failures are recoverable per chunk or rectangle.
#[derive(Debug)]
pub enum Error {
    Io(String),
    Rdp(String),
    Mpsc(String),
    Template(String),
    Vnc(String),
    Conversion(String),
}

impl Error {
    /// The message carried by the error, without its family prefix.
    pub fn message(&self) -> (r: &String)
        ensures
            r@ == self.spec_message(),
    {
        match self {
            Error::Io(m) => m,
            Error::Rdp(m) => m,
            Error::Mpsc(m) => m,
            Error::Template(m) => m,
            Error::Vnc(m) => m,
            Error::Conversion(m) => m,
        }
    }

    pub open spec fn spec_message(&self) -> Seq<char> {
        match self {
            Error::Io(m) => m@,
            Error::Rdp(m) => m@,
            Error::Mpsc(m) => m@,
            Error::Template(m) => m@,
            Error::Vnc(m) => m@,
            Error::Conversion(m) => m@,
        }
    }
}

} // verus!
