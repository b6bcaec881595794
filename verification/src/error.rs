use vstd::prelude::*;

verus! {

/// The single failure a caller of the encoder can observe: an opaque,
/// message-carrying error raised by the value's own traversal logic.
/// The shape encoder itself is total and never produces one.
#[derive(Debug)]
pub enum Error {
    Message(String),
}

impl Error {
    /// The message carried by this error, as a sequence of characters.
    pub open spec fn spec_message(&self) -> Seq<char> {
        match self {
            Error::Message(m) => m@,
        }
    }

    /// Builds an error carrying the given human-readable message.
    pub fn custom(msg: String) -> (e: Error)
        ensures
            e.spec_message() == msg@,
    {
        Error::Message(msg)
    }

    /// The human-readable message carried by this error.
    pub fn message(&self) -> (m: &String)
        ensures
            m@ == self.spec_message(),
    {
        match self {
            Error::Message(m) => m,
        }
    }
}

} // verus!
