use vstd::prelude::*;

verus! {

/// Why a datagram could not be answered. None of these is fatal to a
/// responder: the datagram is dropped and the next one is served.
#[derive(Debug, Clone, Copy, PartialEq, Eq, Structural)]
pub enum Error {
    /// The bytes are structurally invalid: the buffer ends before a header, a
    /// label or a question is complete, or it has no room for the response.
    PackingError,
    /// A label of the question name is not UTF-8 text.
    Utf8Error,
    /// A datagram could not be received or sent.
    IoError,
    /// The query is well formed but asks for something other than a TXT
    /// record of class IN.
    RequestError,
}

impl Error {
    /// True of the errors that report structurally invalid bytes.
    pub open spec fn is_malformed(self) -> bool {
        self == Error::PackingError || self == Error::Utf8Error
    }

    /// The text that `message` returns.
    pub open spec fn message_text(self) -> Seq<char> {
        match self {
            Error::PackingError => "malformed message"@,
            Error::Utf8Error => "label is not valid UTF-8"@,
            Error::IoError => "socket failure"@,
            Error::RequestError => "request error"@,
        }
    }

    /// A short description for a log line.
    pub fn message(&self) -> (text: String)
        ensures
            text@ == self.message_text(),
    {
        match self {
            Error::PackingError => "malformed message".to_owned(),
            Error::Utf8Error => "label is not valid UTF-8".to_owned(),
            Error::IoError => "socket failure".to_owned(),
            Error::RequestError => "request error".to_owned(),
        }
    }
}

} // verus!
