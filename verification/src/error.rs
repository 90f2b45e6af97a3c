//! The error type shared by the codecs and the session logic.

use vstd::prelude::*;
use vstd::string::*;

verus! {

/// Everything that can go wrong between two hydr peers.
#[derive(Debug)]
pub enum Error {
    /// The transport or the operating system failed; the text is its own description.
    Io(String),
    UnexpectedEof,
    InvalidData(&'static str),
    Message(String),
    AuthFailed,
    StreamClosed,
    Unsupported,
}

/// An error with its texts as sequences of characters.
#[verifier::ext_equal]
pub enum ErrorView {
    Io(Seq<char>),
    UnexpectedEof,
    InvalidData(Seq<char>),
    Message(Seq<char>),
    AuthFailed,
    StreamClosed,
    Unsupported,
}

pub type Result<T> = core::result::Result<T, Error>;

impl View for Error {
    type V = ErrorView;

    open spec fn view(&self) -> ErrorView {
        match self {
            Error::Io(e) => ErrorView::Io(e@),
            Error::UnexpectedEof => ErrorView::UnexpectedEof,
            Error::InvalidData(msg) => ErrorView::InvalidData(msg@),
            Error::Message(msg) => ErrorView::Message(msg@),
            Error::AuthFailed => ErrorView::AuthFailed,
            Error::StreamClosed => ErrorView::StreamClosed,
            Error::Unsupported => ErrorView::Unsupported,
        }
    }
}

impl ErrorView {
    /// The text shown to a user.
    pub open spec fn text(self) -> Seq<char> {
        match self {
            ErrorView::Io(e) => "io error: "@ + e,
            ErrorView::UnexpectedEof => "unexpected end of buffer"@,
            ErrorView::InvalidData(msg) => "invalid data: "@ + msg,
            ErrorView::Message(msg) => msg,
            ErrorView::AuthFailed => "authentication failed"@,
            ErrorView::StreamClosed => "stream closed"@,
            ErrorView::Unsupported => "unsupported"@,
        }
    }
}

/// An error is seen as its kind, with what it carries.
pub proof fn law_error_is_seen_as_it_is(e: Error)
    ensures
        e matches Error::Io(s) ==> e@ == ErrorView::Io(s@),
        e matches Error::InvalidData(s) ==> e@ == ErrorView::InvalidData(s@),
        e matches Error::Message(s) ==> e@ == ErrorView::Message(s@),
        e is UnexpectedEof ==> e@ == ErrorView::UnexpectedEof,
        e is AuthFailed ==> e@ == ErrorView::AuthFailed,
        e is StreamClosed ==> e@ == ErrorView::StreamClosed,
        e is Unsupported ==> e@ == ErrorView::Unsupported,
{
}

/// The text of an error ends with what it carries, and each kind of error begins its text in its
/// own way.
pub proof fn law_error_texts(e: Seq<char>)
    ensures
        ErrorView::Message(e).text() == e,
        ErrorView::Io(e).text() == "io error: "@ + e,
        ErrorView::InvalidData(e).text() == "invalid data: "@ + e,
        ErrorView::UnexpectedEof.text() == "unexpected end of buffer"@,
        ErrorView::AuthFailed.text() == "authentication failed"@,
        ErrorView::StreamClosed.text() == "stream closed"@,
        ErrorView::Unsupported.text() == "unsupported"@,
{
}

impl Error {
    /// Renders the error for a user.
    pub fn to_text(&self) -> (s: String)
        ensures
            s@ == self@.text(),
    {
        match self {
            Error::Io(e) => {
                let mut s = "io error: ".to_owned();
                s.append(e.as_str());
                s
            },
            Error::UnexpectedEof => "unexpected end of buffer".to_owned(),
            Error::InvalidData(msg) => {
                let mut s = "invalid data: ".to_owned();
                s.append(msg);
                s
            },
            Error::Message(msg) => msg.clone(),
            Error::AuthFailed => "authentication failed".to_owned(),
            Error::StreamClosed => "stream closed".to_owned(),
            Error::Unsupported => "unsupported".to_owned(),
        }
    }
}

} // verus!
