//! Errors of the checks, with an optional message and the text of their source.

use vstd::prelude::*;
use vstd::string::StringExecFns;

verus! {

/// What went wrong.
#[derive(Debug, Clone, Copy, PartialEq, Eq, Structural)]
pub enum ErrorKind {
    InvalidWord,
    IoError,
}

/// How an error kind is shown.
pub open spec fn spec_kind_text(kind: ErrorKind) -> Seq<char> {
    match kind {
        ErrorKind::InvalidWord => "Invalid word"@,
        ErrorKind::IoError => "IO Error"@,
    }
}

impl ErrorKind {
    /// An error of this kind, with no message and no source.
    pub fn into_error(self) -> (r: Error)
        ensures
            r@ == (self, None::<Seq<char>>, None::<Seq<char>>),
    {
        Error { kind: self, msg: None, source: None }
    }

    /// The text that names the kind.
    pub fn text(self) -> (r: &'static str)
        ensures
            r@ == spec_kind_text(self),
    {
        match self {
            ErrorKind::InvalidWord => "Invalid word",
            ErrorKind::IoError => "IO Error",
        }
    }
}

/// An error: its kind, a message, and the text of the error that caused it.
#[derive(Debug)]
pub struct Error {
    kind: ErrorKind,
    msg: Option<String>,
    source: Option<String>,
}

pub open spec fn opt_text(s: Option<String>) -> Option<Seq<char>> {
    match s {
        Some(s) => Some(s@),
        None => None,
    }
}

impl View for Error {
    /// `(kind, message, source)`.
    type V = (ErrorKind, Option<Seq<char>>, Option<Seq<char>>);

    closed spec fn view(&self) -> (ErrorKind, Option<Seq<char>>, Option<Seq<char>>) {
        (self.kind, opt_text(self.msg), opt_text(self.source))
    }
}

/// How an error is shown: its kind, then its message or else its source.
pub open spec fn spec_error_text(e: (ErrorKind, Option<Seq<char>>, Option<Seq<char>>)) -> Seq<char> {
    match e.1 {
        Some(msg) => spec_kind_text(e.0) + ": "@ + msg,
        None => match e.2 {
            Some(source) => spec_kind_text(e.0) + ": "@ + source,
            None => spec_kind_text(e.0),
        },
    }
}

impl Error {
    /// The same error with a message.
    pub fn with_message(self, msg: String) -> (r: Error)
        ensures
            r@ == (self@.0, Some(msg@), self@.2),
    {
        Error { msg: Some(msg), ..self }
    }

    /// The same error, caused by an error shown as `source`.
    pub fn with_source(self, source: String) -> (r: Error)
        ensures
            r@ == (self@.0, self@.1, Some(source@)),
    {
        Error { source: Some(source), ..self }
    }

    pub fn kind(&self) -> (r: ErrorKind)
        ensures
            r == self@.0,
    {
        self.kind
    }

    /// The text of the error.
    pub fn text(&self) -> (r: String)
        ensures
            r@ == spec_error_text(self@),
    {
        let mut r = String::from_str(self.kind.text());
        match &self.msg {
            Some(msg) => {
                r.append(": ");
                r.append(msg.as_str());
            },
            None => match &self.source {
                Some(source) => {
                    r.append(": ");
                    r.append(source.as_str());
                },
                None => {},
            },
        }
        r
    }
}

} // verus!
