//! What can go wrong in a conversion.

use vstd::prelude::*;

use crate::text::{concat, concat3, concat4, decimal, number, owned};

verus! {

#[derive(Debug)]
pub enum Error {
    /// A file or stream could not be read or written.
    Io(String),
    /// The request itself makes no sense.
    Config(String),
    /// The input is not what its format says.
    Parse { format: String, message: String },
    /// The input format could not be told.
    Detect(String),
    /// The conversion lost something and the caller does not accept that.
    Strict { count: usize },
}

/// The content of an [`Error`].
pub enum ErrorView {
    Io(Seq<char>),
    Config(Seq<char>),
    Parse { format: Seq<char>, message: Seq<char> },
    Detect(Seq<char>),
    Strict { count: nat },
}

impl DeepView for Error {
    type V = ErrorView;

    open spec fn deep_view(&self) -> ErrorView {
        match *self {
            Error::Io(m) => ErrorView::Io(m@),
            Error::Config(m) => ErrorView::Config(m@),
            Error::Parse { format, message } => ErrorView::Parse {
                format: format@,
                message: message@,
            },
            Error::Detect(m) => ErrorView::Detect(m@),
            Error::Strict { count } => ErrorView::Strict { count: count as nat },
        }
    }
}

pub open spec fn parse_error(format: Seq<char>, message: Seq<char>) -> ErrorView {
    ErrorView::Parse { format, message }
}

impl ErrorView {
    /// The text shown to the user.
    pub open spec fn text(self) -> Seq<char> {
        match self {
            ErrorView::Io(m) => "I/O error: "@ + m,
            ErrorView::Config(m) => m,
            ErrorView::Parse { format, message } => "cannot parse "@ + format + " input: "@
                + message,
            ErrorView::Detect(m) => "cannot detect the input format: "@ + m,
            ErrorView::Strict { count } => "conversion is lossy and --strict is set ("@ + decimal(
                count,
            ) + " warning(s), see above)"@,
        }
    }
}

impl Error {
    pub fn config(msg: &str) -> (r: Error)
        ensures
            r.deep_view() == ErrorView::Config(msg@),
    {
        Error::Config(owned(msg))
    }

    pub fn parse(format: &str, msg: &str) -> (r: Error)
        ensures
            r.deep_view() == parse_error(format@, msg@),
    {
        Error::Parse { format: owned(format), message: owned(msg) }
    }

    /// The text shown to the user.
    pub fn message(&self) -> (r: String)
        ensures
            r@ == self.deep_view().text(),
    {
        match self {
            Error::Io(m) => concat("I/O error: ", m.as_str()),
            Error::Config(m) => owned(m.as_str()),
            Error::Parse { format, message } => concat4(
                "cannot parse ",
                format.as_str(),
                " input: ",
                message.as_str(),
            ),
            Error::Detect(m) => concat("cannot detect the input format: ", m.as_str()),
            Error::Strict { count } => concat3(
                "conversion is lossy and --strict is set (",
                number(*count as u64).as_str(),
                " warning(s), see above)",
            ),
        }
    }
}

} // verus!
