//! The errors that parsing and running a program report.

use vstd::prelude::*;
use crate::text::append;

verus! {

/// An error of the parser or the interpreter.
#[derive(Debug, PartialEq)]
pub enum Error {
    Runtime(String),
    Syntax(String),
    Type(String),
    UnexpectedEOF,
}

/// The mathematical model of an `Error`.
pub enum ErrorModel {
    Runtime(Seq<char>),
    Syntax(Seq<char>),
    Type(Seq<char>),
    UnexpectedEOF,
}

impl Error {
    pub open spec fn model(&self) -> ErrorModel {
        match self {
            Error::Runtime(m) => ErrorModel::Runtime(m@),
            Error::Syntax(m) => ErrorModel::Syntax(m@),
            Error::Type(m) => ErrorModel::Type(m@),
            Error::UnexpectedEOF => ErrorModel::UnexpectedEOF,
        }
    }

    /// The text shown to a user: the kind of error, then its message.
    pub open spec fn text_of(e: ErrorModel) -> Seq<char> {
        match e {
            ErrorModel::Runtime(m) => "Runtime Error: "@ + m,
            ErrorModel::Syntax(m) => "Syntax Error: "@ + m,
            ErrorModel::Type(m) => "Type Error: "@ + m,
            ErrorModel::UnexpectedEOF => "Unexpected end of input"@,
        }
    }

    pub fn render(&self) -> (r: String)
        ensures
            r@ == Self::text_of(self.model()),
    {
        let mut out = String::new();
        match self {
            Error::Runtime(m) => {
                append(&mut out, "Runtime Error: ");
                append(&mut out, m.as_str());
            },
            Error::Syntax(m) => {
                append(&mut out, "Syntax Error: ");
                append(&mut out, m.as_str());
            },
            Error::Type(m) => {
                append(&mut out, "Type Error: ");
                append(&mut out, m.as_str());
            },
            Error::UnexpectedEOF => {
                append(&mut out, "Unexpected end of input");
            },
        }
        out
    }
}

} // verus!
