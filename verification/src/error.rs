//! The library's error type.
use vstd::prelude::*;

use crate::text::{push_decimal, push_str};

verus! {

#[verifier::external_type_specification]
#[verifier::external_body]
pub struct ExIoError(std::io::Error);

#[derive(Debug)]
pub enum Error {
    Io(std::io::Error),
    Parse { line: usize, message: String },
    Validation(String),
    Overlap(String),
    Config(String),
    NotFound,
}

pub type Result<T> = std::result::Result<T, Error>;

impl From<std::io::Error> for Error {
    fn from(e: std::io::Error) -> (r: Error) {
        Error::Io(e)
    }
}

impl vstd::std_specs::convert::FromSpecImpl<std::io::Error> for Error {
    open spec fn obeys_from_spec() -> bool {
        true
    }

    open spec fn from_spec(v: std::io::Error) -> Error {
        Error::Io(v)
    }
}

/// The text that an I/O error displays; it depends on the operating system.
#[verifier::external_body]
pub(crate) fn io_error_text(e: &std::io::Error) -> String {
    e.to_string()
}

/// The text of a parse error.
pub open spec fn parse_error_text(line: nat, message: Seq<char>) -> Seq<char> {
    "parse error at line "@ + crate::text::decimal(line) + ": "@ + message
}

impl Error {
    /// The error as text.
    pub fn message(&self) -> (r: String)
        ensures
            match self {
                Error::Io(_) => r@.take(10) == "IO error: "@,
                Error::Parse { line, message } => r@ == parse_error_text(*line as nat, message@),
                Error::Validation(m) => r@ == "validation error: "@ + m@,
                Error::Overlap(m) => r@ == "overlap detected: "@ + m@,
                Error::Config(m) => r@ == "config error: "@ + m@,
                Error::NotFound => r@ == "entry not found"@,
            },
    {
        let mut out = String::new();
        match self {
            Error::Io(e) => {
                push_str(&mut out, "IO error: ");
                let t = io_error_text(e);
                push_str(&mut out, t.as_str());
                proof {
                    reveal_strlit("IO error: ");
                    assert(out@.take(10) =~= "IO error: "@);
                }
            },
            Error::Parse { line, message } => {
                push_str(&mut out, "parse error at line ");
                push_decimal(&mut out, *line as u64);
                push_str(&mut out, ": ");
                push_str(&mut out, message.as_str());
            },
            Error::Validation(m) => {
                push_str(&mut out, "validation error: ");
                push_str(&mut out, m.as_str());
            },
            Error::Overlap(m) => {
                push_str(&mut out, "overlap detected: ");
                push_str(&mut out, m.as_str());
            },
            Error::Config(m) => {
                push_str(&mut out, "config error: ");
                push_str(&mut out, m.as_str());
            },
            Error::NotFound => {
                push_str(&mut out, "entry not found");
            },
        }
        out
    }
}

} // verus!
