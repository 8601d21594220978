//! The library's error type.

use vstd::prelude::*;
use crate::text::push_str;

verus! {

/// Errors of the library. An I/O error carries the message of the
/// operating-system error.
#[derive(Debug)]
pub enum Error {
    Io(String),
    Db(String),
    Parse(String),
    Invalid(String),
    NotInitialized,
    Other(String),
}

/// The text of an error, as it is displayed.
pub open spec fn error_text(e: Error) -> Seq<char> {
    match e {
        Error::Io(m) => "io: "@ + m@,
        Error::Db(m) => "db: "@ + m@,
        Error::Parse(m) => "parse: "@ + m@,
        Error::Invalid(m) => "invalid: "@ + m@,
        Error::NotInitialized => "not initialized: run `codegraph init` first"@,
        Error::Other(m) => m@,
    }
}

fn prefixed(prefix: &str, m: &String) -> (r: String)
    ensures
        r@ == prefix@ + m@,
{
    let mut s = prefix.to_owned();
    push_str(&mut s, m.as_str());
    s
}

impl Error {
    /// The text of the error, as it is displayed.
    pub fn message(&self) -> (r: String)
        ensures
            r@ == error_text(*self),
    {
        match self {
            Error::Io(m) => prefixed("io: ", m),
            Error::Db(m) => prefixed("db: ", m),
            Error::Parse(m) => prefixed("parse: ", m),
            Error::Invalid(m) => prefixed("invalid: ", m),
            Error::NotInitialized => "not initialized: run `codegraph init` first".to_owned(),
            Error::Other(m) => m.clone(),
        }
    }
}

} // verus!
