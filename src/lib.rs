//! Parsing of e-reader clipping exports into structured records.
use vstd::prelude::*;

pub mod format;
pub mod laws;
pub mod parser;
pub mod round_trip;
pub mod text;

use crate::parser::{describe_view, ParseError};
use crate::text::{chars_of, push_all, string_of};

verus! {

/// `std::io::Error`, carried unopened inside `KindlrError::Io`.
#[verifier::external_type_specification]
#[verifier::external_body]
pub struct ExIoError(std::io::Error);

/// Why the program could not do its work.
#[derive(Debug)]
pub enum KindlrError {
    Io(std::io::Error),
    Parse(ParseError),
    Config(String),
}

impl From<std::io::Error> for KindlrError {
    fn from(err: std::io::Error) -> (r: KindlrError) {
        KindlrError::Io(err)
    }
}

impl vstd::std_specs::convert::FromSpecImpl<std::io::Error> for KindlrError {
    open spec fn obeys_from_spec() -> bool {
        true
    }

    open spec fn from_spec(err: std::io::Error) -> KindlrError {
        KindlrError::Io(err)
    }
}

impl From<ParseError> for KindlrError {
    fn from(err: ParseError) -> (r: KindlrError) {
        KindlrError::Parse(err)
    }
}

impl vstd::std_specs::convert::FromSpecImpl<ParseError> for KindlrError {
    open spec fn obeys_from_spec() -> bool {
        true
    }

    open spec fn from_spec(err: ParseError) -> KindlrError {
        KindlrError::Parse(err)
    }
}

impl KindlrError {
    /// The message of the error, as it is shown to a reader.
    pub fn describe(&self) -> (r: String)
        ensures
            match self {
                KindlrError::Io(e) => exists|s: String|
                    vstd::string::to_string_from_display_ensures::<std::io::Error>(e, s) && r@
                        == "IO error: "@ + s@,
                KindlrError::Parse(e) => r@ == "Parse error: "@ + describe_view(e@),
                KindlrError::Config(m) => r@ == "Configuration error: "@ + m@,
            },
    {
        let (mut v, tail) = match self {
            KindlrError::Io(e) => (chars_of("IO error: "), e.to_string()),
            KindlrError::Parse(e) => (chars_of("Parse error: "), e.describe()),
            KindlrError::Config(m) => (chars_of("Configuration error: "), m.clone()),
        };
        push_all(&mut v, chars_of(tail.as_str()).as_slice());
        string_of(v.as_slice())
    }
}

/// What the program was asked to do.
pub struct Config {
    pub file_path: String,
}

impl Config {
    /// Reads the configuration from the command line: the program's name, then a file path.
    pub fn build(args: Vec<String>) -> (r: Result<Config, KindlrError>)
        ensures
            match r {
                Ok(c) => args.len() >= 2 && c.file_path@ == args[1]@,
                Err(KindlrError::Config(m)) => args.len() < 2 && m@ == "Missing file path argument"@,
                Err(_) => false,
            },
    {
        if args.len() < 2 {
            return Err(KindlrError::Config(string_of(chars_of("Missing file path argument").as_slice())));
        }
        Ok(Config { file_path: args[1].clone() })
    }
}

} // verus!
