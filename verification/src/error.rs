//! Error types: the transport-level error and the error the command layer
//! reports, with its code and exit code.

use vstd::prelude::*;

use crate::text::{append_str, chars_to_string};

verus! {

/// What can go wrong around the engine; each variant carries its message.
#[derive(Debug)]
pub enum Error {
    Config(String),
    Network(String),
    Api(String),
    Client(String),
    Parse(String),
    Output(String),
    Io(String),
    Serialization(String),
}

/// The message text a variant carries.
pub open spec fn error_message(e: Error) -> Seq<char> {
    match e {
        Error::Config(m) => m@,
        Error::Network(m) => m@,
        Error::Api(m) => m@,
        Error::Client(m) => m@,
        Error::Parse(m) => m@,
        Error::Output(m) => m@,
        Error::Io(m) => m@,
        Error::Serialization(m) => m@,
    }
}

/// The wording each variant is reported with.
pub open spec fn error_prefix(e: Error) -> Seq<char> {
    match e {
        Error::Config(_) => "Configuration error: "@,
        Error::Network(_) => "Network error: "@,
        Error::Api(_) => "API error: "@,
        Error::Client(_) => "Client error: "@,
        Error::Parse(_) => "Parse error: "@,
        Error::Output(_) => "Output error: "@,
        Error::Io(_) => "IO error: "@,
        Error::Serialization(_) => "Serialization error: "@,
    }
}

impl Error {
    /// The full report text: the variant's wording, then its message.
    pub fn describe(&self) -> (r: String)
        ensures
            r@ == error_prefix(*self) + error_message(*self),
    {
        let mut out: Vec<char> = Vec::new();
        match self {
            Error::Config(m) => {
                append_str(&mut out, "Configuration error: ");
                append_str(&mut out, m.as_str());
            },
            Error::Network(m) => {
                append_str(&mut out, "Network error: ");
                append_str(&mut out, m.as_str());
            },
            Error::Api(m) => {
                append_str(&mut out, "API error: ");
                append_str(&mut out, m.as_str());
            },
            Error::Client(m) => {
                append_str(&mut out, "Client error: ");
                append_str(&mut out, m.as_str());
            },
            Error::Parse(m) => {
                append_str(&mut out, "Parse error: ");
                append_str(&mut out, m.as_str());
            },
            Error::Output(m) => {
                append_str(&mut out, "Output error: ");
                append_str(&mut out, m.as_str());
            },
            Error::Io(m) => {
                append_str(&mut out, "IO error: ");
                append_str(&mut out, m.as_str());
            },
            Error::Serialization(m) => {
                append_str(&mut out, "Serialization error: ");
                append_str(&mut out, m.as_str());
            },
        }
        chars_to_string(&out)
    }
}

/// The error a command reports: a message, a stable code, and the process
/// exit code to use.
#[derive(Debug)]
pub struct CliError {
    pub message: String,
    pub code: String,
    pub exit_code: i32,
}

impl CliError {
    /// A general command error: code `CLI_ERROR`, exit code 1.
    pub fn new(message: String) -> (r: CliError)
        ensures
            r.message@ == message@,
            r.code@ == "CLI_ERROR"@,
            r.exit_code == 1,
    {
        CliError { message, code: lit_string("CLI_ERROR"), exit_code: 1 }
    }

    /// A configuration error: code `CLI_CONFIG`, exit code 2.
    pub fn config(message: String) -> (r: CliError)
        ensures
            r.message@ == message@,
            r.code@ == "CLI_CONFIG"@,
            r.exit_code == 2,
    {
        CliError { message, code: lit_string("CLI_CONFIG"), exit_code: 2 }
    }

    /// A connection error: code `CONNECTION_ERROR`, exit code 3.
    pub fn network(message: String) -> (r: CliError)
        ensures
            r.message@ == message@,
            r.code@ == "CONNECTION_ERROR"@,
            r.exit_code == 3,
    {
        CliError { message, code: lit_string("CONNECTION_ERROR"), exit_code: 3 }
    }

    /// The command error for a transport error: configuration and network
    /// errors keep their kind, everything else becomes a general error
    /// carrying the variant's full report text.
    pub fn from_error(err: Error) -> (r: CliError)
        ensures
            match err {
                Error::Config(m) => r.message@ == m@ && r.code@ == "CLI_CONFIG"@ && r.exit_code
                    == 2,
                Error::Network(m) => r.message@ == m@ && r.code@ == "CONNECTION_ERROR"@
                    && r.exit_code == 3,
                _ => r.message@ == error_prefix(err) + error_message(err) && r.code@
                    == "CLI_ERROR"@ && r.exit_code == 1,
            },
    {
        match err {
            Error::Config(m) => CliError::config(m),
            Error::Network(m) => CliError::network(m),
            _ => CliError::new(err.describe()),
        }
    }
}

/// An owned copy of a string literal.
fn lit_string(s: &str) -> (r: String)
    ensures
        r@ == s@,
{
    s.to_owned()
}

} // verus!
