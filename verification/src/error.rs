//! Errors produced while loading a document, generating a suite, or checking drift.
use vstd::prelude::*;

use crate::text::{push_all, push_str, string_of};

verus! {

/// Errors produced while loading a document, generating a suite, or checking drift.
#[derive(Debug, Clone, PartialEq, Eq)]
pub enum Error {
    /// The document could not be read; `message` is the I/O error's text.
    Read { path: String, message: String },
    /// A generated file could not be written; `message` is the I/O error's text.
    Write { path: String, message: String },
    /// The document is not valid YAML or JSON, or does not match the OpenAPI subset read.
    Parse { path: String, message: String },
    /// The document parsed, but it is not a supported OpenAPI contract.
    Spec { message: String },
    /// The committed Hurl suite does not match what generation would write.
    Drift { message: String },
}

/// The mathematical form of an [`Error`].
pub enum ErrorV {
    Read { path: Seq<char>, message: Seq<char> },
    Write { path: Seq<char>, message: Seq<char> },
    Parse { path: Seq<char>, message: Seq<char> },
    Spec { message: Seq<char> },
    Drift { message: Seq<char> },
}

impl View for Error {
    type V = ErrorV;

    open spec fn view(&self) -> ErrorV {
        match self {
            Error::Read { path, message } => ErrorV::Read { path: path@, message: message@ },
            Error::Write { path, message } => ErrorV::Write { path: path@, message: message@ },
            Error::Parse { path, message } => ErrorV::Parse { path: path@, message: message@ },
            Error::Spec { message } => ErrorV::Spec { message: message@ },
            Error::Drift { message } => ErrorV::Drift { message: message@ },
        }
    }
}

/// The process exit status for an error: 1 for drift, 2 for everything else.
pub open spec fn exit_status(e: ErrorV) -> int {
    match e {
        ErrorV::Drift { .. } => 1,
        _ => 2,
    }
}

/// The text an error is shown with.
pub open spec fn error_text(e: ErrorV) -> Seq<char> {
    match e {
        ErrorV::Read { path, message } => "could not read '"@ + path + "': "@ + message,
        ErrorV::Write { path, message } => "could not write '"@ + path + "': "@ + message,
        ErrorV::Parse { path, message } => "could not parse '"@ + path + "': "@ + message,
        ErrorV::Spec { message } => message,
        ErrorV::Drift { message } => message,
    }
}

/// A spec error prefixed with where it happened; other errors are left alone.
pub open spec fn with_context(e: ErrorV, context: Seq<char>) -> ErrorV {
    match e {
        ErrorV::Spec { message } => ErrorV::Spec { message: context + ": "@ + message },
        other => other,
    }
}

impl Error {
    /// A spec error with the given message.
    pub fn spec(message: &Vec<char>) -> (r: Error)
        ensures
            r@ == (ErrorV::Spec { message: message@ }),
    {
        Error::Spec { message: string_of(message.as_slice()) }
    }

    /// A drift error with the given message.
    pub fn drift(message: &Vec<char>) -> (r: Error)
        ensures
            r@ == (ErrorV::Drift { message: message@ }),
    {
        Error::Drift { message: string_of(message.as_slice()) }
    }

    /// A parse error for the given path.
    pub fn parse(path: &Vec<char>, message: &Vec<char>) -> (r: Error)
        ensures
            r@ == (ErrorV::Parse { path: path@, message: message@ }),
    {
        Error::Parse { path: string_of(path.as_slice()), message: string_of(message.as_slice()) }
    }

    /// Process exit code: `1` when the suite drifted, `2` for usage and spec errors.
    pub fn exit_code(&self) -> (r: i32)
        ensures
            r == exit_status(self@),
    {
        match self {
            Error::Drift { .. } => 1,
            _ => 2,
        }
    }

    /// Prefixes a spec error's message with `context` and `": "`.
    pub fn in_context(self, context: &Vec<char>) -> (r: Error)
        ensures
            r@ == with_context(self@, context@),
    {
        match self {
            Error::Spec { message } => {
                let mut m: Vec<char> = crate::text::copy_chars(context);
                push_str(&mut m, ": ");
                let rest = crate::text::chars_of(message.as_str());
                push_all(&mut m, &rest);
                Error::Spec { message: string_of(m.as_slice()) }
            },
            other => other,
        }
    }

    /// The text the error is shown with (what `Display` would print).
    pub fn to_message(&self) -> (r: String)
        ensures
            r@ == error_text(self@),
    {
        let mut m: Vec<char> = Vec::new();
        match self {
            Error::Read { path, message } => {
                push_str(&mut m, "could not read '");
                push_str(&mut m, path.as_str());
                push_str(&mut m, "': ");
                push_str(&mut m, message.as_str());
            },
            Error::Write { path, message } => {
                push_str(&mut m, "could not write '");
                push_str(&mut m, path.as_str());
                push_str(&mut m, "': ");
                push_str(&mut m, message.as_str());
            },
            Error::Parse { path, message } => {
                push_str(&mut m, "could not parse '");
                push_str(&mut m, path.as_str());
                push_str(&mut m, "': ");
                push_str(&mut m, message.as_str());
            },
            Error::Spec { message } => push_str(&mut m, message.as_str()),
            Error::Drift { message } => push_str(&mut m, message.as_str()),
        }
        assert(m@ =~= error_text(self@));
        string_of(m.as_slice())
    }
}

} // verus!
