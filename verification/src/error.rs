//! What can go wrong, and how it is reported.

use vstd::prelude::*;

verus! {

/// The ways in which a run fails.
#[derive(Debug, PartialEq, Eq)]
pub enum LitError {
    /// The input, as it was given, leads to no file.
    InvalidInput(String),
    /// The path of the input ends in no file name.
    NoFileName,
    /// The path of the input cannot be written as text.
    NameNotText,
    /// The name of the input has no extension.
    NoExtension,
    /// The search path holds no runner.
    CommandNotFound,
    /// The path of the runner cannot be written as text.
    CommandNotText,
    /// The runner failed when it was asked for its version.
    VersionFailed,
    /// What the runner printed as its version is not UTF-8.
    VersionNotText,
    /// The extra options, as they were given, are no list of shell words.
    BadOptions(String),
    /// The runner reported a failure.
    Failed,
}

impl LitError {
    /// The message that reports the failure.
    pub open spec fn message_of(self) -> Seq<char> {
        match self {
            LitError::InvalidInput(input) => "invalid input: "@ + input@,
            LitError::NoFileName => "cannot get input file name"@,
            LitError::NameNotText => "filename contain non-utf8 character"@,
            LitError::NoExtension => "failed to get input extension"@,
            LitError::CommandNotFound => "lit is not found"@,
            LitError::CommandNotText => "lit path contain invalid character"@,
            LitError::VersionFailed => "cannot find lit version"@,
            LitError::VersionNotText => "lit version is not valid utf-8"@,
            LitError::BadOptions(options) => "failed to parse LIT_OPTIONS: "@ + options@,
            LitError::Failed => Seq::empty(),
        }
    }

    /// The message that reports the failure.
    pub fn message(&self) -> (out: String)
        ensures
            out@ == self.message_of(),
    {
        match self {
            LitError::InvalidInput(input) => {
                let mut out = String::from_str("invalid input: ");
                out.append(input.as_str());
                out
            },
            LitError::NoFileName => String::from_str("cannot get input file name"),
            LitError::NameNotText => String::from_str("filename contain non-utf8 character"),
            LitError::NoExtension => String::from_str("failed to get input extension"),
            LitError::CommandNotFound => String::from_str("lit is not found"),
            LitError::CommandNotText => String::from_str("lit path contain invalid character"),
            LitError::VersionFailed => String::from_str("cannot find lit version"),
            LitError::VersionNotText => String::from_str("lit version is not valid utf-8"),
            LitError::BadOptions(options) => {
                let mut out = String::from_str("failed to parse LIT_OPTIONS: ");
                out.append(options.as_str());
                out
            },
            LitError::Failed => String::new(),
        }
    }
}

} // verus!
