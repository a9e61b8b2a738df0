//! The test runner as a command: where it is, how its version is read, and
//! with which arguments it is run on a scratch directory.
//!
//! Nothing here starts a process. A caller searches for the runner, runs what
//! an `Invocation` says, and hands back what came of it.

use crate::error::LitError;
use crate::text::{strip_prefixes, trim, trimmed, views, without_prefixes};
use vstd::prelude::*;
use vstd::utf8::{decode_utf8, encode_utf8, encode_utf8_decode_utf8, valid_utf8};

verus! {

/// The name under which the runner is searched for.
pub const COMMAND_NAME: &'static str = "lit";

/// The name of the environment variable that holds the extra options.
pub const OPTIONS_VARIABLE: &'static str = "LIT_OPTIONS";

/// The argument that asks the runner for its version.
pub const VERSION_FLAG: &'static str = "--version";

/// The argument that makes the runner brief on tests that pass and wordy on
/// those that fail.
pub const RUN_FLAGS: &'static str = "-sv";

/// What a search for a file has found.
#[derive(Debug, PartialEq, Eq)]
pub enum Lookup {
    /// There is no such file.
    Missing,
    /// There is one, and its path cannot be written as text.
    NotText,
    /// There is one, at this path.
    Found(String),
}

/// What a process has left behind: whether it reported success, and what it
/// wrote to its standard output.
#[derive(Debug, PartialEq, Eq)]
pub struct Output {
    pub success: bool,
    pub stdout: Vec<u8>,
}

/// A command to run: the program, and its arguments in order.
#[derive(Debug, PartialEq, Eq)]
pub struct Invocation {
    pub program: String,
    pub args: Vec<String>,
}

/// The runner, found.
#[derive(Debug, PartialEq, Eq)]
pub struct LitCmd {
    cmdpath: String,
}

impl View for LitCmd {
    type V = Seq<char>;

    /// The path of the runner.
    closed spec fn view(&self) -> Seq<char> {
        self.cmdpath@
    }
}

/// The words into which `shlex::split` splits `text` by the rules of a POSIX
/// shell, or `None` where it finds `text` erroneous. Nothing more is known of
/// it here.
pub uninterp spec fn shell_words(text: Seq<char>) -> Option<Seq<Seq<char>>>;

/// The version in what the runner prints when asked for it: the text without
/// the name of the runner it starts with, and without the white space around
/// what is left.
pub open spec fn version_of(printed: Seq<char>) -> Seq<char> {
    trimmed(without_prefixes(printed, COMMAND_NAME@))
}

/// The arguments for a run on the directory `testdir`: the flags, the
/// directory, and then `extra`.
pub open spec fn arguments_of(testdir: Seq<char>, extra: Seq<Seq<char>>) -> Seq<Seq<char>> {
    seq![RUN_FLAGS@, testdir] + extra
}

/// The options that count when `given` are set: none stands for the empty
/// text.
pub open spec fn options_of(given: Option<String>) -> Seq<char> {
    match given {
        Some(text) => text@,
        None => Seq::empty(),
    }
}

/// Calls `shlex::split`, which splits `text` into words by the rules of a
/// POSIX shell and gives `None` where `text` ends inside a quotation or
/// behind a lone backslash. The contract says nothing of the words: it gives
/// the result its name, `shell_words`, on the ground that `shlex::split`
/// reads nothing but `text`. This is not proved here.
#[verifier::external_body]
fn split(text: &str) -> (out: Option<Vec<String>>)
    ensures
        match out {
            Some(words) => shell_words(text@) == Some(views(words@)),
            None => shell_words(text@) is None,
        },
{
    shlex::split(text)
}

/// Calls `String::from_utf8`, which gives the string whose bytes are `bytes`
/// where `bytes` are valid UTF-8, and an error where they are not. That it
/// does so is taken from the documentation of the standard library and is
/// not proved here.
#[verifier::external_body]
fn decode(bytes: Vec<u8>) -> (out: Option<String>)
    ensures
        out is Some <==> valid_utf8(bytes@),
        out matches Some(text) ==> encode_utf8(text@) == bytes@,
{
    String::from_utf8(bytes).ok()
}

impl Invocation {
    /// What a run of this command comes to, once it has ended: a failure
    /// unless the process reported success.
    pub fn finish(&self, success: bool) -> (out: Result<(), LitError>)
        ensures
            success ==> out is Ok,
            !success ==> out matches Err(LitError::Failed),
    {
        if success {
            Ok(())
        } else {
            Err(LitError::Failed)
        }
    }
}

impl LitCmd {
    /// The runner that a search on the search path has found.
    pub fn new(found: Lookup) -> (out: Result<LitCmd, LitError>)
        ensures
            match found {
                Lookup::Found(path) => out matches Ok(cmd) && cmd@ == path@,
                Lookup::NotText => out matches Err(LitError::CommandNotText),
                Lookup::Missing => out matches Err(LitError::CommandNotFound),
            },
    {
        match found {
            Lookup::Found(path) => Ok(LitCmd { cmdpath: path }),
            Lookup::NotText => Err(LitError::CommandNotText),
            Lookup::Missing => Err(LitError::CommandNotFound),
        }
    }

    /// The path of the runner.
    pub fn path(&self) -> (out: &str)
        ensures
            out@ == self@,
    {
        self.cmdpath.as_str()
    }

    /// The command that asks the runner for its version.
    pub fn version_query(&self) -> (out: Invocation)
        ensures
            out.program@ == self@,
            views(out.args@) == seq![VERSION_FLAG@],
    {
        let mut args: Vec<String> = Vec::new();
        args.push(String::from_str(VERSION_FLAG));
        assert(views(args@) =~= seq![VERSION_FLAG@]);
        Invocation { program: self.cmdpath.clone(), args }
    }

    /// The version of the runner, read from what the version query left
    /// behind.
    pub fn version(&self, output: Output) -> (out: Result<String, LitError>)
        ensures
            match out {
                Ok(version) => {
                    &&& output.success
                    &&& valid_utf8(output.stdout@)
                    &&& version@ == version_of(decode_utf8(output.stdout@))
                },
                Err(LitError::VersionFailed) => !output.success,
                Err(LitError::VersionNotText) => output.success && !valid_utf8(output.stdout@),
                Err(_) => false,
            },
    {
        if !output.success {
            return Err(LitError::VersionFailed);
        }
        let ghost bytes = output.stdout@;
        match decode(output.stdout) {
            None => Err(LitError::VersionNotText),
            Some(printed) => {
                proof {
                    encode_utf8_decode_utf8(printed@);
                }
                let rest = strip_prefixes(printed.as_str(), COMMAND_NAME);
                Ok(trim(rest.as_str()))
            },
        }
    }

    /// The command that runs the tests of the directory `testdir`, once the
    /// extra options `options` are split into `words`: there is none where
    /// the split has failed.
    pub fn invocation(&self, testdir: &str, options: &str, words: Option<Vec<String>>) -> (out:
        Result<Invocation, LitError>)
        ensures
            match words {
                Some(extra) => {
                    &&& out matches Ok(command)
                    &&& command.program@ == self@
                    &&& views(command.args@) == arguments_of(testdir@, views(extra@))
                },
                None => out matches Err(LitError::BadOptions(given)) && given@ == options@,
            },
    {
        match words {
            None => Err(LitError::BadOptions(String::from_str(options))),
            Some(extra) => {
                let mut args: Vec<String> = Vec::new();
                args.push(String::from_str(RUN_FLAGS));
                args.push(String::from_str(testdir));
                let mut k: usize = 0;
                while k < extra.len()
                    invariant
                        k <= extra.len(),
                        views(args@) == arguments_of(testdir@, views(extra@).take(k as int)),
                    decreases extra.len() - k,
                {
                    let ghost before = args@;
                    args.push(extra[k].clone());
                    k += 1;
                    assert(views(args@) =~= views(before).push(extra@[k - 1]@));
                    assert(views(extra@).take(k as int) =~= views(extra@).take(k - 1).push(
                        extra@[k - 1]@,
                    ));
                }
                assert(views(extra@).take(extra@.len() as int) =~= views(extra@));
                Ok(Invocation { program: self.cmdpath.clone(), args })
            },
        }
    }

    /// The command that runs the tests of the directory `testdir`, with the
    /// words of the extra options `options` behind the directory. Options
    /// that are not set count as empty.
    pub fn run(&self, testdir: &str, options: Option<String>) -> (out: Result<
        Invocation,
        LitError,
    >)
        ensures
            match shell_words(options_of(options)) {
                Some(extra) => {
                    &&& out matches Ok(command)
                    &&& command.program@ == self@
                    &&& views(command.args@) == arguments_of(testdir@, extra)
                },
                None => out matches Err(LitError::BadOptions(given)) && given@ == options_of(
                    options,
                ),
            },
    {
        let given = match options {
            Some(text) => text,
            None => String::new(),
        };
        let words = split(given.as_str());
        self.invocation(testdir, given.as_str(), words)
    }
}

} // verus!
