//! A session: one input file, its scratch directory, the runner, and whether
//! the directory is kept.
//!
//! A session is planned from text alone. The plan names the scratch
//! directory, holds the configuration for it, and gives the steps that fill
//! it, the commands to run and the cleanup at the end. Nothing here touches
//! a file or starts a process.

use crate::command::{
    arguments_of, options_of, shell_words, version_of, Invocation, LitCmd, Lookup, Output,
};
use crate::config::{
    lemma_template_rendered, render, rendered, substitution_block_of, suffix, suffix_line_of,
    suffix_of, template, template_of, CONFIG_NAME, TEMPLATE_HEAD,
};
use crate::defines::{collected, Defines, Entry};
use crate::error::LitError;
use crate::path::{
    extension, extension_of, file_name, file_name_of, is_dots, join, joined_path,
    lemma_file_name_is_one_segment, lemma_join_restores, lemma_split_restores, parent,
    parent_of, SEPARATOR,
};
use crate::scratch::{
    actions_of, after, after_all, after_cleanup, Action, Cleanup, Disposal, Files, Step,
};
use crate::text::{last_index, views};
use vstd::prelude::*;
use vstd::utf8::{decode_utf8, encode_utf8, valid_utf8};

verus! {

/// What the name of the scratch directory adds to the name of the input.
pub const SCRATCH_SUFFIX: &'static str = ".litfile";

/// What a session holds, as text.
pub struct Session {
    /// The path of the scratch directory.
    pub testdir: Seq<char>,
    /// The file name of the input.
    pub name: Seq<char>,
    /// The configuration for the scratch directory.
    pub config: Seq<char>,
    /// The path of the runner.
    pub command: Seq<char>,
    /// Whether the scratch directory is kept at the end.
    pub debug: bool,
}

/// The scratch directory for the input at `input`: beside the input, under
/// the input's name with the scratch suffix behind it.
pub open spec fn scratch_dir_of(input: Seq<char>, name: Seq<char>) -> Seq<char> {
    joined_path(parent_of(input), name + SCRATCH_SUFFIX@)
}

/// The substitutions that count when `defines` are given: none stands for
/// the empty set.
pub open spec fn entries_in(defines: Option<Defines>) -> Seq<Entry> {
    match defines {
        Some(set) => set@,
        None => Seq::empty(),
    }
}

/// Why no session can be planned for the input at `input` with the runner
/// that `found` tells of, if there is a reason: the path ends in no file
/// name; or the name has no extension; or there is no runner.
pub open spec fn refusal_of(input: Seq<char>, found: Lookup) -> Option<LitError> {
    match file_name_of(input) {
        None => Some(LitError::NoFileName),
        Some(name) => if extension_of(name) is None {
            Some(LitError::NoExtension)
        } else {
            match found {
                Lookup::Missing => Some(LitError::CommandNotFound),
                Lookup::NotText => Some(LitError::CommandNotText),
                Lookup::Found(_) => None,
            }
        },
    }
}

/// The session for the input at `input`, where nothing refuses it.
pub open spec fn planned(
    input: Seq<char>,
    entries: Seq<Entry>,
    debug: bool,
    command: Seq<char>,
) -> Session
    recommends
        file_name_of(input) is Some,
        extension_of(file_name_of(input)->0) is Some,
{
    let name = file_name_of(input)->0;
    Session {
        testdir: scratch_dir_of(input, name),
        name,
        config: rendered(template_of(), suffix_of(extension_of(name)->0), entries),
        command,
        debug,
    }
}

impl Session {
    /// The path of the configuration file.
    pub open spec fn config_path(self) -> Seq<char> {
        joined_path(self.testdir, CONFIG_NAME@)
    }

    /// The path of the copy of the input.
    pub open spec fn copy_path(self) -> Seq<char> {
        joined_path(self.testdir, self.name)
    }

    /// The steps that fill the scratch directory, where `content` are the
    /// bytes of the input: the directory is removed if it `exists`, then
    /// created, then the configuration and the copy of the input are written
    /// into it.
    pub open spec fn setup(self, exists: bool, content: Seq<u8>) -> Seq<Action> {
        let fill = seq![
            Action::CreateDir(self.testdir),
            Action::WriteFile(self.config_path(), encode_utf8(self.config)),
            Action::WriteFile(self.copy_path(), content),
        ];
        if exists {
            seq![Action::RemoveDir(self.testdir)] + fill
        } else {
            fill
        }
    }

    /// The cleanup at the end, where the scratch directory `exists` or not:
    /// it is removed, unless the session keeps it, and then a notice says
    /// where it is.
    pub open spec fn cleanup(self, exists: bool) -> Disposal {
        if !exists {
            Disposal::Nothing
        } else if self.debug {
            Disposal::Keep("debug files can be found at: "@ + self.testdir)
        } else {
            Disposal::Remove(self.testdir)
        }
    }
}

/// The scratch directory is named as the input is, with the scratch suffix
/// behind it. This is so where the separator before the file name of the
/// input is a single one.
pub proof fn lemma_scratch_dir_extends_input(input: Seq<char>)
    requires
        file_name_of(input) is Some,
        last_index(input, SEPARATOR) > 0 ==> input[last_index(input, SEPARATOR) - 1] != SEPARATOR,
    ensures
        scratch_dir_of(input, file_name_of(input)->0) == input + SCRATCH_SUFFIX@,
{
    lemma_join_restores(input);
    let name = file_name_of(input)->0;
    assert(joined_path(parent_of(input), name + SCRATCH_SUFFIX@) =~= joined_path(
        parent_of(input),
        name,
    ) + SCRATCH_SUFFIX@);
}

/// The configuration of a session is the head of the built-in template, the
/// line that names the suffix of the input, an empty line, the line of each
/// substitution, and a line break. This is so for an input whose extension
/// holds no `#`.
pub proof fn lemma_config_names_suffix(
    input: Seq<char>,
    entries: Seq<Entry>,
    debug: bool,
    found: Lookup,
)
    requires
        refusal_of(input, found) is None,
        !extension_of(file_name_of(input)->0)->0.contains('#'),
    ensures
        planned(input, entries, debug, found->Found_0@).config == TEMPLATE_HEAD@ + suffix_line_of(
            suffix_of(extension_of(file_name_of(input)->0)->0),
        ) + "\n\n"@ + substitution_block_of(entries) + "\n"@,
{
    reveal_strlit(".");
    let extension = extension_of(file_name_of(input)->0)->0;
    let suffix = suffix_of(extension);
    assert forall|i: int| 0 <= i < suffix.len() implies #[trigger] suffix[i] != '#' by {
        if i > 0 {
            assert(extension.contains(extension[i - 1]));
        }
    }
    lemma_template_rendered(suffix, entries);
}

/// What the steps of a session's setup make of its scratch directory,
/// whatever it was before: it is there and holds the configuration under its
/// name and the copy of the input under the input's name, and nothing else.
proof fn lemma_setup_result(
    input: Seq<char>,
    entries: Seq<Entry>,
    debug: bool,
    command: Seq<char>,
    exists: bool,
    content: Seq<u8>,
    before: Option<Files>,
)
    requires
        file_name_of(input) is Some,
        before is Some ==> exists,
    ensures
        ({
            let session = planned(input, entries, debug, command);
            after_all(before, session.testdir, session.setup(exists, content)) == Some(
                Map::<Seq<char>, Seq<u8>>::empty().insert(
                    CONFIG_NAME@,
                    encode_utf8(session.config),
                ).insert(session.name, content),
            )
        }),
{
    reveal_strlit("lit.cfg.py");
    reveal_strlit(".litfile");
    let session = planned(input, entries, debug, command);
    let dir = session.testdir;
    let name = session.name;
    let scratch = name + SCRATCH_SUFFIX@;
    lemma_file_name_is_one_segment(input);
    assert(scratch.last() == 'e');
    assert(dir.len() > 0 && dir.last() == 'e') by {
        assert(dir.last() == scratch.last());
    }
    lemma_split_restores(dir, CONFIG_NAME@);
    lemma_split_restores(dir, name);
    assert(!is_dots(CONFIG_NAME@)) by {
        assert(seq!['.'].len() == 1 && seq!['.', '.'].len() == 2);
    }
    let create = Action::CreateDir(dir);
    let write_config = Action::WriteFile(session.config_path(), encode_utf8(session.config));
    let write_copy = Action::WriteFile(session.copy_path(), content);
    let steps = session.setup(exists, content);
    let emptied: Option<Files> = if exists {
        None
    } else {
        before
    };
    let created = after(emptied, dir, create);
    let configured = after(created, dir, write_config);
    let filled = after(configured, dir, write_copy);
    assert(after_all(before, dir, steps) == filled) by {
        reveal_with_fuel(after_all, 5);
        if exists {
            let s3 = steps.drop_last();
            let s2 = s3.drop_last();
            let s1 = s2.drop_last();
            assert(s1.drop_last() =~= Seq::<Action>::empty());
            assert(steps.last() == write_copy && s3.last() == write_config && s2.last() == create
                && s1.last() == Action::RemoveDir(dir));
        } else {
            let s2 = steps.drop_last();
            let s1 = s2.drop_last();
            assert(s1.drop_last() =~= Seq::<Action>::empty());
            assert(steps.last() == write_copy && s2.last() == write_config && s1.last()
                == create);
        }
    }
}

/// After setup the scratch directory is there and holds exactly two files:
/// the rendered configuration, and a copy of the input with the bytes of
/// the input. This is so for an input whose name is not that of the
/// configuration file.
pub proof fn lemma_setup_leaves_two_files(
    input: Seq<char>,
    entries: Seq<Entry>,
    debug: bool,
    found: Lookup,
    exists: bool,
    content: Seq<u8>,
    before: Option<Files>,
)
    requires
        refusal_of(input, found) is None,
        file_name_of(input) != Some(CONFIG_NAME@),
        before is Some ==> exists,
    ensures
        ({
            let session = planned(input, entries, debug, found->Found_0@);
            let files = map![
                CONFIG_NAME@ => encode_utf8(session.config),
                session.name => content,
            ];
            &&& after_all(before, session.testdir, session.setup(exists, content)) == Some(files)
            &&& files.dom() == set![CONFIG_NAME@, session.name]
            &&& CONFIG_NAME@ != session.name
        }),
{
    let session = planned(input, entries, debug, found->Found_0@);
    lemma_setup_result(input, entries, debug, found->Found_0@, exists, content, before);
    let files = map![
        CONFIG_NAME@ => encode_utf8(session.config),
        session.name => content,
    ];
    assert(files.dom() =~= set![CONFIG_NAME@, session.name]);
}

/// Setup on the same input a second time leaves the scratch directory as the
/// first time left it: what was there is replaced, not added to.
pub proof fn lemma_setup_twice_is_setup_once(
    input: Seq<char>,
    entries: Seq<Entry>,
    debug: bool,
    found: Lookup,
    exists: bool,
    content: Seq<u8>,
    before: Option<Files>,
)
    requires
        refusal_of(input, found) is None,
        before is Some ==> exists,
    ensures
        ({
            let session = planned(input, entries, debug, found->Found_0@);
            let once = after_all(before, session.testdir, session.setup(exists, content));
            &&& once is Some
            &&& after_all(once, session.testdir, session.setup(true, content)) == once
        }),
{
    let session = planned(input, entries, debug, found->Found_0@);
    let once = after_all(before, session.testdir, session.setup(exists, content));
    lemma_setup_result(input, entries, debug, found->Found_0@, exists, content, before);
    lemma_setup_result(input, entries, debug, found->Found_0@, true, content, once);
}

/// Setup leaves the scratch directory the same whatever it held before:
/// nothing of what was there is left over.
pub proof fn lemma_setup_forgets_what_was_there(
    input: Seq<char>,
    entries: Seq<Entry>,
    debug: bool,
    found: Lookup,
    content: Seq<u8>,
    exists: bool,
    before: Option<Files>,
    other_exists: bool,
    other: Option<Files>,
)
    requires
        refusal_of(input, found) is None,
        before is Some ==> exists,
        other is Some ==> other_exists,
    ensures
        ({
            let session = planned(input, entries, debug, found->Found_0@);
            after_all(before, session.testdir, session.setup(exists, content)) == after_all(
                other,
                session.testdir,
                session.setup(other_exists, content),
            )
        }),
{
    lemma_setup_result(input, entries, debug, found->Found_0@, exists, content, before);
    lemma_setup_result(input, entries, debug, found->Found_0@, other_exists, content, other);
}

/// Without a runner on the search path no session is planned, so that no
/// step creates a scratch directory.
pub proof fn lemma_no_runner_no_session(input: Seq<char>)
    ensures
        refusal_of(input, Lookup::Missing) is Some,
{
}

/// At the end the scratch directory, if it is there, stays exactly when the
/// session keeps it, and then with its files as they are.
pub proof fn lemma_cleanup_keeps_on_debug_only(session: Session, files: Files)
    ensures
        session.debug ==> after_cleanup(Some(files), session.testdir, session.cleanup(true))
            == Some(files),
        !session.debug ==> after_cleanup(Some(files), session.testdir, session.cleanup(true))
            is None,
        after_cleanup(None, session.testdir, session.cleanup(false)) is None,
{
}

/// A session.
#[derive(Debug, PartialEq, Eq)]
pub struct LitFile {
    testdir: String,
    name: String,
    config: String,
    litcmd: LitCmd,
    debug: bool,
}

impl View for LitFile {
    type V = Session;

    closed spec fn view(&self) -> Session {
        Session {
            testdir: self.testdir@,
            name: self.name@,
            config: self.config@,
            command: self.litcmd@,
            debug: self.debug,
        }
    }
}

impl LitFile {
    /// Plans the session for the input at `input`, a path that has been
    /// resolved, with the substitutions `defines` and the runner that
    /// `found` tells of.
    pub fn new(input: &str, defines: Option<Defines>, debug: bool, found: Lookup) -> (out: Result<
        LitFile,
        LitError,
    >)
        ensures
            match refusal_of(input@, found) {
                Some(refusal) => out matches Err(e) && e == refusal,
                None => out matches Ok(session) && session@ == planned(
                    input@,
                    entries_in(defines),
                    debug,
                    found->Found_0@,
                ),
            },
    {
        let name = match file_name(input) {
            Some(name) => name,
            None => {
                return Err(LitError::NoFileName);
            },
        };
        let ext = match extension(name.as_str()) {
            Some(ext) => ext,
            None => {
                return Err(LitError::NoExtension);
            },
        };
        let litcmd = match LitCmd::new(found) {
            Ok(litcmd) => litcmd,
            Err(e) => {
                return Err(e);
            },
        };
        let dir = parent(input);
        let mut scratch = name.clone();
        scratch.append(SCRATCH_SUFFIX);
        let testdir = join(dir.as_str(), scratch.as_str());
        let files = suffix(ext.as_str());
        let set = match defines {
            Some(set) => set,
            None => Defines::new(),
        };
        let config = render(template().as_str(), files.as_str(), &set);
        Ok(LitFile { testdir, name, config, litcmd, debug })
    }

    /// The path of the scratch directory.
    pub fn testdir(&self) -> (out: &str)
        ensures
            out@ == self@.testdir,
    {
        self.testdir.as_str()
    }

    /// The file name of the input.
    pub fn name(&self) -> (out: &str)
        ensures
            out@ == self@.name,
    {
        self.name.as_str()
    }

    /// The configuration for the scratch directory.
    pub fn config(&self) -> (out: &str)
        ensures
            out@ == self@.config,
    {
        self.config.as_str()
    }

    /// The runner.
    pub fn command(&self) -> (out: &LitCmd)
        ensures
            out@ == self@.command,
    {
        &self.litcmd
    }

    /// Whether the scratch directory is kept at the end.
    pub fn debug(&self) -> (out: bool)
        ensures
            out == self@.debug,
    {
        self.debug
    }

    /// The steps that fill the scratch directory, where `content` are the
    /// bytes of the input and the directory `exists` or not.
    pub fn setup(&self, exists: bool, content: Vec<u8>) -> (out: Vec<Step>)
        ensures
            actions_of(out@) == self@.setup(exists, content@),
    {
        let mut out: Vec<Step> = Vec::new();
        if exists {
            out.push(Step::RemoveDir(self.testdir.clone()));
        }
        out.push(Step::CreateDir(self.testdir.clone()));
        let config_path = join(self.testdir.as_str(), CONFIG_NAME);
        out.push(Step::WriteFile(config_path, self.config.as_str().as_bytes_vec()));
        let copy_path = join(self.testdir.as_str(), self.name.as_str());
        out.push(Step::WriteFile(copy_path, content));
        assert(actions_of(out@) =~= self@.setup(exists, content@));
        out
    }

    /// The line that tells the version of the runner, made from what the
    /// version query left behind.
    pub fn info(&self, output: Output) -> (out: Result<String, LitError>)
        ensures
            match out {
                Ok(line) => {
                    &&& output.success
                    &&& valid_utf8(output.stdout@)
                    &&& line@ == "lit version: "@ + version_of(decode_utf8(output.stdout@))
                },
                Err(LitError::VersionFailed) => !output.success,
                Err(LitError::VersionNotText) => output.success && !valid_utf8(output.stdout@),
                Err(_) => false,
            },
    {
        match self.litcmd.version(output) {
            Ok(version) => {
                let mut line = String::from_str("lit version: ");
                line.append(version.as_str());
                Ok(line)
            },
            Err(e) => Err(e),
        }
    }

    /// The command that runs the tests of the scratch directory, with the
    /// runner that a new search has `found` and the words of the extra
    /// options `options`.
    pub fn run(&self, found: Lookup, options: Option<String>) -> (out: Result<Invocation, LitError>)
        ensures
            match found {
                Lookup::Missing => out matches Err(LitError::CommandNotFound),
                Lookup::NotText => out matches Err(LitError::CommandNotText),
                Lookup::Found(path) => match shell_words(options_of(options)) {
                    Some(extra) => {
                        &&& out matches Ok(command)
                        &&& command.program@ == path@
                        &&& views(command.args@) == arguments_of(self@.testdir, extra)
                    },
                    None => out matches Err(LitError::BadOptions(given)) && given@ == options_of(
                        options,
                    ),
                },
            },
    {
        match LitCmd::new(found) {
            Ok(litcmd) => litcmd.run(self.testdir.as_str(), options),
            Err(e) => Err(e),
        }
    }

    /// The cleanup at the end, where the scratch directory `exists` or not.
    pub fn cleanup(&self, exists: bool) -> (out: Cleanup)
        ensures
            out@ == self@.cleanup(exists),
    {
        if !exists {
            Cleanup::Nothing
        } else if self.debug {
            let mut notice = String::from_str("debug files can be found at: ");
            notice.append(self.testdir.as_str());
            Cleanup::Keep(notice)
        } else {
            Cleanup::Remove(self.testdir.clone())
        }
    }

    /// The line that reports that the scratch directory could not be
    /// removed, where `error` describes why.
    pub fn removal_failure(&self, error: &str) -> (out: String)
        ensures
            out@ == "failed to remove temporary directory "@ + self@.testdir + " with error "@
                + error@,
    {
        let mut out = String::from_str("failed to remove temporary directory ");
        out.append(self.testdir.as_str());
        out.append(" with error ");
        out.append(error);
        out
    }
}

/// The arguments of the command line.
#[derive(Debug, PartialEq, Eq)]
pub struct Cli {
    /// The file to test, as it was given.
    pub file: String,
    /// The entries `KEY=VALUE`, one for each `-D`.
    pub defines: Option<Vec<String>>,
    /// Whether to keep the scratch directory.
    pub debug: bool,
}

/// The substitutions that the entries `given` make: the set that they fill,
/// and none where there are no entries or the set stays empty.
pub open spec fn substitutions_of(given: Option<Vec<String>>) -> Option<Seq<Entry>> {
    match given {
        Some(entries) => if collected(views(entries@)).len() > 0 {
            Some(collected(views(entries@)))
        } else {
            None
        },
        None => None,
    }
}

impl Cli {
    /// The substitutions that the entries of the command line make.
    pub fn substitutions(&self) -> (out: Option<Defines>)
        ensures
            match out {
                Some(set) => substitutions_of(self.defines) == Some(set@),
                None => substitutions_of(self.defines) is None,
            },
    {
        match &self.defines {
            Some(entries) => {
                let set = Defines::parse(entries);
                if set.len() > 0 {
                    Some(set)
                } else {
                    None
                }
            },
            None => None,
        }
    }
}

/// The substitutions that count for the command line: the set that its
/// entries fill, which is empty where it has none.
pub open spec fn entries_for(cli: Cli) -> Seq<Entry> {
    match cli.defines {
        Some(entries) => collected(views(entries@)),
        None => Seq::empty(),
    }
}

/// Plans the session that the command line asks for, where `resolved` tells
/// what the file leads to and `found` tells of the runner.
pub fn app(cli: &Cli, resolved: Lookup, found: Lookup) -> (out: Result<LitFile, LitError>)
    ensures
        match resolved {
            Lookup::Missing => out matches Err(LitError::InvalidInput(input)) && input@
                == cli.file@,
            Lookup::NotText => out matches Err(LitError::NameNotText),
            Lookup::Found(input) => match refusal_of(input@, found) {
                Some(refusal) => out matches Err(e) && e == refusal,
                None => out matches Ok(session) && session@ == planned(
                    input@,
                    entries_for(*cli),
                    cli.debug,
                    found->Found_0@,
                ),
            },
        },
{
    match resolved {
        Lookup::Missing => Err(LitError::InvalidInput(cli.file.clone())),
        Lookup::NotText => Err(LitError::NameNotText),
        Lookup::Found(input) => {
            let defines = cli.substitutions();
            LitFile::new(input.as_str(), defines, cli.debug, found)
        },
    }
}

} // verus!
