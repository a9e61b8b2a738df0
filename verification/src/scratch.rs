//! The scratch directory: the steps that fill it and that dispose of it, and
//! what they leave behind.
//!
//! The steps are values. A caller carries them out on a file system. What
//! they come to is stated over a model of one directory: either it is absent,
//! or it holds files, each under its name.

use crate::path::{file_name_of, parent_of};
use vstd::prelude::*;

verus! {

/// One step on the file system.
#[derive(Debug, PartialEq, Eq)]
pub enum Step {
    /// Remove the directory at this path, with all that it holds.
    RemoveDir(String),
    /// Create the directory at this path, unless it is there.
    CreateDir(String),
    /// Write these bytes to the file at this path.
    WriteFile(String, Vec<u8>),
}

/// A step, with its path as text.
pub enum Action {
    RemoveDir(Seq<char>),
    CreateDir(Seq<char>),
    WriteFile(Seq<char>, Seq<u8>),
}

impl View for Step {
    type V = Action;

    open spec fn view(&self) -> Action {
        match self {
            Step::RemoveDir(path) => Action::RemoveDir(path@),
            Step::CreateDir(path) => Action::CreateDir(path@),
            Step::WriteFile(path, bytes) => Action::WriteFile(path@, bytes@),
        }
    }
}

/// The steps `steps` with their paths as text.
pub open spec fn actions_of(steps: Seq<Step>) -> Seq<Action> {
    steps.map_values(|s: Step| s@)
}

/// What to do with the scratch directory at the end.
#[derive(Debug, PartialEq, Eq)]
pub enum Cleanup {
    /// Nothing: there is no directory.
    Nothing,
    /// Remove the directory at this path.
    Remove(String),
    /// Leave the directory, and print this notice.
    Keep(String),
}

/// A cleanup, with its path or notice as text.
pub enum Disposal {
    Nothing,
    Remove(Seq<char>),
    Keep(Seq<char>),
}

impl View for Cleanup {
    type V = Disposal;

    open spec fn view(&self) -> Disposal {
        match self {
            Cleanup::Nothing => Disposal::Nothing,
            Cleanup::Remove(path) => Disposal::Remove(path@),
            Cleanup::Keep(notice) => Disposal::Keep(notice@),
        }
    }
}

/// The files of a directory: the bytes of each, under its name.
pub type Files = Map<Seq<char>, Seq<u8>>;

/// The directory at `dir` after `action`, where `state` is the directory
/// before it: `None` while it is absent, else its files.
///
/// A removal of `dir` leaves it absent. A creation of `dir` makes it empty
/// where it was absent and keeps it where it was there. A write puts a file
/// into `dir` where the path names a file directly inside `dir` and `dir` is
/// there. Any other action leaves `dir` as it was.
pub open spec fn after(state: Option<Files>, dir: Seq<char>, action: Action) -> Option<Files> {
    match action {
        Action::RemoveDir(path) => if path == dir {
            None
        } else {
            state
        },
        Action::CreateDir(path) => if path == dir && state is None {
            Some(Map::empty())
        } else {
            state
        },
        Action::WriteFile(path, bytes) => match (state, file_name_of(path)) {
            (Some(files), Some(name)) => if parent_of(path) == dir {
                Some(files.insert(name, bytes))
            } else {
                state
            },
            _ => state,
        },
    }
}

/// The directory at `dir` after each of `actions` in turn.
pub open spec fn after_all(state: Option<Files>, dir: Seq<char>, actions: Seq<Action>) -> Option<
    Files,
>
    decreases actions.len(),
{
    if actions.len() == 0 {
        state
    } else {
        after(after_all(state, dir, actions.drop_last()), dir, actions.last())
    }
}

/// The directory at `dir` after the cleanup `disposal`.
pub open spec fn after_cleanup(state: Option<Files>, dir: Seq<char>, disposal: Disposal) -> Option<
    Files,
> {
    match disposal {
        Disposal::Remove(path) => after(state, dir, Action::RemoveDir(path)),
        _ => state,
    }
}

} // verus!
