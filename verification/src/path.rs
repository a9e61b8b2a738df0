//! Paths as text.
//!
//! A path is a string whose segments are separated by `/`. The functions
//! here take a path apart at its last separator and put one together again.
//! They look only at the text: nothing is asked of a file system.

use crate::text::{
    chars_of, find_last, last_index, lemma_last_index, lemma_last_index_found, text_of_range,
};
use vstd::prelude::*;

verus! {

/// The character between two segments of a path.
pub const SEPARATOR: char = '/';

/// Whether `name` is one of the segments `.` and `..`, which name no file.
pub open spec fn is_dots(name: Seq<char>) -> bool {
    name == seq!['.'] || name == seq!['.', '.']
}

/// What follows the last separator of `path`: all of `path` where it holds
/// no separator.
pub open spec fn final_segment(path: Seq<char>) -> Seq<char> {
    path.skip(last_index(path, SEPARATOR) + 1)
}

/// The name of the file that `path` leads to: its final segment, unless that
/// is empty, `.` or `..`.
pub open spec fn file_name_of(path: Seq<char>) -> Option<Seq<char>> {
    let name = final_segment(path);
    if name.len() == 0 || is_dots(name) {
        None
    } else {
        Some(name)
    }
}

/// The directory that holds the final segment of `path`: what stands before
/// the last separator. It is empty where `path` holds no separator, and the
/// root `/` where the only separator before the final segment is the first
/// character.
pub open spec fn parent_of(path: Seq<char>) -> Seq<char> {
    let at = last_index(path, SEPARATOR);
    if at < 0 {
        Seq::empty()
    } else if at == 0 {
        seq![SEPARATOR]
    } else {
        path.take(at)
    }
}

/// The path of `name` inside the directory `dir`. A separator is put between
/// the two unless `dir` is empty or ends with one.
pub open spec fn joined_path(dir: Seq<char>, name: Seq<char>) -> Seq<char> {
    if dir.len() == 0 {
        name
    } else if dir.last() == SEPARATOR {
        dir + name
    } else {
        dir + seq![SEPARATOR] + name
    }
}

/// The extension of the file name `name`: what follows its last `.`. There is
/// none where `name` holds no `.`, where its only `.` is the first character,
/// and where `name` is `..`.
pub open spec fn extension_of(name: Seq<char>) -> Option<Seq<char>> {
    let at = last_index(name, '.');
    if at <= 0 || name == seq!['.', '.'] {
        None
    } else {
        Some(name.skip(at + 1))
    }
}

/// Taking a path apart and joining the halves gives the path back, as long
/// as the separator before the file name is a single one.
pub proof fn lemma_join_restores(path: Seq<char>)
    requires
        file_name_of(path) is Some,
        last_index(path, SEPARATOR) > 0 ==> path[last_index(path, SEPARATOR) - 1] != SEPARATOR,
    ensures
        joined_path(parent_of(path), file_name_of(path)->0) == path,
{
    lemma_last_index(path, SEPARATOR);
    let at = last_index(path, SEPARATOR);
    let name = final_segment(path);
    if at < 0 {
        assert(name =~= path);
    } else if at == 0 {
        assert(seq![SEPARATOR] + name =~= path);
    } else {
        assert(path.take(at) + seq![SEPARATOR] + name =~= path);
    }
}

/// The file name of a path holds no separator.
pub proof fn lemma_file_name_is_one_segment(path: Seq<char>)
    ensures
        forall|i: int| 0 <= i < final_segment(path).len() ==> #[trigger] final_segment(path)[i]
            != SEPARATOR,
{
    lemma_last_index(path, SEPARATOR);
}

/// Joining a directory and a single segment and taking the path apart gives
/// the two back, as long as the directory does not end in a separator that
/// is not the root.
pub proof fn lemma_split_restores(dir: Seq<char>, name: Seq<char>)
    requires
        dir.len() > 0 && dir.last() == SEPARATOR ==> dir == seq![SEPARATOR],
        forall|i: int| 0 <= i < name.len() ==> #[trigger] name[i] != SEPARATOR,
    ensures
        final_segment(joined_path(dir, name)) == name,
        parent_of(joined_path(dir, name)) == dir,
{
    let path = joined_path(dir, name);
    if dir.len() == 0 {
        lemma_last_index_found(path, SEPARATOR, -1);
        assert(path.skip(0) =~= name);
    } else if dir.last() == SEPARATOR {
        lemma_last_index_found(path, SEPARATOR, 0);
        assert(path.skip(1) =~= name);
    } else {
        lemma_last_index_found(path, SEPARATOR, dir.len() as int);
        assert(path.skip(dir.len() as int + 1) =~= name);
        assert(path.take(dir.len() as int) =~= dir);
    }
}

/// Whether `v` spells `.` or `..`.
fn spells_dots(v: &Vec<char>, from: usize) -> (b: bool)
    requires
        from <= v.len(),
    ensures
        b == is_dots(v@.skip(from as int)),
{
    let n = v.len() - from;
    let ghost rest = v@.skip(from as int);
    if n == 1 {
        assert(rest[0] == v@[from as int]);
        let b = v[from] == '.';
        assert(b ==> rest =~= seq!['.']);
        assert(seq!['.'][0] == '.');
        b
    } else if n == 2 {
        assert(rest[0] == v@[from as int]);
        assert(rest[1] == v@[from + 1]);
        let b = v[from] == '.' && v[from + 1] == '.';
        assert(b ==> rest =~= seq!['.', '.']);
        assert(seq!['.', '.'][0] == '.' && seq!['.', '.'][1] == '.');
        b
    } else {
        assert(seq!['.'].len() == 1 && seq!['.', '.'].len() == 2);
        false
    }
}

/// The name of the file that `path` leads to.
pub fn file_name(path: &str) -> (out: Option<String>)
    ensures
        match out {
            Some(name) => file_name_of(path@) == Some(name@),
            None => file_name_of(path@) is None,
        },
{
    let v = chars_of(path);
    let from: usize = match find_last(&v, SEPARATOR) {
        Some(at) => at + 1,
        None => 0,
    };
    if from == v.len() || spells_dots(&v, from) {
        None
    } else {
        Some(text_of_range(&v, from, v.len()))
    }
}

/// The directory that holds the final segment of `path`.
pub fn parent(path: &str) -> (out: String)
    ensures
        out@ == parent_of(path@),
{
    let v = chars_of(path);
    match find_last(&v, SEPARATOR) {
        None => {
            let out = String::new();
            assert(out@ =~= parent_of(path@));
            out
        },
        Some(at) => {
            if at == 0 {
                let out = text_of_range(&v, 0, 1);
                assert(out@ =~= seq![v@[0]]);
                out
            } else {
                text_of_range(&v, 0, at)
            }
        },
    }
}

/// The path of `name` inside the directory `dir`.
pub fn join(dir: &str, name: &str) -> (out: String)
    ensures
        out@ == joined_path(dir@, name@),
{
    let d = chars_of(dir);
    let mut out = String::from_str(dir);
    if d.len() > 0 && d[d.len() - 1] != SEPARATOR {
        out.append("/");
        proof {
            reveal_strlit("/");
            assert("/"@ =~= seq![SEPARATOR]);
        }
    }
    out.append(name);
    assert(out@ =~= joined_path(dir@, name@));
    out
}

/// The extension of the file name `name`.
pub fn extension(name: &str) -> (out: Option<String>)
    ensures
        match out {
            Some(ext) => extension_of(name@) == Some(ext@),
            None => extension_of(name@) is None,
        },
{
    let v = chars_of(name);
    match find_last(&v, '.') {
        None => None,
        Some(at) => {
            if at == 0 || (v.len() == 2 && spells_dots(&v, 0)) {
                proof {
                    assert(v@.skip(0) =~= v@);
                    assert(seq!['.'].len() == 1);
                }
                None
            } else {
                proof {
                    assert(v@.skip(0) =~= v@);
                    assert(seq!['.', '.'].len() == 2);
                    if v@ == seq!['.', '.'] {
                        assert(is_dots(v@));
                    }
                }
                Some(text_of_range(&v, at + 1, v.len()))
            }
        },
    }
}

} // verus!
