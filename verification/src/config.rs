//! The configuration that the test runner reads in the scratch directory.
//!
//! It is rendered from a template with two markers. The first gives way to
//! the line that names the suffix of the files to test, the second to one
//! line for each substitution.

use crate::defines::{entries_of, Defines, Entry};
use crate::text::{
    join, joined, lemma_joined_around, lemma_occurs_only_at_first_char, lemma_replaced_absent,
    lemma_replaced_first, occurs_at, occurs_before, replace, replaced, views,
};
use vstd::prelude::*;

verus! {

/// The name of the configuration file inside the scratch directory.
pub const CONFIG_NAME: &'static str = "lit.cfg.py";

/// The marker that gives way to the suffix line.
pub const SUFFIX_MARKER: &'static str = "### __LITFILE_SUFFIX__";

/// The marker that gives way to the substitution lines.
pub const SUBSTITUTIONS_MARKER: &'static str = "### __LITFILE_SUBSTITUTIONS__";

/// What the built-in template says before its markers.
pub const TEMPLATE_HEAD: &'static str =
    "import lit.formats\n\nconfig.name = \"litfile\"\nconfig.test_format = lit.formats.ShTest(True)\nconfig.excludes = [\"lit.cfg.py\"]\n\n";

/// The template that is built in: its head, then the suffix marker and the
/// substitutions marker, each on a line of its own with an empty line
/// between them.
pub open spec fn template_of() -> Seq<char> {
    TEMPLATE_HEAD@ + SUFFIX_MARKER@ + "\n\n"@ + SUBSTITUTIONS_MARKER@ + "\n"@
}

/// The suffix of the files with extension `extension`: a dot, then the
/// extension.
pub open spec fn suffix_of(extension: Seq<char>) -> Seq<char> {
    "."@ + extension
}

/// The line that tells the runner to test the files that end in `suffix`.
pub open spec fn suffix_line_of(suffix: Seq<char>) -> Seq<char> {
    "config.suffixes = [\""@ + suffix + "\"]"@
}

/// The line that tells the runner to put `value` wherever a test says
/// `%key`.
pub open spec fn substitution_line_of(key: Seq<char>, value: Seq<char>) -> Seq<char> {
    "config.substitutions.append((\"%"@ + key + "\", \""@ + value + "\"))"@
}

/// The substitution lines of `entries`, in their order.
pub open spec fn substitution_lines_of(entries: Seq<Entry>) -> Seq<Seq<char>> {
    entries.map_values(|e: Entry| substitution_line_of(e.0, e.1))
}

/// The substitution lines of `entries`, one below the other. No line ends
/// the block, and no entries give the empty block.
pub open spec fn substitution_block_of(entries: Seq<Entry>) -> Seq<char> {
    joined(substitution_lines_of(entries), "\n"@)
}

/// The configuration: `template` with each suffix marker replaced by the
/// suffix line of `suffix` and then, in the text that this gives, each
/// substitutions marker replaced by the substitution block of `entries`.
pub open spec fn rendered(template: Seq<char>, suffix: Seq<char>, entries: Seq<Entry>) -> Seq<
    char,
> {
    replaced(
        replaced(template, SUFFIX_MARKER@, suffix_line_of(suffix)),
        SUBSTITUTIONS_MARKER@,
        substitution_block_of(entries),
    )
}

/// Without substitutions the block is empty.
pub proof fn lemma_block_of_none()
    ensures
        substitution_block_of(Seq::empty()) == Seq::<char>::empty(),
{
}

/// Each substitution has its line in the block, with its key behind `%` and
/// its value as they were supplied. The line stands behind the block of the
/// substitutions before it and before the block of those behind it, with a
/// line break on each side where there is a neighbour.
pub proof fn lemma_block_holds_line(entries: Seq<Entry>, at: int)
    requires
        0 <= at < entries.len(),
    ensures
        substitution_block_of(entries) == substitution_block_of(entries.take(at)) + (if at > 0 {
            "\n"@
        } else {
            Seq::empty()
        }) + substitution_line_of(entries[at].0, entries[at].1) + (if at + 1 < entries.len() {
            "\n"@
        } else {
            Seq::empty()
        }) + substitution_block_of(entries.skip(at + 1)),
{
    let lines = substitution_lines_of(entries);
    lemma_joined_around(lines, "\n"@, at);
    assert(lines.take(at) =~= substitution_lines_of(entries.take(at)));
    assert(lines.skip(at + 1) =~= substitution_lines_of(entries.skip(at + 1)));
}

/// A template that holds each marker once is rendered by putting the suffix
/// line and the substitution block where the markers stood: the text round
/// them stays as it is.
///
/// That a marker stands once is asked of the text in which it is sought:
/// the suffix marker in the template, the substitutions marker in the text
/// that holds the suffix line.
pub proof fn lemma_rendered_in_place(
    head: Seq<char>,
    middle: Seq<char>,
    tail: Seq<char>,
    suffix: Seq<char>,
    entries: Seq<Entry>,
)
    requires
        !occurs_before(
            head + SUFFIX_MARKER@ + (middle + SUBSTITUTIONS_MARKER@ + tail),
            SUFFIX_MARKER@,
            head.len() as int,
        ),
        !occurs_before(
            middle + SUBSTITUTIONS_MARKER@ + tail,
            SUFFIX_MARKER@,
            (middle + SUBSTITUTIONS_MARKER@ + tail).len() as int,
        ),
        !occurs_before(
            (head + suffix_line_of(suffix) + middle) + SUBSTITUTIONS_MARKER@ + tail,
            SUBSTITUTIONS_MARKER@,
            (head + suffix_line_of(suffix) + middle).len() as int,
        ),
        !occurs_before(tail, SUBSTITUTIONS_MARKER@, tail.len() as int),
    ensures
        rendered(
            head + SUFFIX_MARKER@ + middle + SUBSTITUTIONS_MARKER@ + tail,
            suffix,
            entries,
        ) == head + suffix_line_of(suffix) + middle + substitution_block_of(entries) + tail,
{
    reveal_strlit("### __LITFILE_SUFFIX__");
    reveal_strlit("### __LITFILE_SUBSTITUTIONS__");
    let line = suffix_line_of(suffix);
    let block = substitution_block_of(entries);
    let rest = middle + SUBSTITUTIONS_MARKER@ + tail;
    let template = head + SUFFIX_MARKER@ + middle + SUBSTITUTIONS_MARKER@ + tail;
    assert(template =~= head + SUFFIX_MARKER@ + rest);
    lemma_replaced_first(head, SUFFIX_MARKER@, rest, line);
    lemma_replaced_absent(rest, SUFFIX_MARKER@, line);
    let first = replaced(template, SUFFIX_MARKER@, line);
    assert(first =~= (head + line + middle) + SUBSTITUTIONS_MARKER@ + tail);
    lemma_replaced_first(head + line + middle, SUBSTITUTIONS_MARKER@, tail, block);
    lemma_replaced_absent(tail, SUBSTITUTIONS_MARKER@, block);
}

/// What the built-in template is rendered to: its head, the suffix line, an
/// empty line, the substitution block, and a line break. This is so for a
/// suffix that holds no `#`, the character that a marker starts with.
pub proof fn lemma_template_rendered(suffix: Seq<char>, entries: Seq<Entry>)
    requires
        forall|i: int| 0 <= i < suffix.len() ==> #[trigger] suffix[i] != '#',
    ensures
        rendered(template_of(), suffix, entries) == TEMPLATE_HEAD@ + suffix_line_of(suffix)
            + "\n\n"@ + substitution_block_of(entries) + "\n"@,
{
    reveal_strlit(
        "import lit.formats\n\nconfig.name = \"litfile\"\nconfig.test_format = lit.formats.ShTest(True)\nconfig.excludes = [\"lit.cfg.py\"]\n\n",
    );
    reveal_strlit("### __LITFILE_SUFFIX__");
    reveal_strlit("### __LITFILE_SUBSTITUTIONS__");
    reveal_strlit("\n\n");
    reveal_strlit("\n");
    reveal_strlit("config.suffixes = [\"");
    reveal_strlit("\"]");
    let head = TEMPLATE_HEAD@;
    let first = SUFFIX_MARKER@;
    let second = SUBSTITUTIONS_MARKER@;
    let middle = "\n\n"@;
    let tail = "\n"@;
    let line = suffix_line_of(suffix);
    let rest = middle + second + tail;
    lemma_occurs_only_at_first_char(head + first + rest, first, head.len() as int);
    assert(!occurs_before(rest, first, rest.len() as int)) by {
        assert forall|at: int| 0 <= at < rest.len() implies !occurs_at(rest, first, at) by {
            if occurs_at(rest, first, at) {
                let found = rest.skip(at).subrange(0, first.len() as int);
                assert(found[0] == rest[at]);
                assert(found[1] == rest[at + 1]);
                assert(found[3] == rest[at + 3]);
                assert(found[16] == rest[at + 16]);
            }
        }
    }
    lemma_occurs_only_at_first_char(
        (head + line + middle) + second + tail,
        second,
        (head + line + middle).len() as int,
    );
    lemma_occurs_only_at_first_char(tail, second, tail.len() as int);
    lemma_rendered_in_place(head, middle, tail, suffix, entries);
}

/// The configuration rendered from the built-in template holds the line of
/// each substitution: what stands before the line ends with the lines of the
/// substitutions before it, and what stands behind it starts with the lines
/// of those behind it. This is so for a suffix that holds no `#`.
pub proof fn lemma_rendered_holds_line(suffix: Seq<char>, entries: Seq<Entry>, at: int)
    requires
        forall|i: int| 0 <= i < suffix.len() ==> #[trigger] suffix[i] != '#',
        0 <= at < entries.len(),
    ensures
        rendered(template_of(), suffix, entries) == (TEMPLATE_HEAD@ + suffix_line_of(suffix)
            + "\n\n"@ + substitution_block_of(entries.take(at)) + (if at > 0 {
            "\n"@
        } else {
            Seq::empty()
        })) + substitution_line_of(entries[at].0, entries[at].1) + ((if at + 1 < entries.len() {
            "\n"@
        } else {
            Seq::empty()
        }) + substitution_block_of(entries.skip(at + 1)) + "\n"@),
{
    lemma_template_rendered(suffix, entries);
    lemma_block_holds_line(entries, at);
    let start = TEMPLATE_HEAD@ + suffix_line_of(suffix) + "\n\n"@;
    let before = substitution_block_of(entries.take(at)) + (if at > 0 {
        "\n"@
    } else {
        Seq::empty()
    });
    let line = substitution_line_of(entries[at].0, entries[at].1);
    let behind = (if at + 1 < entries.len() {
        "\n"@
    } else {
        Seq::empty()
    }) + substitution_block_of(entries.skip(at + 1));
    assert(substitution_block_of(entries) =~= before + line + behind);
    assert(rendered(template_of(), suffix, entries) =~= (start + before) + line + (behind
        + "\n"@));
    assert(start + before =~= TEMPLATE_HEAD@ + suffix_line_of(suffix) + "\n\n"@
        + substitution_block_of(entries.take(at)) + (if at > 0 {
        "\n"@
    } else {
        Seq::empty()
    }));
}

/// The template that is built in.
pub fn template() -> (out: String)
    ensures
        out@ == template_of(),
{
    let mut out = String::from_str(TEMPLATE_HEAD);
    out.append(SUFFIX_MARKER);
    out.append("\n\n");
    out.append(SUBSTITUTIONS_MARKER);
    out.append("\n");
    out
}

/// The suffix of the files with extension `extension`.
pub fn suffix(extension: &str) -> (out: String)
    ensures
        out@ == suffix_of(extension@),
{
    let mut out = String::from_str(".");
    out.append(extension);
    out
}

/// The line that tells the runner to test the files that end in `suffix`.
pub fn suffix_line(suffix: &str) -> (out: String)
    ensures
        out@ == suffix_line_of(suffix@),
{
    let mut out = String::from_str("config.suffixes = [\"");
    out.append(suffix);
    out.append("\"]");
    out
}

/// The line that tells the runner to put `value` wherever a test says
/// `%key`.
pub fn substitution_line(key: &str, value: &str) -> (out: String)
    ensures
        out@ == substitution_line_of(key@, value@),
{
    let mut out = String::from_str("config.substitutions.append((\"%");
    out.append(key);
    out.append("\", \"");
    out.append(value);
    out.append("\"))");
    out
}

/// The substitution lines of `defines`, one below the other.
pub fn substitution_block(defines: &Defines) -> (out: String)
    ensures
        out@ == substitution_block_of(defines@),
{
    let pairs = defines.pairs();
    let mut lines: Vec<String> = Vec::new();
    let mut k: usize = 0;
    while k < pairs.len()
        invariant
            k <= pairs.len(),
            entries_of(pairs@) == defines@,
            views(lines@) == substitution_lines_of(defines@.take(k as int)),
        decreases pairs.len() - k,
    {
        let ghost before = lines@;
        let line = substitution_line(pairs[k].0.as_str(), pairs[k].1.as_str());
        lines.push(line);
        k += 1;
        proof {
            let seen = defines@.take(k as int);
            assert(seen.last() == (pairs@[k - 1].0@, pairs@[k - 1].1@));
            assert(seen.drop_last() =~= defines@.take(k - 1));
            assert(views(lines@) =~= views(before).push(line@));
            assert(substitution_lines_of(seen) =~= substitution_lines_of(seen.drop_last()).push(
                substitution_line_of(seen.last().0, seen.last().1),
            ));
        }
    }
    assert(defines@.take(defines@.len() as int) =~= defines@);
    join(&lines, "\n")
}

/// The configuration rendered from `template`.
pub fn render(template: &str, suffix: &str, defines: &Defines) -> (out: String)
    ensures
        out@ == rendered(template@, suffix@, defines@),
{
    let line = suffix_line(suffix);
    let with_suffix = replace(template, SUFFIX_MARKER, line.as_str());
    let block = substitution_block(defines);
    replace(with_suffix.as_str(), SUBSTITUTIONS_MARKER, block.as_str())
}

} // verus!
