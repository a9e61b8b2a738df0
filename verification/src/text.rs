//! Text as a sequence of characters.
//!
//! Every contract of this crate speaks of a string through its view, a
//! `Seq<char>`. This module holds the vocabulary the other modules share:
//! trimming, searching for one character, replacing a pattern, joining lines.
//! The executable functions work on `Vec<char>`, so that each character is
//! decoded once.

use vstd::prelude::*;

verus! {

/// Whether `c` has the Unicode property `White_Space`.
pub open spec fn is_whitespace(c: char) -> bool {
    let n = c as u32;
    ||| 0x09 <= n <= 0x0D
    ||| n == 0x20
    ||| n == 0x85
    ||| n == 0xA0
    ||| n == 0x1680
    ||| 0x2000 <= n <= 0x200A
    ||| n == 0x2028
    ||| n == 0x2029
    ||| n == 0x202F
    ||| n == 0x205F
    ||| n == 0x3000
}

/// `s` without the white space it starts with.
pub open spec fn trimmed_start(s: Seq<char>) -> Seq<char>
    decreases s.len(),
{
    if s.len() > 0 && is_whitespace(s.first()) {
        trimmed_start(s.drop_first())
    } else {
        s
    }
}

/// `s` without the white space it ends with.
pub open spec fn trimmed_end(s: Seq<char>) -> Seq<char>
    decreases s.len(),
{
    if s.len() > 0 && is_whitespace(s.last()) {
        trimmed_end(s.drop_last())
    } else {
        s
    }
}

/// `s` without the white space at either end.
pub open spec fn trimmed(s: Seq<char>) -> Seq<char> {
    trimmed_end(trimmed_start(s))
}

/// The least index at which `c` stands in `s`, or the length of `s` where it
/// stands nowhere.
pub open spec fn first_index<A>(s: Seq<A>, c: A) -> int
    decreases s.len(),
{
    if s.len() == 0 {
        0
    } else if s.first() == c {
        0
    } else {
        1 + first_index(s.drop_first(), c)
    }
}

/// The greatest index at which `c` stands in `s`, or `-1` where it stands
/// nowhere.
pub open spec fn last_index<A>(s: Seq<A>, c: A) -> int
    decreases s.len(),
{
    if s.len() == 0 {
        -1
    } else if s.last() == c {
        s.len() - 1
    } else {
        last_index(s.drop_last(), c)
    }
}

/// `s` with every occurrence of `pattern` replaced by `replacement`.
///
/// Occurrences are found from left to right and do not overlap: the search
/// goes on behind an occurrence once it is replaced. An empty pattern occurs
/// nowhere.
pub open spec fn replaced(s: Seq<char>, pattern: Seq<char>, replacement: Seq<char>) -> Seq<char>
    decreases s.len(),
{
    if pattern.len() == 0 || s.len() < pattern.len() {
        s
    } else if pattern.is_prefix_of(s) {
        replacement + replaced(s.skip(pattern.len() as int), pattern, replacement)
    } else {
        seq![s.first()] + replaced(s.drop_first(), pattern, replacement)
    }
}

/// `s` without the copies of `prefix` it starts with. An empty prefix is
/// no copy.
pub open spec fn without_prefixes(s: Seq<char>, prefix: Seq<char>) -> Seq<char>
    decreases s.len(),
{
    if prefix.len() > 0 && prefix.is_prefix_of(s) {
        without_prefixes(s.skip(prefix.len() as int), prefix)
    } else {
        s
    }
}

/// The `parts` in order, with `separator` between each two neighbours.
pub open spec fn joined(parts: Seq<Seq<char>>, separator: Seq<char>) -> Seq<char>
    decreases parts.len(),
{
    if parts.len() == 0 {
        Seq::empty()
    } else if parts.len() == 1 {
        parts.last()
    } else {
        joined(parts.drop_last(), separator) + separator + parts.last()
    }
}

/// The views of the strings of `parts`, in order.
pub open spec fn views(parts: Seq<String>) -> Seq<Seq<char>> {
    parts.map_values(|p: String| p@)
}

/// Whether `pattern` stands in `s` at index `at`.
pub open spec fn occurs_at(s: Seq<char>, pattern: Seq<char>, at: int) -> bool {
    0 <= at <= s.len() && pattern.is_prefix_of(s.skip(at))
}

/// Whether `pattern` stands in `s` at an index below `end`.
pub open spec fn occurs_before(s: Seq<char>, pattern: Seq<char>, end: int) -> bool {
    exists|at: int| 0 <= at < end && occurs_at(s, pattern, at)
}

/// Calls `String::push`, which appends the one character `c` to `s`. That it
/// does so is taken from the documentation of the standard library and is
/// not proved here.
#[verifier::external_body]
fn push_char(s: &mut String, c: char)
    ensures
        final(s)@ == old(s)@.push(c),
{
    s.push(c)
}

/// The characters of `s`, in order.
pub fn chars_of(s: &str) -> (out: Vec<char>)
    ensures
        out@ == s@,
{
    let mut out: Vec<char> = Vec::new();
    for c in it: s.chars()
        invariant
            out@ == it.seq().take(it.index() as int),
            it.seq() == s@,
    {
        out.push(c);
    }
    out
}

/// The string made of the characters `v[from..to]`.
pub(crate) fn text_of_range(v: &Vec<char>, from: usize, to: usize) -> (out: String)
    requires
        from <= to <= v.len(),
    ensures
        out@ == v@.subrange(from as int, to as int),
{
    let mut out = String::new();
    let mut i: usize = from;
    while i < to
        invariant
            from <= i <= to <= v.len(),
            out@ == v@.subrange(from as int, i as int),
        decreases to - i,
    {
        push_char(&mut out, v[i]);
        i += 1;
    }
    out
}

/// The string made of the characters of `v`.
pub fn text_of(v: &Vec<char>) -> (out: String)
    ensures
        out@ == v@,
{
    text_of_range(v, 0, v.len())
}

/// Whether `c` is white space.
pub fn is_space(c: char) -> (b: bool)
    ensures
        b == is_whitespace(c),
{
    let n: u32 = c as u32;
    (0x09 <= n && n <= 0x0D) || n == 0x20 || n == 0x85 || n == 0xA0 || n == 0x1680 || (0x2000 <= n
        && n <= 0x200A) || n == 0x2028 || n == 0x2029 || n == 0x202F || n == 0x205F || n == 0x3000
}

/// Dropping white space at the start of `s` step by step: what is left once
/// `s[..n]` is known to be white space.
proof fn lemma_trimmed_start_skip(s: Seq<char>, n: int)
    requires
        0 <= n <= s.len(),
        forall|i: int| 0 <= i < n ==> is_whitespace(#[trigger] s[i]),
    ensures
        trimmed_start(s) == trimmed_start(s.skip(n)),
    decreases n,
{
    if n == 0 {
        assert(s.skip(0) =~= s);
    } else {
        lemma_trimmed_start_skip(s, n - 1);
        let t = s.skip(n - 1);
        assert(t.first() == s[n - 1]);
        assert(t.drop_first() =~= s.skip(n));
    }
}

/// Dropping white space at the end of `s` step by step: what is left once
/// `s[n..]` is known to be white space.
proof fn lemma_trimmed_end_take(s: Seq<char>, n: int)
    requires
        0 <= n <= s.len(),
        forall|i: int| n <= i < s.len() ==> is_whitespace(#[trigger] s[i]),
    ensures
        trimmed_end(s) == trimmed_end(s.take(n)),
    decreases s.len() - n,
{
    if n == s.len() {
        assert(s.take(n) =~= s);
    } else {
        lemma_trimmed_end_take(s, n + 1);
        let t = s.take(n + 1);
        assert(t.last() == s[n]);
        assert(t.drop_last() =~= s.take(n));
    }
}

/// What trimming leaves: a stretch of the text with nothing but white space
/// before it and behind it, that neither starts nor ends with white space.
pub proof fn lemma_trimmed(s: Seq<char>) -> (bounds: (int, int))
    ensures
        0 <= bounds.0 <= bounds.1 <= s.len(),
        trimmed(s) == s.subrange(bounds.0, bounds.1),
        forall|i: int| 0 <= i < bounds.0 ==> is_whitespace(#[trigger] s[i]),
        forall|i: int| bounds.1 <= i < s.len() ==> is_whitespace(#[trigger] s[i]),
        trimmed(s).len() > 0 ==> !is_whitespace(trimmed(s).first()) && !is_whitespace(
            trimmed(s).last(),
        ),
{
    let from = lemma_trimmed_start_bound(s);
    let rest = s.skip(from);
    let len = lemma_trimmed_end_bound(rest);
    assert(rest.take(len) =~= s.subrange(from, from + len));
    assert forall|i: int| from + len <= i < s.len() implies is_whitespace(#[trigger] s[i]) by {
        assert(s[i] == rest[i - from]);
    }
    if trimmed(s).len() > 0 {
        assert(trimmed(s).first() == rest.first());
    }
    (from, from + len)
}

/// Where the text without the white space it starts with begins.
proof fn lemma_trimmed_start_bound(s: Seq<char>) -> (from: int)
    ensures
        0 <= from <= s.len(),
        trimmed_start(s) == s.skip(from),
        forall|i: int| 0 <= i < from ==> is_whitespace(#[trigger] s[i]),
        from < s.len() ==> !is_whitespace(s[from]),
    decreases s.len(),
{
    if s.len() > 0 && is_whitespace(s.first()) {
        let rest = s.drop_first();
        let inner = lemma_trimmed_start_bound(rest);
        assert(rest.skip(inner) =~= s.skip(inner + 1));
        assert forall|i: int| 0 <= i < inner + 1 implies is_whitespace(#[trigger] s[i]) by {
            if i > 0 {
                assert(s[i] == rest[i - 1]);
            }
        }
        if inner < rest.len() {
            assert(s[inner + 1] == rest[inner]);
        }
        inner + 1
    } else {
        assert(s.skip(0) =~= s);
        0
    }
}

/// Where the text without the white space it ends with ends.
proof fn lemma_trimmed_end_bound(s: Seq<char>) -> (to: int)
    ensures
        0 <= to <= s.len(),
        trimmed_end(s) == s.take(to),
        forall|i: int| to <= i < s.len() ==> is_whitespace(#[trigger] s[i]),
        to > 0 ==> !is_whitespace(s[to - 1]),
    decreases s.len(),
{
    if s.len() > 0 && is_whitespace(s.last()) {
        let rest = s.drop_last();
        let inner = lemma_trimmed_end_bound(rest);
        assert(rest.take(inner) =~= s.take(inner));
        assert forall|i: int| inner <= i < s.len() implies is_whitespace(#[trigger] s[i]) by {
            if i < s.len() - 1 {
                assert(s[i] == rest[i]);
            }
        }
        inner
    } else {
        assert(s.take(s.len() as int) =~= s);
        s.len() as int
    }
}

/// The characters `v[from..to]` without the white space at either end.
pub(crate) fn trim_range(v: &Vec<char>, from: usize, to: usize) -> (out: String)
    requires
        from <= to <= v.len(),
    ensures
        out@ == trimmed(v@.subrange(from as int, to as int)),
{
    let ghost s = v@.subrange(from as int, to as int);
    let mut lo: usize = from;
    while lo < to && is_space(v[lo])
        invariant
            from <= lo <= to <= v.len(),
            s == v@.subrange(from as int, to as int),
            forall|i: int| 0 <= i < lo - from ==> is_whitespace(#[trigger] s[i]),
        decreases to - lo,
    {
        assert(s[lo - from] == v@[lo as int]);
        lo += 1;
    }
    let mut hi: usize = to;
    while hi > lo && is_space(v[hi - 1])
        invariant
            from <= lo <= hi <= to <= v.len(),
            s == v@.subrange(from as int, to as int),
            forall|i: int| hi - from <= i < s.len() ==> is_whitespace(#[trigger] s[i]),
        decreases hi,
    {
        assert(s[hi - 1 - from] == v@[hi - 1]);
        hi -= 1;
    }
    proof {
        let rest = s.skip(lo - from);
        let kept = v@.subrange(lo as int, hi as int);
        lemma_trimmed_start_skip(s, lo - from);
        if lo < to {
            assert(rest.first() == v@[lo as int]);
        }
        assert(trimmed_start(rest) == rest);
        assert forall|i: int| hi - lo <= i < rest.len() implies is_whitespace(
            #[trigger] rest[i],
        ) by {
            assert(rest[i] == s[i + lo - from]);
        }
        lemma_trimmed_end_take(rest, hi - lo);
        assert(rest.take(hi - lo) =~= kept);
        assert(trimmed_end(kept) == kept) by {
            if kept.len() > 0 {
                assert(kept.last() == v@[hi - 1]);
            }
        }
    }
    text_of_range(v, lo, hi)
}

/// `s` without the white space at either end.
pub fn trim(s: &str) -> (out: String)
    ensures
        out@ == trimmed(s@),
{
    let v = chars_of(s);
    assert(v@.subrange(0, v@.len() as int) =~= v@);
    trim_range(&v, 0, v.len())
}

/// What `first_index` finds: the place of the first `c`, with no `c` before
/// it, or the length of `s` where `s` holds no `c`.
pub proof fn lemma_first_index<A>(s: Seq<A>, c: A)
    ensures
        0 <= first_index(s, c) <= s.len(),
        first_index(s, c) < s.len() ==> s[first_index(s, c)] == c,
        forall|i: int| 0 <= i < first_index(s, c) ==> #[trigger] s[i] != c,
    decreases s.len(),
{
    if s.len() > 0 && s.first() != c {
        let rest = s.drop_first();
        lemma_first_index(rest, c);
        assert forall|i: int| 0 <= i < first_index(s, c) implies #[trigger] s[i] != c by {
            if i > 0 {
                assert(s[i] == rest[i - 1]);
            }
        }
    }
}

/// What `last_index` finds: the place of the last `c`, with no `c` behind it,
/// or `-1` where `s` holds no `c`.
pub proof fn lemma_last_index<A>(s: Seq<A>, c: A)
    ensures
        -1 <= last_index(s, c) < s.len(),
        last_index(s, c) >= 0 ==> s[last_index(s, c)] == c,
        forall|i: int| last_index(s, c) < i < s.len() ==> #[trigger] s[i] != c,
    decreases s.len(),
{
    if s.len() > 0 && s.last() != c {
        let rest = s.drop_last();
        lemma_last_index(rest, c);
        assert forall|i: int| last_index(s, c) < i < s.len() implies #[trigger] s[i] != c by {
            if i < s.len() - 1 {
                assert(s[i] == rest[i]);
            }
        }
    }
}

/// An index with no `c` before it, that holds `c` or is the length of `s`, is
/// the one `first_index` finds.
pub proof fn lemma_first_index_found<A>(s: Seq<A>, c: A, n: int)
    requires
        0 <= n <= s.len(),
        forall|i: int| 0 <= i < n ==> #[trigger] s[i] != c,
        n < s.len() ==> s[n] == c,
    ensures
        first_index(s, c) == n,
{
    lemma_first_index(s, c);
}

/// An index with no `c` behind it, that holds `c` or is `-1`, is the one
/// `last_index` finds.
pub proof fn lemma_last_index_found<A>(s: Seq<A>, c: A, n: int)
    requires
        -1 <= n < s.len(),
        forall|i: int| n < i < s.len() ==> #[trigger] s[i] != c,
        n >= 0 ==> s[n] == c,
    ensures
        last_index(s, c) == n,
{
    lemma_last_index(s, c);
}

/// The place of the first `c` in `v`, or the length of `v` where there is
/// none.
pub fn find_first(v: &Vec<char>, c: char) -> (at: usize)
    ensures
        at == first_index(v@, c),
        at <= v.len(),
        at < v.len() ==> v@[at as int] == c,
{
    let mut at: usize = 0;
    while at < v.len() && v[at] != c
        invariant
            at <= v.len(),
            forall|i: int| 0 <= i < at ==> #[trigger] v@[i] != c,
        decreases v.len() - at,
    {
        at += 1;
    }
    proof {
        lemma_first_index_found(v@, c, at as int);
    }
    at
}

/// The place of the last `c` in `v`, or `None` where there is none.
pub fn find_last(v: &Vec<char>, c: char) -> (at: Option<usize>)
    ensures
        match at {
            Some(i) => i == last_index(v@, c) && i < v.len() && v@[i as int] == c,
            None => last_index(v@, c) == -1,
        },
{
    let mut next: usize = v.len();
    while next > 0 && v[next - 1] != c
        invariant
            next <= v.len(),
            forall|i: int| next <= i < v.len() ==> #[trigger] v@[i] != c,
        decreases next,
    {
        next -= 1;
    }
    proof {
        lemma_last_index_found(v@, c, next - 1);
    }
    if next == 0 {
        None
    } else {
        Some(next - 1)
    }
}

/// Whether `pattern` stands in `v` at index `at`.
pub(crate) fn starts_with_at(v: &Vec<char>, at: usize, pattern: &Vec<char>) -> (b: bool)
    requires
        at <= v.len(),
    ensures
        b == pattern@.is_prefix_of(v@.skip(at as int)),
{
    if v.len() - at < pattern.len() {
        return false;
    }
    let mut k: usize = 0;
    while k < pattern.len()
        invariant
            at <= v.len(),
            pattern.len() <= v.len() - at,
            k <= pattern.len(),
            forall|i: int| 0 <= i < k ==> pattern@[i] == #[trigger] v@[at + i],
        decreases pattern.len() - k,
    {
        if v[at + k] != pattern[k] {
            proof {
                let rest = v@.skip(at as int);
                assert(rest.subrange(0, pattern@.len() as int)[k as int] == v@[at + k]);
            }
            return false;
        }
        k += 1;
    }
    proof {
        let rest = v@.skip(at as int);
        assert forall|i: int| 0 <= i < pattern@.len() implies pattern@[i] == rest.subrange(
            0,
            pattern@.len() as int,
        )[i] by {
            assert(rest[i] == v@[at + i]);
        }
    }
    true
}

/// Appends the characters of `more` to `out`.
pub fn extend(out: &mut Vec<char>, more: &Vec<char>)
    ensures
        final(out)@ == old(out)@ + more@,
{
    let mut k: usize = 0;
    while k < more.len()
        invariant
            k <= more.len(),
            out@ == old(out)@ + more@.take(k as int),
        decreases more.len() - k,
    {
        out.push(more[k]);
        k += 1;
    }
    assert(more@.take(more@.len() as int) =~= more@);
}

/// `s` with every occurrence of `pattern` replaced by `replacement`, on
/// characters.
pub fn replace_chars(s: &Vec<char>, pattern: &Vec<char>, replacement: &Vec<char>) -> (out: Vec<
    char,
>)
    ensures
        out@ == replaced(s@, pattern@, replacement@),
{
    let mut out: Vec<char> = Vec::new();
    if pattern.len() == 0 {
        extend(&mut out, s);
        return out;
    }
    let mut at: usize = 0;
    assert(s@.skip(0) =~= s@);
    while at < s.len()
        invariant
            at <= s.len(),
            pattern@.len() > 0,
            out@ + replaced(s@.skip(at as int), pattern@, replacement@) == replaced(
                s@,
                pattern@,
                replacement@,
            ),
        decreases s.len() - at,
    {
        let ghost rest = s@.skip(at as int);
        let ghost done = out@;
        if starts_with_at(s, at, pattern) {
            extend(&mut out, replacement);
            at += pattern.len();
            proof {
                let tail = s@.skip(at as int);
                assert(rest.skip(pattern@.len() as int) =~= tail);
                assert(out@ + replaced(tail, pattern@, replacement@) =~= done + replaced(
                    rest,
                    pattern@,
                    replacement@,
                ));
            }
        } else {
            out.push(s[at]);
            at += 1;
            proof {
                let tail = s@.skip(at as int);
                assert(rest.first() == s@[at - 1]);
                assert(rest.drop_first() =~= tail);
                if rest.len() < pattern@.len() {
                    assert(replaced(tail, pattern@, replacement@) == tail);
                    assert(seq![rest.first()] + tail =~= rest);
                }
                assert(out@ + replaced(tail, pattern@, replacement@) =~= done + replaced(
                    rest,
                    pattern@,
                    replacement@,
                ));
            }
        }
    }
    assert(s@.skip(s@.len() as int) =~= Seq::<char>::empty());
    out
}

/// `s` with every occurrence of `pattern` replaced by `replacement`.
///
/// An empty pattern occurs nowhere: the text comes back as it is.
pub fn replace(s: &str, pattern: &str, replacement: &str) -> (out: String)
    ensures
        out@ == replaced(s@, pattern@, replacement@),
{
    let text = chars_of(s);
    let sought = chars_of(pattern);
    let put = chars_of(replacement);
    let done = replace_chars(&text, &sought, &put);
    text_of(&done)
}

/// `s` without the copies of `prefix` it starts with.
pub fn strip_prefixes(s: &str, prefix: &str) -> (out: String)
    ensures
        out@ == without_prefixes(s@, prefix@),
{
    let text = chars_of(s);
    let sought = chars_of(prefix);
    let mut at: usize = 0;
    assert(text@.skip(0) =~= text@);
    if sought.len() > 0 {
        while starts_with_at(&text, at, &sought)
            invariant
                at <= text.len(),
                sought@.len() > 0,
                without_prefixes(text@.skip(at as int), sought@) == without_prefixes(
                    text@,
                    sought@,
                ),
            decreases text.len() - at,
        {
            proof {
                assert(text@.skip(at as int).skip(sought@.len() as int) =~= text@.skip(
                    at + sought@.len(),
                ));
            }
            at += sought.len();
        }
    }
    text_of_range(&text, at, text.len())
}

/// A pattern stands nowhere in a stretch of text that does not hold its
/// first character.
pub proof fn lemma_occurs_only_at_first_char(s: Seq<char>, pattern: Seq<char>, end: int)
    requires
        pattern.len() > 0,
        forall|i: int| 0 <= i < end && i < s.len() ==> #[trigger] s[i] != pattern.first(),
    ensures
        !occurs_before(s, pattern, end),
{
    assert forall|at: int| 0 <= at < end implies !occurs_at(s, pattern, at) by {
        if occurs_at(s, pattern, at) {
            assert(s.skip(at).subrange(0, pattern.len() as int)[0] == s[at]);
        }
    }
}

/// A text that holds no occurrence of the pattern is left as it is.
pub proof fn lemma_replaced_absent(s: Seq<char>, pattern: Seq<char>, replacement: Seq<char>)
    requires
        !occurs_before(s, pattern, s.len() as int),
    ensures
        replaced(s, pattern, replacement) == s,
    decreases s.len(),
{
    if pattern.len() > 0 && s.len() >= pattern.len() {
        assert(!occurs_at(s, pattern, 0));
        assert(s.skip(0) =~= s);
        let rest = s.drop_first();
        assert forall|at: int| 0 <= at < rest.len() implies !occurs_at(rest, pattern, at) by {
            assert(!occurs_at(s, pattern, at + 1));
            assert(rest.skip(at) =~= s.skip(at + 1));
        }
        lemma_replaced_absent(rest, pattern, replacement);
        assert(seq![s.first()] + rest =~= s);
    }
}

/// Up to the first occurrence of the pattern the text is left as it is;
/// there the replacement is put, and what follows is replaced in turn.
pub proof fn lemma_replaced_first(
    before: Seq<char>,
    pattern: Seq<char>,
    after: Seq<char>,
    replacement: Seq<char>,
)
    requires
        pattern.len() > 0,
        !occurs_before(before + pattern + after, pattern, before.len() as int),
    ensures
        replaced(before + pattern + after, pattern, replacement) == before + replacement
            + replaced(after, pattern, replacement),
    decreases before.len(),
{
    let s = before + pattern + after;
    if before.len() == 0 {
        assert(s.subrange(0, pattern.len() as int) =~= pattern);
        assert(s.skip(pattern.len() as int) =~= after);
        assert(before + replacement + replaced(after, pattern, replacement) =~= replacement
            + replaced(after, pattern, replacement));
    } else {
        assert(!occurs_at(s, pattern, 0));
        assert(s.skip(0) =~= s);
        let rest = before.drop_first();
        assert(s.drop_first() =~= rest + pattern + after);
        assert forall|at: int| 0 <= at < rest.len() implies !occurs_at(
            rest + pattern + after,
            pattern,
            at,
        ) by {
            assert(!occurs_at(s, pattern, at + 1));
            assert((rest + pattern + after).skip(at) =~= s.skip(at + 1));
        }
        lemma_replaced_first(rest, pattern, after, replacement);
        assert(seq![s.first()] + (rest + replacement + replaced(after, pattern, replacement))
            =~= before + replacement + replaced(after, pattern, replacement));
    }
}

/// What stands round one part of a joined text: the parts before it, joined,
/// and a separator if there are any; and, if parts follow, a separator and
/// those parts, joined.
pub proof fn lemma_joined_around(parts: Seq<Seq<char>>, separator: Seq<char>, at: int)
    requires
        0 <= at < parts.len(),
    ensures
        joined(parts, separator) == joined(parts.take(at), separator) + (if at > 0 {
            separator
        } else {
            Seq::empty()
        }) + parts[at] + (if at + 1 < parts.len() {
            separator
        } else {
            Seq::empty()
        }) + joined(parts.skip(at + 1), separator),
    decreases parts.len(),
{
    let empty = Seq::<char>::empty();
    let head = joined(parts.take(at), separator) + (if at > 0 {
        separator
    } else {
        empty
    }) + parts[at];
    if at == parts.len() - 1 {
        assert(parts.take(at) =~= parts.drop_last());
        assert(parts.skip(at + 1) =~= Seq::<Seq<char>>::empty());
        if at == 0 {
            assert(joined(parts, separator) =~= empty + empty + parts[at] + empty + empty);
        } else {
            assert(joined(parts, separator) =~= head + empty + empty);
        }
    } else {
        let front = parts.drop_last();
        let back = parts.skip(at + 1);
        lemma_joined_around(front, separator, at);
        assert(front.take(at) =~= parts.take(at));
        assert(front[at] == parts[at]);
        assert(back.last() == parts.last());
        assert(back.drop_last() =~= front.skip(at + 1));
        if at + 1 == parts.len() - 1 {
            assert(front.skip(at + 1) =~= Seq::<Seq<char>>::empty());
            assert(joined(front, separator) =~= head);
            assert(joined(parts, separator) =~= head + separator + joined(back, separator));
        } else {
            assert(joined(front, separator) =~= head + separator + joined(
                front.skip(at + 1),
                separator,
            ));
            assert(joined(parts, separator) =~= head + separator + joined(back, separator));
        }
    }
}

/// The `parts` in order, with `separator` between each two neighbours.
pub fn join(parts: &Vec<String>, separator: &str) -> (out: String)
    ensures
        out@ == joined(views(parts@), separator@),
{
    let mut out = String::new();
    let mut k: usize = 0;
    while k < parts.len()
        invariant
            k <= parts.len(),
            out@ == joined(views(parts@).take(k as int), separator@),
        decreases parts.len() - k,
    {
        let ghost before = views(parts@).take(k as int);
        let ghost after = views(parts@).take(k + 1);
        if k > 0 {
            out.append(separator);
        }
        out.append(parts[k].as_str());
        k += 1;
        proof {
            assert(after.last() == parts@[k - 1]@);
            assert(after.drop_last() =~= before);
        }
    }
    assert(views(parts@).take(parts@.len() as int) =~= views(parts@));
    out
}

} // verus!
