//! The substitution set: which variable stands for which text.
//!
//! A set is filled from entries of the form `KEY=VALUE`. It holds each key
//! once. A key that comes again takes the new value and keeps its place, so
//! the set lists its keys in the order in which they first came.

use crate::text::{
    chars_of, find_first, first_index, lemma_first_index, lemma_first_index_found, trim_range,
    trimmed, views,
};
use vstd::prelude::*;

verus! {

/// One substitution as text: the key, then the value.
pub type Entry = (Seq<char>, Seq<char>);

/// The keys of `entries`, in order.
pub open spec fn keys(entries: Seq<Entry>) -> Seq<Seq<char>> {
    entries.map_values(|e: Entry| e.0)
}

/// Whether each key of `entries` occurs once.
pub open spec fn distinct_keys(entries: Seq<Entry>) -> bool {
    keys(entries).no_duplicates()
}

/// The value that `entries` gives for `key`, if any.
pub open spec fn value_of(entries: Seq<Entry>, key: Seq<char>) -> Option<Seq<char>> {
    let at = first_index(keys(entries), key);
    if at < entries.len() {
        Some(entries[at].1)
    } else {
        None
    }
}

/// `entries` once `key` is given `value`: the entry of `key` is replaced
/// where there is one, and a new entry comes last where there is none.
pub open spec fn inserted(entries: Seq<Entry>, key: Seq<char>, value: Seq<char>) -> Seq<Entry> {
    let at = first_index(keys(entries), key);
    if at < entries.len() {
        entries.update(at, (key, value))
    } else {
        entries.push((key, value))
    }
}

/// What the entry `KEY=VALUE` defines: the text before the first `=` as the
/// key, and all the text behind that `=` as the value, each without the white
/// space around it. A value may hold `=` itself. An entry without `=` defines
/// nothing.
pub open spec fn define_of(entry: Seq<char>) -> Option<Entry> {
    let at = first_index(entry, '=');
    if at == entry.len() {
        None
    } else {
        Some((trimmed(entry.take(at)), trimmed(entry.skip(at + 1))))
    }
}

/// The set that `entries` fill, taken from first to last.
pub open spec fn collected(entries: Seq<Seq<char>>) -> Seq<Entry>
    decreases entries.len(),
{
    if entries.len() == 0 {
        Seq::empty()
    } else {
        let before = collected(entries.drop_last());
        match define_of(entries.last()) {
            Some(define) => inserted(before, define.0, define.1),
            None => before,
        }
    }
}

/// The value that the last of `entries` to define `key` gives it, if any of
/// them defines it.
pub open spec fn last_defined(entries: Seq<Seq<char>>, key: Seq<char>) -> Option<Seq<char>>
    decreases entries.len(),
{
    if entries.len() == 0 {
        None
    } else {
        match define_of(entries.last()) {
            Some(define) => if define.0 == key {
                Some(define.1)
            } else {
                last_defined(entries.drop_last(), key)
            },
            None => last_defined(entries.drop_last(), key),
        }
    }
}

/// An entry made of a key that holds no `=`, then `=`, then a value, defines
/// that key and all of that value, each without the white space around it.
pub proof fn lemma_define_of_key_and_value(key: Seq<char>, value: Seq<char>)
    requires
        !key.contains('='),
    ensures
        define_of(key + seq!['='] + value) == Some((trimmed(key), trimmed(value))),
{
    let entry = key + seq!['='] + value;
    assert forall|i: int| 0 <= i < key.len() implies #[trigger] entry[i] != '=' by {
        assert(key.contains(key[i]));
    }
    lemma_first_index_found(entry, '=', key.len() as int);
    assert(entry.take(key.len() as int) =~= key);
    assert(entry.skip(key.len() as int + 1) =~= value);
}

/// Giving a key a value keeps every key single.
pub proof fn lemma_inserted_distinct(entries: Seq<Entry>, key: Seq<char>, value: Seq<char>)
    requires
        distinct_keys(entries),
    ensures
        distinct_keys(inserted(entries, key, value)),
{
    lemma_first_index(keys(entries), key);
    let at = first_index(keys(entries), key);
    let after = inserted(entries, key, value);
    if at < entries.len() {
        assert(keys(after) =~= keys(entries));
    } else {
        assert(keys(after) =~= keys(entries).push(key));
    }
}

/// A set gives back the value that a key was last given, and what it says of
/// any other key is as before.
pub proof fn lemma_inserted_value(
    entries: Seq<Entry>,
    key: Seq<char>,
    value: Seq<char>,
    other: Seq<char>,
)
    ensures
        value_of(inserted(entries, key, value), key) == Some(value),
        other != key ==> value_of(inserted(entries, key, value), other) == value_of(
            entries,
            other,
        ),
{
    lemma_first_index(keys(entries), key);
    lemma_first_index(keys(entries), other);
    let at = first_index(keys(entries), key);
    let after = inserted(entries, key, value);
    if at < entries.len() {
        assert(keys(after) =~= keys(entries));
    } else {
        assert(keys(after) =~= keys(entries).push(key));
        lemma_first_index_found(keys(after), key, at);
        if other != key {
            let found = first_index(keys(entries), other);
            if found < entries.len() {
                lemma_first_index_found(keys(after), other, found);
            } else {
                lemma_first_index_found(keys(after), other, found + 1);
            }
        }
    }
}

/// The set that any entries fill holds each key once.
pub proof fn lemma_collected_distinct(entries: Seq<Seq<char>>)
    ensures
        distinct_keys(collected(entries)),
    decreases entries.len(),
{
    if entries.len() > 0 {
        lemma_collected_distinct(entries.drop_last());
        match define_of(entries.last()) {
            Some(define) => lemma_inserted_distinct(
                collected(entries.drop_last()),
                define.0,
                define.1,
            ),
            None => {},
        }
    }
}

/// The set that entries fill says of each key what the last entry to define
/// it says.
pub proof fn lemma_collected_value(entries: Seq<Seq<char>>, key: Seq<char>)
    ensures
        value_of(collected(entries), key) == last_defined(entries, key),
    decreases entries.len(),
{
    if entries.len() == 0 {
        lemma_first_index(keys(collected(entries)), key);
    } else {
        lemma_collected_value(entries.drop_last(), key);
        match define_of(entries.last()) {
            Some(define) => lemma_inserted_value(
                collected(entries.drop_last()),
                define.0,
                define.1,
                key,
            ),
            None => {},
        }
    }
}

/// What the entry `KEY=VALUE` defines, if anything.
pub fn parse_define(entry: &str) -> (out: Option<(String, String)>)
    ensures
        match out {
            Some(define) => define_of(entry@) == Some((define.0@, define.1@)),
            None => define_of(entry@) is None,
        },
{
    let v = chars_of(entry);
    let at = find_first(&v, '=');
    if at == v.len() {
        return None;
    }
    let key = trim_range(&v, 0, at);
    let value = trim_range(&v, at + 1, v.len());
    Some((key, value))
}

/// The pairs of strings `pairs` as text.
pub open spec fn entries_of(pairs: Seq<(String, String)>) -> Seq<Entry> {
    pairs.map_values(|e: (String, String)| (e.0@, e.1@))
}

/// A substitution set.
#[derive(Debug, PartialEq, Eq)]
pub struct Defines {
    entries: Vec<(String, String)>,
}

impl View for Defines {
    type V = Seq<Entry>;

    /// The entries as text, in the order in which their keys first came.
    closed spec fn view(&self) -> Seq<Entry> {
        entries_of(self.entries@)
    }
}

impl Defines {
    #[verifier::type_invariant]
    spec fn well_formed(&self) -> bool {
        distinct_keys(self@)
    }

    /// The empty set.
    pub fn new() -> (out: Defines)
        ensures
            out@ == Seq::<Entry>::empty(),
    {
        let out = Defines { entries: Vec::new() };
        assert(out@ =~= Seq::<Entry>::empty());
        out
    }

    /// The number of keys. Each key is held once.
    pub fn len(&self) -> (n: usize)
        ensures
            n == self@.len(),
            distinct_keys(self@),
    {
        proof {
            use_type_invariant(self);
        }
        self.entries.len()
    }

    /// Whether the set holds no key.
    pub fn is_empty(&self) -> (b: bool)
        ensures
            b == (self@.len() == 0),
    {
        self.entries.len() == 0
    }

    /// The place of `key` among the keys, or the number of keys where the set
    /// does not hold it.
    fn index_of(&self, key: &String) -> (at: usize)
        ensures
            at == first_index(keys(self@), key@),
            at <= self@.len(),
    {
        let mut at: usize = 0;
        while at < self.entries.len() && self.entries[at].0 != *key
            invariant
                at <= self.entries.len(),
                forall|i: int| 0 <= i < at ==> #[trigger] keys(self@)[i] != key@,
            decreases self.entries.len() - at,
        {
            at += 1;
        }
        proof {
            lemma_first_index_found(keys(self@), key@, at as int);
        }
        at
    }

    /// The place of `key` among the keys, if the set holds it.
    pub fn position(&self, key: &str) -> (out: Option<usize>)
        ensures
            match out {
                Some(at) => at < self@.len() && at == first_index(keys(self@), key@),
                None => first_index(keys(self@), key@) == self@.len(),
            },
    {
        let at = self.index_of(&String::from_str(key));
        if at < self.entries.len() {
            Some(at)
        } else {
            None
        }
    }

    /// The value that the set gives for `key`, if any.
    pub fn get(&self, key: &str) -> (out: Option<String>)
        ensures
            match out {
                Some(value) => value_of(self@, key@) == Some(value@),
                None => value_of(self@, key@) is None,
            },
    {
        match self.position(key) {
            Some(at) => Some(self.entries[at].1.clone()),
            None => None,
        }
    }

    /// The keys with their values, in the order in which the keys first
    /// came.
    pub fn pairs(&self) -> (out: &Vec<(String, String)>)
        ensures
            entries_of(out@) == self@,
    {
        &self.entries
    }

    /// Gives `key` the value `value`.
    pub fn insert(&mut self, key: String, value: String)
        ensures
            final(self)@ == inserted(old(self)@, key@, value@),
    {
        let ghost before = self@;
        proof {
            use_type_invariant(&*self);
            lemma_inserted_distinct(before, key@, value@);
        }
        let at = self.index_of(&key);
        let mut entries: Vec<(String, String)> = Vec::new();
        core::mem::swap(&mut self.entries, &mut entries);
        if at < entries.len() {
            entries.set(at, (key, value));
        } else {
            entries.push((key, value));
        }
        assert(entries_of(entries@) =~= inserted(before, key@, value@));
        self.entries = entries;
    }

    /// The set that `entries` fill, taken from first to last. An entry that
    /// defines nothing is passed over.
    pub fn parse(entries: &Vec<String>) -> (out: Defines)
        ensures
            out@ == collected(views(entries@)),
    {
        let mut out = Defines::new();
        let mut k: usize = 0;
        while k < entries.len()
            invariant
                k <= entries.len(),
                out@ == collected(views(entries@).take(k as int)),
            decreases entries.len() - k,
        {
            let ghost seen = views(entries@).take(k + 1);
            assert(seen.drop_last() =~= views(entries@).take(k as int));
            assert(seen.last() == entries@[k as int]@);
            match parse_define(entries[k].as_str()) {
                Some(define) => {
                    out.insert(define.0, define.1);
                },
                None => {},
            }
            k += 1;
        }
        assert(views(entries@).take(entries@.len() as int) =~= views(entries@));
        out
    }
}

} // verus!
