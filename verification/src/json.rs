//! The JSON boundary.
//!
//! Generic JSON parsing is not this library's business: one trusted
//! wrapper hands a JSON object's entries over as plain values, and the
//! verified code works on those.  A passage's metadata is kept in the
//! library's own [`Metadata`] type.

use crate::scan::str_eq;
use vstd::prelude::*;
use vstd::string::StringExecFns;

verus! {

/// What parsing a JSON object out of a given text yields: on success the
/// object's entries in order, each a key, whether the value is a JSON
/// string, and the value's content (the string's content, or the value
/// re-serialized as compact JSON text); on failure the parser's message
/// and one-based line and column.  The outcome is a function of the text
/// alone.
pub uninterp spec fn json_object_parse(s: Seq<char>) -> Result<
    Seq<(Seq<char>, bool, Seq<char>)>,
    (Seq<char>, int, int),
>;

/// A failed JSON parse: the parser's message and the one-based line and
/// column at which it gave up.
#[derive(Clone, Debug, PartialEq, Eq)]
pub struct JsonFault {
    /// What the JSON parser reported
    pub message: String,

    /// The one-based line of the failure within the parsed text
    pub line: usize,

    /// The one-based column of the failure within that line
    pub column: usize,
}

/// Relies on `serde_json::from_str::<serde_json::Map<String, serde_json::Value>>`
/// to parse a JSON object, on `serde_json::Map`'s iteration for its entries in
/// order, on `serde_json::Value::as_str` to tell JSON strings from other values,
/// on `serde_json::Value`'s `Display` for the compact text of the others, and on
/// `serde_json::Error::{to_string, line, column}` for what a failure reports.
#[verifier::external_body]
pub(crate) fn parse_json_object(s: &str) -> (r: Result<Vec<(String, bool, String)>, JsonFault>)
    ensures
        (match (r, json_object_parse(s@)) {
            (Ok(v), Ok(m)) => v@.map_values(|e: (String, bool, String)| (e.0@, e.1, e.2@)) == m,
            (Err(f), Err(m)) => (f.message@, f.line as int, f.column as int) == m,
            _ => false,
        }),
{
    match serde_json::from_str::<serde_json::Map<String, serde_json::Value>>(s) {
        Ok(map) => Ok(
            map.into_iter().map(
                |(k, v)| match v.as_str() {
                    Some(t) => (k, true, t.to_string()),
                    None => (k, false, v.to_string()),
                },
            ).collect(),
        ),
        Err(e) => Err(JsonFault { message: e.to_string(), line: e.line(), column: e.column() }),
    }
}

/// One metadata value: whether it was a JSON string, and its content (the
/// string's content, or the value's compact JSON text).
#[derive(Clone, Debug, PartialEq, Eq)]
pub struct MetadataValue {
    /// Whether the value was a JSON string
    pub is_string: bool,

    /// The string's content, or the value's compact JSON text
    pub text: String,
}

/// A passage's metadata: keyed values in insertion order, keys unique.
#[derive(Clone, Debug, PartialEq, Eq)]
pub struct Metadata {
    entries: Vec<(String, MetadataValue)>,
}

/// One metadata entry as the specifications see it: key, whether the
/// value is a JSON string, and the value's content.
pub type MetadataEntry = (Seq<char>, bool, Seq<char>);

/// Replaces the value of `key` in `entries`, or appends the new entry if
/// the key is not there yet.
pub open spec fn set_entry(entries: Seq<MetadataEntry>, e: MetadataEntry) -> Seq<MetadataEntry>
    decreases entries.len(),
{
    if entries.len() == 0 {
        seq![e]
    } else if entries[0].0 == e.0 {
        seq![e] + entries.subrange(1, entries.len() as int)
    } else {
        seq![entries[0]] + set_entry(entries.subrange(1, entries.len() as int), e)
    }
}

/// Applies `set_entry` for each of `es` in turn.
pub open spec fn set_entries(entries: Seq<MetadataEntry>, es: Seq<MetadataEntry>) -> Seq<
    MetadataEntry,
>
    decreases es.len(),
{
    if es.len() == 0 {
        entries
    } else {
        set_entries(set_entry(entries, es[0]), es.subrange(1, es.len() as int))
    }
}

/// The value stored under `key`, if any.
pub open spec fn lookup_entry(entries: Seq<MetadataEntry>, key: Seq<char>) -> Option<(bool, Seq<
    char,
>)>
    decreases entries.len(),
{
    if entries.len() == 0 {
        None
    } else if entries[0].0 == key {
        Some((entries[0].1, entries[0].2))
    } else {
        lookup_entry(entries.subrange(1, entries.len() as int), key)
    }
}

/// The two metadata entries every passage starts out with.
pub open spec fn default_metadata_entries() -> Seq<MetadataEntry> {
    seq![("position"@, true, "10,10"@), ("size"@, true, "100,100"@)]
}

impl Metadata {
    /// The entries this metadata holds, in order.
    pub closed spec fn spec_entries(&self) -> Seq<MetadataEntry> {
        self.entries@.map_values(|e: (String, MetadataValue)| (e.0@, e.1.is_string, e.1.text@))
    }

    /// The default metadata: position "10,10" and size "100,100".
    pub fn defaults() -> (r: Metadata)
        ensures
            r.spec_entries() == default_metadata_entries(),
    {
        let mut entries: Vec<(String, MetadataValue)> = Vec::new();
        entries.push(
            (String::from_str("position"), MetadataValue {
                is_string: true,
                text: String::from_str("10,10"),
            }),
        );
        entries.push(
            (String::from_str("size"), MetadataValue {
                is_string: true,
                text: String::from_str("100,100"),
            }),
        );
        let r = Metadata { entries };
        proof {
            assert(r.spec_entries() =~= default_metadata_entries());
        }
        r
    }

    /// Stores `value` under `key`, replacing any value the key already
    /// had and keeping the key's place; a new key goes to the end.
    pub fn set(&mut self, key: String, value: MetadataValue)
        ensures
            final(self).spec_entries() == set_entry(
                old(self).spec_entries(),
                (key@, value.is_string, value.text@),
            ),
    {
        let ghost orig = self.spec_entries();
        let ghost gkey = key@;
        let ghost gval = (value.is_string, value.text@);
        let n = self.entries.len();
        let mut i: usize = 0;
        while i < n
            invariant
                i <= n,
                n == self.entries@.len(),
                orig == old(self).spec_entries(),
                gkey == key@,
                gval == (value.is_string, value.text@),
                self.spec_entries() == orig,
                forall|j: int| 0 <= j < i ==> orig[j].0 != key@,
            decreases n - i,
        {
            proof {
                assert(self.spec_entries()[i as int] == (self.entries@[i as int].0@,
                self.entries@[i as int].1.is_string, self.entries@[i as int].1.text@));
            }
            if str_eq(self.entries[i].0.as_str(), key.as_str()) {
                let replaced = (key, value);
                self.entries.set(i, replaced);
                proof {
                    lemma_set_entry_at(orig, (gval.0, gkey, gval.1), i as int);
                    assert(self.spec_entries() =~= orig.update(i as int, (gkey, gval.0, gval.1)));
                    assert(self.spec_entries() == set_entry(orig, (gkey, gval.0, gval.1)));
                }
                return ;
            }
            i += 1;
        }
        self.entries.push((key, value));
        proof {
            lemma_set_entry_missing(orig, (gkey, gval.0, gval.1));
            assert(self.spec_entries() =~= orig.push((gkey, gval.0, gval.1)));
        }
    }

    /// Hands back the value stored under `key`, if any.
    pub fn get(&self, key: &str) -> (r: Option<&MetadataValue>)
        ensures
            (match r {
                Some(v) => lookup_entry(self.spec_entries(), key@) == Some((v.is_string, v.text@)),
                None => lookup_entry(self.spec_entries(), key@) is None,
            }),
    {
        let n = self.entries.len();
        proof {
            assert(self.spec_entries().subrange(0, n as int) =~= self.spec_entries());
        }
        let mut i: usize = 0;
        while i < n
            invariant
                i <= n,
                n == self.entries@.len(),
                lookup_entry(self.spec_entries(), key@) == lookup_entry(
                    self.spec_entries().subrange(i as int, n as int),
                    key@,
                ),
            decreases n - i,
        {
            proof {
                let tail = self.spec_entries().subrange(i as int, n as int);
                assert(tail[0] == self.spec_entries()[i as int]);
                assert(tail.subrange(1, tail.len() as int) =~= self.spec_entries().subrange(
                    i as int + 1,
                    n as int,
                ));
            }
            if str_eq(self.entries[i].0.as_str(), key) {
                return Some(&self.entries[i].1);
            }
            i += 1;
        }
        proof {
            assert(self.spec_entries().subrange(n as int, n as int) =~= Seq::<
                MetadataEntry,
            >::empty());
        }
        None
    }
}

/// If `key` sits at position `i` of `entries` and nowhere earlier,
/// setting it replaces position `i` and keeps the rest.
proof fn lemma_set_entry_at(entries: Seq<MetadataEntry>, e_hint: (bool, Seq<char>, Seq<char>), i: int)
    requires
        0 <= i < entries.len(),
        entries[i].0 == e_hint.1,
        forall|j: int| 0 <= j < i ==> entries[j].0 != e_hint.1,
    ensures
        set_entry(entries, (e_hint.1, e_hint.0, e_hint.2)) == entries.update(
            i,
            (e_hint.1, e_hint.0, e_hint.2),
        ),
    decreases i,
{
    let e = (e_hint.1, e_hint.0, e_hint.2);
    if i == 0 {
        assert(set_entry(entries, e) =~= entries.update(0, e));
    } else {
        let tail = entries.subrange(1, entries.len() as int);
        lemma_set_entry_at(tail, e_hint, i - 1);
        assert(seq![entries[0]] + tail.update(i - 1, e) =~= entries.update(i, e));
    }
}

/// If `key` is nowhere in `entries`, setting it appends.
proof fn lemma_set_entry_missing(entries: Seq<MetadataEntry>, e: MetadataEntry)
    requires
        forall|j: int| 0 <= j < entries.len() ==> entries[j].0 != e.0,
    ensures
        set_entry(entries, e) == entries.push(e),
    decreases entries.len(),
{
    if entries.len() == 0 {
        assert(set_entry(entries, e) =~= entries.push(e));
    } else {
        let tail = entries.subrange(1, entries.len() as int);
        lemma_set_entry_missing(tail, e);
        assert(seq![entries[0]] + tail.push(e) =~= entries.push(e));
    }
}

} // verus!

verus! {

/// Folding one more entry onto a run of sets.
pub proof fn lemma_set_entries_push(
    d: Seq<MetadataEntry>,
    es: Seq<MetadataEntry>,
    e: MetadataEntry,
)
    ensures
        set_entries(d, es.push(e)) == set_entry(set_entries(d, es), e),
    decreases es.len(),
{
    if es.len() == 0 {
        assert(es.push(e)[0] == e);
        assert(es.push(e).subrange(1, 1) =~= Seq::<MetadataEntry>::empty());
        assert(set_entries(d, es.push(e)) == set_entries(
            set_entry(d, e),
            Seq::<MetadataEntry>::empty(),
        ));
        assert(set_entries(set_entry(d, e), Seq::<MetadataEntry>::empty()) == set_entry(d, e));
        assert(set_entries(d, es) == d);
    } else {
        assert(es.push(e)[0] == es[0]);
        assert(es.push(e).subrange(1, es.len() as int + 1) =~= es.subrange(
            1,
            es.len() as int,
        ).push(e));
        lemma_set_entries_push(set_entry(d, es[0]), es.subrange(1, es.len() as int), e);
        assert(set_entries(d, es.push(e)) == set_entries(
            set_entry(d, es[0]),
            es.subrange(1, es.len() as int).push(e),
        ));
        assert(set_entries(d, es) == set_entries(
            set_entry(d, es[0]),
            es.subrange(1, es.len() as int),
        ));
    }
}

} // verus!
