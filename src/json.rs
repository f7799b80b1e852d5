//! A structured-document value held as plain data, so that the logic that
//! reads service responses can be verified.
use vstd::prelude::*;
use crate::text::str_eq;

verus! {

/// A number as read from a document: its value when it is an integer that
/// fits in `i64`, its value when it is one that fits in `u64`, and the bit
/// pattern of its value as a double.
#[derive(Debug, Clone, Copy, PartialEq, Eq, Structural)]
pub struct JsonNumber {
    pub int: Option<i64>,
    pub uint: Option<u64>,
    pub float_bits: u64,
}

/// A document value; an object keeps its entries in document order.
#[derive(Debug)]
pub enum Json {
    Null,
    Bool(bool),
    Number(JsonNumber),
    Str(String),
    Array(Vec<Json>),
    Object(Vec<(String, Json)>),
}

/// The value of the first entry named `k`.
pub open spec fn entry_of(entries: Seq<(String, Json)>, k: Seq<char>) -> Option<Json>
    decreases entries.len(),
{
    if entries.len() == 0 {
        None
    } else if entries[0].0@ == k {
        Some(entries[0].1)
    } else {
        entry_of(entries.drop_first(), k)
    }
}

/// The member `k` of an object; nothing for any other value.
pub open spec fn member(v: Json, k: Seq<char>) -> Option<Json> {
    match v {
        Json::Object(entries) => entry_of(entries@, k),
        _ => None,
    }
}

/// The text of a string value.
pub open spec fn text_of(v: Option<Json>) -> Option<Seq<char>> {
    match v {
        Some(Json::Str(s)) => Some(s@),
        _ => None,
    }
}

/// The member `k` of `v`, then its member `k2`.
pub open spec fn member2(v: Json, k: Seq<char>, k2: Seq<char>) -> Option<Json> {
    match member(v, k) {
        Some(m) => member(m, k2),
        None => None,
    }
}

impl Json {
    /// The member `key` of an object: its first entry of that name.
    pub fn get(&self, key: &str) -> (r: Option<&Json>)
        ensures
            r matches Some(x) ==> member(*self, key@) == Some(*x),
            r is None ==> member(*self, key@) is None,
    {
        match self {
            Json::Object(entries) => {
                let mut i: usize = 0;
                assert(entries@.subrange(0, entries@.len() as int) =~= entries@);
                while i < entries.len()
                    invariant
                        i <= entries@.len(),
                        member(*self, key@) == entry_of(entries@, key@),
                        entry_of(entries@, key@) == entry_of(entries@.subrange(i as int, entries@.len() as int), key@),
                    decreases entries@.len() - i,
                {
                    let ghost rest = entries@.subrange(i as int, entries@.len() as int);
                    assert(rest.drop_first() =~= entries@.subrange(i + 1, entries@.len() as int));
                    assert(rest[0] == entries@[i as int]);
                    if str_eq(entries[i].0.as_str(), key) {
                        assert(entry_of(rest, key@) == Some(rest[0].1));
                        return Some(&entries[i].1);
                    }
                    i = i + 1;
                }
                None
            },
            _ => None,
        }
    }

    /// The text of a string value.
    pub fn as_str(&self) -> (r: Option<&str>)
        ensures
            r matches Some(s) ==> text_of(Some(*self)) == Some(s@),
            r is None ==> text_of(Some(*self)) is None,
    {
        match self {
            Json::Str(s) => Some(s.as_str()),
            _ => None,
        }
    }
}

/// The text of the member `key` of `v`, if it is a string.
pub fn get_str<'a>(v: &'a Json, key: &str) -> (r: Option<&'a str>)
    ensures
        r matches Some(s) ==> text_of(member(*v, key@)) == Some(s@),
        r is None ==> text_of(member(*v, key@)) is None,
{
    match v.get(key) {
        Some(m) => m.as_str(),
        None => None,
    }
}

/// Looking a name up after one more entry: an earlier entry of that name
/// wins, else the new entry if it has the name.
pub proof fn lemma_entry_of_push(es: Seq<(String, Json)>, e: (String, Json), k: Seq<char>)
    ensures
        entry_of(es.push(e), k) == if entry_of(es, k) is Some {
            entry_of(es, k)
        } else if e.0@ == k {
            Some(e.1)
        } else {
            None
        },
    decreases es.len(),
{
    if es.len() > 0 {
        assert(es.push(e)[0] == es[0]);
        assert(es.push(e).drop_first() =~= es.drop_first().push(e));
        lemma_entry_of_push(es.drop_first(), e, k);
    } else {
        assert(es.push(e)[0] == e);
        assert(es.push(e).drop_first() =~= Seq::<(String, Json)>::empty());
        assert(entry_of(Seq::<(String, Json)>::empty(), k) is None);
    }
}

} // verus!
