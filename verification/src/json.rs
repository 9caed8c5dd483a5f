//! A JSON document as plain values: what the library reads from the
//! Audiobookshelf and Audible APIs and what it builds for Listenarr and the
//! review page. Reading and writing JSON text is left to the program around
//! the library.

use vstd::prelude::*;

use crate::text::chars_eq_str;
use crate::text::chars_of;
use crate::text::strings_view;

verus! {

/// A JSON value. Numbers keep the distinctions the readers rely on: a
/// non-negative integer, a negative integer, or a floating-point number
/// carried as its 64-bit pattern (`f64::to_bits`).
#[derive(Debug)]
pub enum Json {
    Null,
    Bool(bool),
    Int(i64),
    UInt(u64),
    Float(u64),
    Str(String),
    Array(Vec<Json>),
    Object(Vec<(String, Json)>),
}

/// The value of the first entry named `key`.
pub open spec fn lookup(entries: Seq<(String, Json)>, key: Seq<char>) -> Option<Json>
    decreases entries.len(),
{
    if entries.len() == 0 {
        None
    } else if entries[0].0@ == key {
        Some(entries[0].1)
    } else {
        lookup(entries.drop_first(), key)
    }
}

/// The entry named `names[i]` is found at position `i`, when the entries
/// carry the pairwise distinct `names` in order.
pub proof fn lemma_lookup_named(es: Seq<(String, Json)>, names: Seq<Seq<char>>, i: int)
    requires
        es.len() == names.len(),
        0 <= i < es.len(),
        forall|k: int| 0 <= k < es.len() ==> (#[trigger] es[k]).0@ == names[k],
        forall|a: int, b: int|
            0 <= a < names.len() && 0 <= b < names.len() && a != b ==> names[a] != names[b],
    ensures
        lookup(es, names[i]) == Some(es[i].1),
    decreases i,
{
    if i > 0 {
        assert(es[0].0@ != names[i]);
        let es2 = es.drop_first();
        let n2 = names.drop_first();
        assert forall|k: int| 0 <= k < es2.len() implies (#[trigger] es2[k]).0@ == n2[k] by {
            assert(es2[k] == es[k + 1]);
        }
        assert forall|a: int, b: int|
            0 <= a < n2.len() && 0 <= b < n2.len() && a != b implies n2[a] != n2[b] by {
            assert(n2[a] == names[a + 1]);
            assert(n2[b] == names[b + 1]);
        }
        lemma_lookup_named(es2, n2, i - 1);
    }
}

/// Every member of an object built with pairwise distinct names is found by
/// its name.
pub proof fn lemma_members(es: Seq<(String, Json)>, names: Seq<Seq<char>>)
    requires
        es.len() == names.len(),
        forall|k: int| 0 <= k < es.len() ==> (#[trigger] es[k]).0@ == names[k],
        forall|a: int, b: int|
            0 <= a < names.len() && 0 <= b < names.len() && a != b ==> names[a] != names[b],
    ensures
        forall|i: int| 0 <= i < es.len() ==> lookup(es, #[trigger] names[i]) == Some(es[i].1),
{
    assert forall|i: int| 0 <= i < es.len() implies lookup(es, #[trigger] names[i]) == Some(es[i].1) by {
        lemma_lookup_named(es, names, i);
    }
}

/// `j` is the string `s`.
pub open spec fn is_text(j: Option<Json>, s: Seq<char>) -> bool {
    j matches Some(Json::Str(t)) && t@ == s
}

/// `j` is the optional string `s` (`null` for `None`).
pub open spec fn is_text_or_null(j: Option<Json>, s: Option<String>) -> bool {
    match s {
        Some(t) => is_text(j, t@),
        None => j matches Some(Json::Null),
    }
}

/// `j` is the optional integer `o` (`null` for `None`).
pub open spec fn is_int_or_null(j: Option<Json>, o: Option<i64>) -> bool {
    match o {
        Some(i) => j == Some(Json::Int(i)),
        None => j matches Some(Json::Null),
    }
}

/// `j` is the optional float with bit pattern `o` (`null` for `None`).
pub open spec fn is_float_or_null(j: Option<Json>, o: Option<u64>) -> bool {
    match o {
        Some(b) => j == Some(Json::Float(b)),
        None => j matches Some(Json::Null),
    }
}

/// `j` is an array of the strings `v`, in order.
pub open spec fn is_text_list(j: Option<Json>, v: Seq<Seq<char>>) -> bool {
    j matches Some(Json::Array(items)) && items@.len() == v.len() && forall|i: int|
        0 <= i < v.len() ==> (#[trigger] items@[i] matches Json::Str(t) && t@ == v[i])
}

pub fn int_or_null(o: Option<i64>) -> (j: Json)
    ensures
        is_int_or_null(Some(j), o),
{
    match o {
        Some(i) => Json::Int(i),
        None => Json::Null,
    }
}

pub fn float_or_null(o: Option<u64>) -> (j: Json)
    ensures
        is_float_or_null(Some(j), o),
{
    match o {
        Some(b) => Json::Float(b),
        None => Json::Null,
    }
}

/// `value[key]` of an object; `None` for a missing key or a non-object.
pub open spec fn member(j: Json, key: Seq<char>) -> Option<Json> {
    match j {
        Json::Object(entries) => lookup(entries@, key),
        _ => None,
    }
}

pub open spec fn deref_opt(j: Option<&Json>) -> Option<Json> {
    match j {
        Some(v) => Some(*v),
        None => None,
    }
}

/// `as_str` of an optional value.
pub open spec fn text_of(j: Option<Json>) -> Option<Seq<char>> {
    match j {
        Some(Json::Str(s)) => Some(s@),
        _ => None,
    }
}

/// `as_u64` of an optional value.
pub open spec fn u64_of(j: Option<Json>) -> Option<u64> {
    match j {
        Some(Json::UInt(u)) => Some(u),
        Some(Json::Int(i)) => if i >= 0 {
            Some(i as u64)
        } else {
            None
        },
        _ => None,
    }
}

/// `as_i64` of an optional value.
pub open spec fn i64_of(j: Option<Json>) -> Option<i64> {
    match j {
        Some(Json::Int(i)) => Some(i),
        Some(Json::UInt(u)) => if u <= i64::MAX {
            Some(u as i64)
        } else {
            None
        },
        _ => None,
    }
}

/// `as_bool` of an optional value.
pub open spec fn bool_of(j: Option<Json>) -> Option<bool> {
    match j {
        Some(Json::Bool(b)) => Some(b),
        _ => None,
    }
}

/// `as_array` of an optional value.
pub open spec fn array_of(j: Option<Json>) -> Option<Seq<Json>> {
    match j {
        Some(Json::Array(items)) => Some(items@),
        _ => None,
    }
}

impl Json {
    /// The member named `key` of an object.
    pub fn get(&self, key: &str) -> (r: Option<&Json>)
        ensures
            match r {
                Some(v) => member(*self, key@) == Some(*v),
                None => member(*self, key@) is None,
            },
    {
        match self {
            Json::Object(entries) => {
                assert(member(*self, key@) == lookup(entries@, key@));
                let mut i: usize = 0;
                proof {
                    assert(entries@.skip(0) =~= entries@);
                }
                while i < entries.len()
                    invariant
                        i <= entries@.len(),
                        member(*self, key@) == lookup(entries@, key@),
                        lookup(entries@, key@) == lookup(entries@.skip(i as int), key@),
                    decreases entries.len() - i,
                {
                    let name = chars_of(entries[i].0.as_str());
                    proof {
                        assert(entries@.skip(i as int)[0] == entries@[i as int]);
                        assert(entries@.skip(i as int).drop_first() =~= entries@.skip(i + 1));
                    }
                    if chars_eq_str(&name, key) {
                        proof {
                            assert(entries@.skip(i as int)[0].0@ == key@);
                            assert(lookup(entries@.skip(i as int), key@) == Some(entries@[i as int].1));
                        }
                        return Some(&entries[i].1);
                    }
                    i = i + 1;
                }
                proof {
                    assert(entries@.skip(entries@.len() as int) =~= Seq::<(String, Json)>::empty());
                }
                None
            },
            _ => None,
        }
    }

    pub fn as_str(&self) -> (r: Option<&str>)
        ensures
            match r {
                Some(s) => text_of(Some(*self)) == Some(s@),
                None => text_of(Some(*self)) is None,
            },
    {
        match self {
            Json::Str(s) => Some(s.as_str()),
            _ => None,
        }
    }

    pub fn as_u64(&self) -> (r: Option<u64>)
        ensures
            r == u64_of(Some(*self)),
    {
        match self {
            Json::UInt(u) => Some(*u),
            Json::Int(i) => if *i >= 0 {
                Some(*i as u64)
            } else {
                None
            },
            _ => None,
        }
    }

    pub fn as_i64(&self) -> (r: Option<i64>)
        ensures
            r == i64_of(Some(*self)),
    {
        match self {
            Json::Int(i) => Some(*i),
            Json::UInt(u) => if *u <= 9223372036854775807u64 {
                Some(*u as i64)
            } else {
                None
            },
            _ => None,
        }
    }

    pub fn as_bool(&self) -> (r: Option<bool>)
        ensures
            r == bool_of(Some(*self)),
    {
        match self {
            Json::Bool(b) => Some(*b),
            _ => None,
        }
    }

    pub fn as_array(&self) -> (r: Option<&Vec<Json>>)
        ensures
            match r {
                Some(v) => array_of(Some(*self)) == Some(v@),
                None => array_of(Some(*self)) is None,
            },
    {
        match self {
            Json::Array(items) => Some(items),
            _ => None,
        }
    }
}

/// The text of member `key`, if it is a string.
pub fn member_text(j: &Json, key: &str) -> (r: Option<String>)
    ensures
        match r {
            Some(s) => text_of(member(*j, key@)) == Some(s@),
            None => text_of(member(*j, key@)) is None,
        },
{
    match j.get(key) {
        Some(v) => match v.as_str() {
            Some(s) => Some(s.to_owned()),
            None => None,
        },
        None => None,
    }
}

/// A string value.
pub fn text(s: &str) -> (j: Json)
    ensures
        j matches Json::Str(t) && t@ == s@,
{
    Json::Str(s.to_owned())
}

/// An optional string as a string or `null`.
pub fn text_or_null(s: &Option<String>) -> (j: Json)
    ensures
        match *s {
            Some(t) => j matches Json::Str(u) && u@ == t@,
            None => j matches Json::Null,
        },
{
    match s {
        Some(t) => Json::Str(t.as_str().to_owned()),
        None => Json::Null,
    }
}

/// An object member.
pub fn entry(name: &str, value: Json) -> (e: (String, Json))
    ensures
        e.0@ == name@,
        e.1 == value,
{
    (name.to_owned(), value)
}

/// An array of the strings.
pub fn text_list(v: &Vec<String>) -> (j: Json)
    ensures
        is_text_list(Some(j), strings_view(v@)),
{
    let mut items: Vec<Json> = Vec::new();
    let mut i: usize = 0;
    while i < v.len()
        invariant
            i <= v@.len(),
            items@.len() == i,
            forall|k: int| 0 <= k < i ==> (#[trigger] items@[k] matches Json::Str(t) && t@
                == v@[k]@),
        decreases v.len() - i,
    {
        items.push(text(v[i].as_str()));
        i = i + 1;
    }
    Json::Array(items)
}

} // verus!
