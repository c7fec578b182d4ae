//! A JSON document model with the same shape as the values the conversion
//! code reads and writes, and the handful of accessors that code uses.
//!
//! Objects are kept as ordered lists of entries.  Lookups take the first entry
//! with a given key, an insert overwrites that entry in place (or appends a new
//! one), and a removal drops every entry with the key.  On objects without
//! repeated keys (every object that comes out of a JSON parser) these are the
//! usual map operations.
use vstd::prelude::*;

use crate::text::str_eq;

verus! {

/// A JSON number in the three forms a JSON parser keeps them in.
#[derive(Debug, PartialEq)]
pub enum JsonNumber {
    /// A non-negative integer.
    PosInt(u64),
    /// A negative integer.
    NegInt(i64),
    /// A number with a fraction or an exponent, kept as its decimal text.
    Float(String),
}

/// An owned JSON value.
#[derive(Debug, PartialEq)]
pub enum Json {
    Null,
    Bool(bool),
    Number(JsonNumber),
    Str(String),
    Array(Vec<Json>),
    Object(Vec<(String, Json)>),
}

/// The mathematical view of a [`JsonNumber`].
pub enum NumberV {
    PosInt(u64),
    NegInt(i64),
    Float(Seq<char>),
}

/// The mathematical view of a [`Json`] value.
pub enum JValue {
    Null,
    Bool(bool),
    Number(NumberV),
    Str(Seq<char>),
    Array(Seq<JValue>),
    Object(Seq<(Seq<char>, JValue)>),
}

/// The entries of an object, in order.
pub type Entries = Seq<(Seq<char>, JValue)>;

impl JsonNumber {
    pub open spec fn nv(self) -> NumberV {
        match self {
            JsonNumber::PosInt(u) => NumberV::PosInt(u),
            JsonNumber::NegInt(i) => NumberV::NegInt(i),
            JsonNumber::Float(s) => NumberV::Float(s@),
        }
    }

    pub fn copy_number(&self) -> (r: JsonNumber)
        ensures
            r.nv() == self.nv(),
    {
        match self {
            JsonNumber::PosInt(u) => JsonNumber::PosInt(*u),
            JsonNumber::NegInt(i) => JsonNumber::NegInt(*i),
            JsonNumber::Float(s) => JsonNumber::Float(s.clone()),
        }
    }
}

impl Json {
    pub open spec fn jv(self) -> JValue
        decreases self,
    {
        match self {
            Json::Null => JValue::Null,
            Json::Bool(b) => JValue::Bool(b),
            Json::Number(n) => JValue::Number(n.nv()),
            Json::Str(s) => JValue::Str(s@),
            Json::Array(items) => JValue::Array(
                Seq::new(
                    items@.len(),
                    |i: int|
                        if 0 <= i < items@.len() {
                            items@[i].jv()
                        } else {
                            JValue::Null
                        },
                ),
            ),
            Json::Object(es) => JValue::Object(
                Seq::new(
                    es@.len(),
                    |i: int|
                        if 0 <= i < es@.len() {
                            (es@[i].0@, es@[i].1.jv())
                        } else {
                            (Seq::empty(), JValue::Null)
                        },
                ),
            ),
        }
    }
}

impl View for Json {
    type V = JValue;

    open spec fn view(&self) -> JValue {
        self.jv()
    }
}

/// The views of a list of values.
pub open spec fn values_view(items: Seq<Json>) -> Seq<JValue> {
    Seq::new(items.len(), |i: int| items[i]@)
}

/// The views of a list of object entries.
pub open spec fn entries_view(es: Seq<(String, Json)>) -> Entries {
    Seq::new(es.len(), |i: int| (es[i].0@, es[i].1@))
}

pub proof fn lemma_array_view(items: Vec<Json>)
    ensures
        Json::Array(items)@ == JValue::Array(values_view(items@)),
{
    assert(Json::Array(items)@->Array_0 =~= values_view(items@));
}

pub proof fn lemma_object_view(es: Vec<(String, Json)>)
    ensures
        Json::Object(es)@ == JValue::Object(entries_view(es@)),
{
    assert(Json::Object(es)@->Object_0 =~= entries_view(es@));
}

/// Index of the first entry whose key is `k`.
pub open spec fn key_index(es: Entries, k: Seq<char>) -> Option<int>
    decreases es.len(),
{
    if es.len() == 0 {
        None
    } else {
        match key_index(es.drop_last(), k) {
            Some(i) => Some(i),
            None => if es.last().0 == k {
                Some(es.len() - 1)
            } else {
                None
            },
        }
    }
}

/// The value of the first entry whose key is `k`.
pub open spec fn lookup(es: Entries, k: Seq<char>) -> Option<JValue> {
    match key_index(es, k) {
        Some(i) => Some(es[i].1),
        None => None,
    }
}

/// Overwrite the first entry with key `k`, or append one.
pub open spec fn insert_entry(es: Entries, k: Seq<char>, v: JValue) -> Entries {
    match key_index(es, k) {
        Some(i) => es.update(i, (k, v)),
        None => es.push((k, v)),
    }
}

/// Drop every entry whose key is `k`.
pub open spec fn remove_key(es: Entries, k: Seq<char>) -> Entries
    decreases es.len(),
{
    if es.len() == 0 {
        es
    } else if es.last().0 == k {
        remove_key(es.drop_last(), k)
    } else {
        remove_key(es.drop_last(), k).push(es.last())
    }
}

/// No key occurs twice.
pub open spec fn unique_keys(es: Entries) -> bool {
    forall|i: int, j: int| 0 <= i < j < es.len() ==> es[i].0 != es[j].0
}

impl JValue {
    pub open spec fn as_str(self) -> Option<Seq<char>> {
        match self {
            JValue::Str(s) => Some(s),
            _ => None,
        }
    }

    pub open spec fn as_array(self) -> Option<Seq<JValue>> {
        match self {
            JValue::Array(a) => Some(a),
            _ => None,
        }
    }

    /// Member lookup; `None` on anything but an object.
    pub open spec fn get(self, k: Seq<char>) -> Option<JValue> {
        match self {
            JValue::Object(es) => lookup(es, k),
            _ => None,
        }
    }

    /// The member `k` when it is a string.
    pub open spec fn get_str(self, k: Seq<char>) -> Option<Seq<char>> {
        match self.get(k) {
            Some(v) => v.as_str(),
            None => None,
        }
    }

    /// The value as a signed 64-bit integer, when it is an integer in range.
    pub open spec fn as_i64(self) -> Option<i64> {
        match self {
            JValue::Number(NumberV::PosInt(u)) => if u <= i64::MAX {
                Some(u as i64)
            } else {
                None
            },
            JValue::Number(NumberV::NegInt(i)) => Some(i),
            _ => None,
        }
    }

    /// The member `k` when it is an integer in range of `i64`.
    pub open spec fn get_i64(self, k: Seq<char>) -> Option<i64> {
        match self.get(k) {
            Some(v) => v.as_i64(),
            None => None,
        }
    }

    /// Every object in this value (itself included) has no repeated key.
    pub open spec fn well_formed(self) -> bool
        decreases self,
    {
        match self {
            JValue::Array(items) => forall|i: int|
                0 <= i < items.len() ==> (#[trigger] items[i]).well_formed(),
            JValue::Object(es) => unique_keys(es) && forall|i: int|
                0 <= i < es.len() ==> (#[trigger] es[i]).1.well_formed(),
            _ => true,
        }
    }
}

pub proof fn lemma_key_index_bounds(es: Entries, k: Seq<char>)
    ensures
        key_index(es, k) matches Some(i) ==> 0 <= i < es.len() && es[i].0 == k && forall|j: int|
            0 <= j < i ==> es[j].0 != k,
        key_index(es, k) is None ==> forall|j: int| 0 <= j < es.len() ==> es[j].0 != k,
    decreases es.len(),
{
    if es.len() > 0 {
        let d = es.drop_last();
        lemma_key_index_bounds(d, k);
        assert forall|j: int| 0 <= j < d.len() implies d[j] == es[j] by {}
    }
}

/// A key found in a prefix is found at the same place in the whole list.
pub proof fn lemma_key_index_prefix(es: Entries, n: int, k: Seq<char>)
    requires
        0 <= n <= es.len(),
        key_index(es.take(n), k) is Some,
    ensures
        key_index(es, k) == key_index(es.take(n), k),
    decreases es.len() - n,
{
    if n < es.len() {
        assert(es.take(n + 1).drop_last() =~= es.take(n));
        lemma_key_index_prefix(es, n + 1, k);
    } else {
        assert(es.take(n) =~= es);
    }
}

pub proof fn lemma_remove_key_facts(es: Entries, k: Seq<char>)
    ensures
        forall|j: int| 0 <= j < remove_key(es, k).len() ==> (#[trigger] remove_key(es, k)[j]).0 != k,
        forall|j: int|
            0 <= j < remove_key(es, k).len() ==> es.contains(#[trigger] remove_key(es, k)[j]),
    decreases es.len(),
{
    if es.len() > 0 {
        lemma_remove_key_facts(es.drop_last(), k);
        let r = remove_key(es.drop_last(), k);
        assert forall|j: int| 0 <= j < remove_key(es, k).len() implies es.contains(
            #[trigger] remove_key(es, k)[j],
        ) by {
            if j < r.len() {
                assert(es.drop_last().contains(r[j]));
                let w = choose|w: int| 0 <= w < es.drop_last().len() && es.drop_last()[w] == r[j];
                assert(es[w] == r[j]);
            } else {
                assert(es[es.len() - 1] == es.last());
            }
        }
    }
}

pub proof fn lemma_remove_absent(es: Entries, k: Seq<char>)
    requires
        forall|j: int| 0 <= j < es.len() ==> es[j].0 != k,
    ensures
        remove_key(es, k) == es,
    decreases es.len(),
{
    if es.len() > 0 {
        lemma_remove_absent(es.drop_last(), k);
        assert(es.drop_last().push(es.last()) =~= es);
    }
}


/// `key_index` depends only on the keys.
pub proof fn lemma_key_index_same_keys(a: Entries, b: Entries, k: Seq<char>)
    requires
        a.len() == b.len(),
        forall|i: int| 0 <= i < a.len() ==> (#[trigger] a[i]).0 == b[i].0,
    ensures
        key_index(a, k) == key_index(b, k),
    decreases a.len(),
{
    if a.len() > 0 {
        assert forall|i: int| 0 <= i < a.drop_last().len() implies (#[trigger] a.drop_last()[i]).0
            == b.drop_last()[i].0 by {
            assert(a.drop_last()[i] == a[i]);
            assert(b.drop_last()[i] == b[i]);
        }
        lemma_key_index_same_keys(a.drop_last(), b.drop_last(), k);
    }
}

/// Inserting under one key leaves the other keys' values alone.
pub proof fn lemma_lookup_insert(es: Entries, k: Seq<char>, v: JValue, k2: Seq<char>)
    ensures
        lookup(insert_entry(es, k, v), k2) == if k2 == k {
            Some(v)
        } else {
            lookup(es, k2)
        },
{
    lemma_key_index_bounds(es, k);
    match key_index(es, k) {
        Some(i) => {
            let u = es.update(i, (k, v));
            lemma_key_index_same_keys(u, es, k2);
            lemma_key_index_bounds(es, k2);
            lemma_key_index_bounds(u, k2);
        },
        None => {
            let p = es.push((k, v));
            assert(p.drop_last() =~= es);
            lemma_key_index_bounds(es, k2);
        },
    }
}

/// Removing one key leaves the other keys' values alone and drops its own.
pub proof fn lemma_lookup_remove(es: Entries, k: Seq<char>, k2: Seq<char>)
    ensures
        lookup(remove_key(es, k), k2) == if k2 == k {
            None
        } else {
            lookup(es, k2)
        },
    decreases es.len(),
{
    if es.len() > 0 {
        let d = es.drop_last();
        lemma_lookup_remove(d, k, k2);
        let r = remove_key(d, k);
        lemma_key_index_bounds(es, k2);
        lemma_key_index_bounds(d, k2);
        lemma_key_index_bounds(r, k2);
        if es.last().0 != k {
            assert(r.push(es.last()).drop_last() =~= r);
            lemma_key_index_bounds(r.push(es.last()), k2);
        }
    }
}

/// No entry has key `k`.
pub open spec fn lacks_key(es: Entries, k: Seq<char>) -> bool {
    forall|i: int| 0 <= i < es.len() ==> (#[trigger] es[i]).0 != k
}

pub proof fn lemma_lacks_key_lookup(es: Entries, k: Seq<char>)
    ensures
        lacks_key(es, k) <==> lookup(es, k) is None,
{
    lemma_key_index_bounds(es, k);
}

/// Removing keys keeps the keys unique.
pub proof fn lemma_remove_key_unique(es: Entries, k: Seq<char>)
    requires
        unique_keys(es),
    ensures
        unique_keys(remove_key(es, k)),
    decreases es.len(),
{
    if es.len() > 0 {
        let d = es.drop_last();
        assert(unique_keys(d)) by {
            assert forall|i: int, j: int| 0 <= i < j < d.len() implies d[i].0 != d[j].0 by {
                assert(d[i] == es[i] && d[j] == es[j]);
            }
        }
        lemma_remove_key_unique(d, k);
        let r = remove_key(d, k);
        if es.last().0 != k {
            lemma_remove_key_facts(d, k);
            let p = r.push(es.last());
            assert forall|i: int, j: int| 0 <= i < j < p.len() implies p[i].0 != p[j].0 by {
                if j == p.len() - 1 {
                    assert(d.contains(r[i]));
                    let w = choose|w: int| 0 <= w < d.len() && d[w] == r[i];
                    assert(es[w] == d[w]);
                    assert(es[es.len() - 1] == es.last());
                } else {
                    assert(p[i] == r[i] && p[j] == r[j]);
                }
            }
        }
    }
}

impl Json {
    /// A copy of the whole value.
    #[verifier::loop_isolation(false)]
    pub fn deep_clone(&self) -> (r: Json)
        ensures
            r@ == self@,
        decreases self,
    {
        match self {
            Json::Null => Json::Null,
            Json::Bool(b) => Json::Bool(*b),
            Json::Number(n) => Json::Number(n.copy_number()),
            Json::Str(s) => Json::Str(s.clone()),
            Json::Array(items) => {
                let mut out: Vec<Json> = Vec::new();
                let mut i: usize = 0;
                while i < items.len()
                    invariant
                        i <= items.len(),
                        out@.len() == i,
                        forall|j: int| 0 <= j < i ==> (#[trigger] out@[j])@ == items@[j]@,
                    decreases items.len() - i,
                {
                    proof {
                        assert(decreases_to!(*self => self->Array_0));
                        assert(self->Array_0 == *items);
                        assert(decreases_to!(*items => items@));
                        assert(decreases_to!(items@ => items@[i as int]));
                    }
                    let c = items[i].deep_clone();
                    out.push(c);
                    i += 1;
                }
                proof {
                    lemma_array_view(out);
                    lemma_array_view(*items);
                    assert(values_view(out@) =~= values_view(items@));
                }
                Json::Array(out)
            },
            Json::Object(es) => {
                let mut out: Vec<(String, Json)> = Vec::new();
                let mut i: usize = 0;
                while i < es.len()
                    invariant
                        i <= es.len(),
                        out@.len() == i,
                        forall|j: int|
                            0 <= j < i ==> (#[trigger] out@[j]).0@ == es@[j].0@ && out@[j].1@
                                == es@[j].1@,
                    decreases es.len() - i,
                {
                    proof {
                        assert(decreases_to!(*self => self->Object_0));
                        assert(self->Object_0 == *es);
                        assert(decreases_to!(*es => es@));
                        assert(decreases_to!(es@ => es@[i as int]));
                        assert(decreases_to!(es@[i as int] => es@[i as int].1));
                    }
                    let c = es[i].1.deep_clone();
                    out.push((es[i].0.clone(), c));
                    i += 1;
                }
                proof {
                    lemma_object_view(out);
                    lemma_object_view(*es);
                    assert(entries_view(out@) =~= entries_view(es@));
                }
                Json::Object(out)
            },
        }
    }

    /// Member lookup; `None` on anything but an object.
    pub fn get<'a>(&'a self, k: &str) -> (r: Option<&'a Json>)
        ensures
            match r {
                Some(v) => self@.get(k@) == Some(v@),
                None => self@.get(k@) is None,
            },
    {
        match self {
            Json::Object(es) => {
                proof {
                    lemma_object_view(*es);
                    lemma_key_index_bounds(entries_view(es@), k@);
                }
                match find_key(es, k) {
                    Some(i) => Some(&es[i].1),
                    None => None,
                }
            },
            _ => None,
        }
    }

    pub fn as_str(&self) -> (r: Option<&String>)
        ensures
            match r {
                Some(s) => self@.as_str() == Some(s@),
                None => self@.as_str() is None,
            },
    {
        match self {
            Json::Str(s) => Some(s),
            _ => None,
        }
    }

    pub fn as_array(&self) -> (r: Option<&Vec<Json>>)
        ensures
            match r {
                Some(a) => self@.as_array() == Some(values_view(a@)),
                None => self@.as_array() is None,
            },
    {
        match self {
            Json::Array(a) => {
                proof {
                    lemma_array_view(*a);
                }
                Some(a)
            },
            _ => None,
        }
    }

    pub fn is_null(&self) -> (r: bool)
        ensures
            r == (self@ is Null),
    {
        match self {
            Json::Null => true,
            _ => false,
        }
    }

    /// The member `k` when it is a string.
    pub fn get_str<'a>(&'a self, k: &str) -> (r: Option<&'a String>)
        ensures
            match r {
                Some(s) => self@.get_str(k@) == Some(s@),
                None => self@.get_str(k@) is None,
            },
    {
        match self.get(k) {
            Some(v) => v.as_str(),
            None => None,
        }
    }

    /// The value as a signed 64-bit integer, when it is an integer in range.
    pub fn as_i64(&self) -> (r: Option<i64>)
        ensures
            r == self@.as_i64(),
    {
        match self {
            Json::Number(JsonNumber::PosInt(u)) => {
                if *u <= 0x7fff_ffff_ffff_ffffu64 {
                    Some(*u as i64)
                } else {
                    None
                }
            },
            Json::Number(JsonNumber::NegInt(i)) => Some(*i),
            _ => None,
        }
    }

    /// The member `k` when it is an integer in range of `i64`.
    pub fn get_i64(&self, k: &str) -> (r: Option<i64>)
        ensures
            r == self@.get_i64(k@),
    {
        match self.get(k) {
            Some(v) => v.as_i64(),
            None => None,
        }
    }
}

/// Index of the first entry with key `k`.
pub fn find_key(es: &Vec<(String, Json)>, k: &str) -> (r: Option<usize>)
    ensures
        match r {
            Some(i) => key_index(entries_view(es@), k@) == Some(i as int),
            None => key_index(entries_view(es@), k@) is None,
        },
{
    let ghost ev = entries_view(es@);
    let mut i: usize = 0;
    while i < es.len()
        invariant
            i <= es.len(),
            ev == entries_view(es@),
            key_index(ev.take(i as int), k@) is None,
        decreases es.len() - i,
    {
        proof {
            assert(ev.take(i + 1).drop_last() =~= ev.take(i as int));
        }
        if str_eq(es[i].0.as_str(), k) {
            proof {
                lemma_key_index_prefix(ev, i + 1, k@);
            }
            return Some(i);
        }
        i += 1;
    }
    proof {
        assert(ev.take(i as int) =~= ev);
    }
    None
}


/// The value of the first entry with key `k`.
pub fn lookup_entry<'a>(es: &'a Vec<(String, Json)>, k: &str) -> (r: Option<&'a Json>)
    ensures
        match r {
            Some(v) => lookup(entries_view(es@), k@) == Some(v@),
            None => lookup(entries_view(es@), k@) is None,
        },
{
    proof {
        lemma_key_index_bounds(entries_view(es@), k@);
    }
    match find_key(es, k) {
        Some(i) => Some(&es[i].1),
        None => None,
    }
}

/// The views of an optional string.
pub open spec fn opt_view(o: Option<String>) -> Option<Seq<char>> {
    match o {
        Some(s) => Some(s@),
        None => None,
    }
}

/// Overwrite the first entry with key `k`, or append one.
pub fn insert_entry_exec(es: &mut Vec<(String, Json)>, k: String, v: Json)
    ensures
        entries_view(final(es)@) == insert_entry(entries_view(old(es)@), k@, v@),
{
    proof {
        lemma_key_index_bounds(entries_view(es@), k@);
    }
    match find_key(es, k.as_str()) {
        Some(i) => {
            let ghost kv = k@;
            let ghost vv = v@;
            es.set(i, (k, v));
            proof {
                assert(entries_view(es@) =~= entries_view(old(es)@).update(i as int, (kv, vv)));
            }
        },
        None => {
            let ghost kv = k@;
            let ghost vv = v@;
            es.push((k, v));
            proof {
                assert(entries_view(es@) =~= entries_view(old(es)@).push((kv, vv)));
            }
        },
    }
}

/// Drop every entry with key `k`; give back the value of the first one.
pub fn remove_key_exec(es: &mut Vec<(String, Json)>, k: &str) -> (r: Option<Json>)
    ensures
        entries_view(final(es)@) == remove_key(entries_view(old(es)@), k@),
        match r {
            Some(v) => lookup(entries_view(old(es)@), k@) == Some(v@),
            None => lookup(entries_view(old(es)@), k@) is None,
        },
{
    let ghost ov = entries_view(es@);
    let mut kept: Vec<(String, Json)> = Vec::new();
    let mut found: Option<Json> = None;
    let n = es.len();
    let mut i: usize = 0;
    while i < n
        invariant
            n == es@.len(),
            ov == entries_view(es@),
            i <= n,
            entries_view(kept@) == remove_key(ov.take(i as int), k@),
            match found {
                Some(v) => lookup(ov.take(i as int), k@) == Some(v@),
                None => lookup(ov.take(i as int), k@) is None,
            },
        decreases n - i,
    {
        proof {
            assert(ov.take(i + 1).drop_last() =~= ov.take(i as int));
            assert(ov.take(i + 1).last() == ov[i as int]);
            lemma_key_index_bounds(ov.take(i as int), k@);
            if key_index(ov.take(i as int), k@) is Some {
                assert(ov.take(i + 1).take(i as int) =~= ov.take(i as int));
                lemma_key_index_prefix(ov.take(i + 1), i as int, k@);
            }
        }
        if str_eq(es[i].0.as_str(), k) {
            if found.is_none() {
                found = Some(es[i].1.deep_clone());
            }
        } else {
            let e = (es[i].0.clone(), es[i].1.deep_clone());
            let ghost ev = (e.0@, e.1@);
            kept.push(e);
            proof {
                assert(entries_view(kept@) =~= remove_key(ov.take(i as int), k@).push(ev));
            }
        }
        i += 1;
    }
    proof {
        assert(ov.take(n as int) =~= ov);
    }
    *es = kept;
    found
}


// ---------------------------------------------------------------------------
// Parsing JSON text
// ---------------------------------------------------------------------------

#[verifier::external_type_specification]
#[verifier::external_body]
pub struct ExJsonValue(serde_json::Value);

#[verifier::external_type_specification]
#[verifier::external_body]
pub struct ExJsonNumber(serde_json::Number);

/// The views of an optional value.
pub open spec fn opt_json_view(o: Option<Json>) -> Option<JValue> {
    match o {
        Some(j) => Some(j@),
        None => None,
    }
}

/// What serde_json's parser makes of a text: the value it denotes, or `None`
/// when the text is not one JSON document.
pub uninterp spec fn parsed_json(text: Seq<char>) -> Option<JValue>;

/// serde_json's `Number`, in the form it holds the number in: a non-negative
/// integer (`as_u64`), a negative integer (`as_i64`), else a float, kept as
/// the text `Number`'s `Display` writes for it.
#[verifier::external_body]
fn number_from_serde(n: &serde_json::Number) -> JsonNumber {
    match (n.as_u64(), n.as_i64()) {
        (Some(u), _) => JsonNumber::PosInt(u),
        (None, Some(i)) => JsonNumber::NegInt(i),
        (None, None) => JsonNumber::Float(n.to_string()),
    }
}

/// A `serde_json::Value` as a [`Json`], variant for variant; an object's
/// entries come in the order the value's map iterates them.
#[verifier::external_body]
fn json_from_serde(v: serde_json::Value) -> Json {
    match v {
        serde_json::Value::Null => Json::Null,
        serde_json::Value::Bool(b) => Json::Bool(b),
        serde_json::Value::Number(n) => Json::Number(number_from_serde(&n)),
        serde_json::Value::String(s) => Json::Str(s),
        serde_json::Value::Array(a) => Json::Array(a.into_iter().map(json_from_serde).collect()),
        serde_json::Value::Object(m) => Json::Object(
            m.into_iter().map(|(k, x)| (k, json_from_serde(x))).collect(),
        ),
    }
}

/// `serde_json::from_str::<serde_json::Value>`: the JSON value a text holds,
/// or `None` when the text does not parse.  Which value comes out is a
/// function of the text alone, named [`parsed_json`]; what that function is
/// (the JSON grammar, number forms, duplicate keys) is serde_json's and is
/// not stated here.
#[verifier::external_body]
pub fn parse_json(text: &str) -> (r: Option<Json>)
    ensures
        opt_json_view(r) == parsed_json(text@),
{
    serde_json::from_str::<serde_json::Value>(text).ok().map(json_from_serde)
}

} // verus!
