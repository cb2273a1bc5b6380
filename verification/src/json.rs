//! A JSON value model: the data that flows through a pipeline.
//!
//! Objects keep their keys in ascending order without duplicates, the way
//! `serde_json`'s default map does, so that serialising a value gives the
//! same text as the rest of the runtime.

use vstd::prelude::*;
use crate::text::{str_eq, chars_of, dec_int, dec, append, i64_to_chars, u64_to_chars};

verus! {

broadcast use vstd::std_specs::vec::group_vec_axioms;

/// A JSON number: an integer, or any other number kept as its text.
#[derive(Debug)]
pub enum JsonNumber {
    /// An integer that fits in `i64`.
    Int(i64),
    /// A non-negative integer above `i64::MAX`.
    UInt(u64),
    /// Any other number, as the text `serde_json` prints for it.
    Float(String),
}

/// A JSON value.
#[derive(Debug)]
pub enum JsonValue {
    Null,
    Bool(bool),
    Number(JsonNumber),
    Str(String),
    Array(Vec<JsonValue>),
    Object(Vec<(String, JsonValue)>),
}

/// Mathematical model of a JSON value.
pub enum Json {
    Null,
    Bool(bool),
    Int(int),
    Float(Seq<char>),
    Str(Seq<char>),
    Array(Seq<Json>),
    Object(Seq<(Seq<char>, Json)>),
}

/// The model of a value.
pub open spec fn jv(v: JsonValue) -> Json
    decreases v,
{
    match v {
        JsonValue::Null => Json::Null,
        JsonValue::Bool(b) => Json::Bool(b),
        JsonValue::Number(JsonNumber::Int(i)) => Json::Int(i as int),
        JsonValue::Number(JsonNumber::UInt(u)) => Json::Int(u as int),
        JsonValue::Number(JsonNumber::Float(s)) => Json::Float(s@),
        JsonValue::Str(s) => Json::Str(s@),
        JsonValue::Array(items) => Json::Array(jv_seq(items@)),
        JsonValue::Object(entries) => Json::Object(jv_entries(entries@)),
    }
}

/// The models of a sequence of values.
pub open spec fn jv_seq(s: Seq<JsonValue>) -> Seq<Json>
    decreases s,
{
    if s.len() == 0 {
        Seq::empty()
    } else {
        seq![jv(s[0])] + jv_seq(s.drop_first())
    }
}

/// The models of a sequence of object entries.
pub open spec fn jv_entries(s: Seq<(String, JsonValue)>) -> Seq<(Seq<char>, Json)>
    decreases s,
{
    if s.len() == 0 {
        Seq::empty()
    } else {
        seq![(s[0].0@, jv(s[0].1))] + jv_entries(s.drop_first())
    }
}


/// `jv_seq` keeps the length and maps each element.
pub proof fn lemma_jv_seq(s: Seq<JsonValue>)
    ensures
        jv_seq(s).len() == s.len(),
        forall|i: int| 0 <= i < s.len() ==> #[trigger] jv_seq(s)[i] == jv(s[i]),
    decreases s.len(),
{
    if s.len() > 0 {
        lemma_jv_seq(s.drop_first());
        assert forall|i: int| 0 <= i < s.len() implies #[trigger] jv_seq(s)[i] == jv(s[i]) by {
            if i > 0 {
                assert(jv_seq(s)[i] == jv_seq(s.drop_first())[i - 1]);
            }
        }
    }
}

/// `jv_entries` keeps the length and maps each entry.
pub proof fn lemma_jv_entries(s: Seq<(String, JsonValue)>)
    ensures
        jv_entries(s).len() == s.len(),
        forall|i: int| 0 <= i < s.len() ==> #[trigger] jv_entries(s)[i] == (s[i].0@, jv(s[i].1)),
    decreases s.len(),
{
    if s.len() > 0 {
        lemma_jv_entries(s.drop_first());
        assert forall|i: int| 0 <= i < s.len() implies #[trigger] jv_entries(s)[i] == (s[i].0@, jv(s[i].1)) by {
            if i > 0 {
                assert(jv_entries(s)[i] == jv_entries(s.drop_first())[i - 1]);
            }
        }
    }
}

/// Two sequences whose elements have equal models have equal models.
pub proof fn lemma_jv_seq_ext(a: Seq<JsonValue>, b: Seq<JsonValue>)
    requires
        a.len() == b.len(),
        forall|i: int| 0 <= i < a.len() ==> jv(#[trigger] a[i]) == jv(b[i]),
    ensures
        jv_seq(a) == jv_seq(b),
{
    lemma_jv_seq(a);
    lemma_jv_seq(b);
    assert(jv_seq(a) =~= jv_seq(b));
}

/// Lexicographic order on character sequences (the order of `str`).
pub open spec fn seq_lt(a: Seq<char>, b: Seq<char>) -> bool
    decreases a.len(),
{
    if a.len() == 0 {
        b.len() > 0
    } else if b.len() == 0 {
        false
    } else if a[0] != b[0] {
        a[0] < b[0]
    } else {
        seq_lt(a.drop_first(), b.drop_first())
    }
}

/// The value stored under `k`, if any.
pub open spec fn lookup(e: Seq<(Seq<char>, Json)>, k: Seq<char>) -> Option<Json>
    decreases e.len(),
{
    if e.len() == 0 {
        None
    } else if e[0].0 == k {
        Some(e[0].1)
    } else {
        lookup(e.drop_first(), k)
    }
}

/// Member access: the value under `k` when `j` is an object (`Value::get`).
pub open spec fn get(j: Json, k: Seq<char>) -> Option<Json> {
    match j {
        Json::Object(e) => lookup(e, k),
        _ => None,
    }
}

/// The string inside `j`, if it is one (`Value::as_str`).
pub open spec fn as_str(j: Json) -> Option<Seq<char>> {
    match j {
        Json::Str(s) => Some(s),
        _ => None,
    }
}

/// The boolean inside `j`, if it is one (`Value::as_bool`).
pub open spec fn as_bool(j: Json) -> Option<bool> {
    match j {
        Json::Bool(b) => Some(b),
        _ => None,
    }
}

/// The integer inside `j`, if it is one that fits `i64` (`Value::as_i64`).
pub open spec fn as_i64(j: Json) -> Option<int> {
    match j {
        Json::Int(i) => if i64::MIN <= i <= i64::MAX { Some(i) } else { None },
        _ => None,
    }
}

/// The keys and values stored in an object, by key.
pub open spec fn entries_map(e: Seq<(Seq<char>, Json)>) -> Map<Seq<char>, Json>
    decreases e.len(),
{
    if e.len() == 0 {
        Map::empty()
    } else {
        entries_map(e.drop_first()).insert(e[0].0, e[0].1)
    }
}

/// Looking up in a sequence whose first key differs is looking up in the rest.
pub proof fn lemma_lookup_step(e: Seq<(Seq<char>, Json)>, i: int, k: Seq<char>)
    requires
        0 <= i < e.len(),
    ensures
        lookup(e.subrange(i, e.len() as int), k) == if e[i].0 == k {
            Some(e[i].1)
        } else {
            lookup(e.subrange(i + 1, e.len() as int), k)
        },
{
    assert(e.subrange(i, e.len() as int).drop_first() =~= e.subrange(i + 1, e.len() as int));
}

impl JsonValue {
    /// A copy of the value with the same model.
    pub fn copy(&self) -> (r: JsonValue)
        ensures
            jv(r) == jv(*self),
        decreases self,
    {
        match self {
            JsonValue::Null => JsonValue::Null,
            JsonValue::Bool(b) => JsonValue::Bool(*b),
            JsonValue::Number(JsonNumber::Int(i)) => JsonValue::Number(JsonNumber::Int(*i)),
            JsonValue::Number(JsonNumber::UInt(u)) => JsonValue::Number(JsonNumber::UInt(*u)),
            JsonValue::Number(JsonNumber::Float(s)) => JsonValue::Number(JsonNumber::Float(s.clone())),
            JsonValue::Str(s) => JsonValue::Str(s.clone()),
            JsonValue::Array(items) => {
                let mut out: Vec<JsonValue> = Vec::new();
                let mut i: usize = 0;
                while i < items.len()
                    invariant
                        *self == JsonValue::Array(*items),
                        i <= items@.len(),
                        out@.len() == i,
                        forall|k: int| 0 <= k < i ==> jv(#[trigger] out@[k]) == jv(items@[k]),
                    decreases items@.len() - i,
                {
                    proof {
                        vstd::std_specs::vec::axiom_vec_index_decreases(*items, i as int);
                        assert(decreases_to!(*self => (*self)->Array_0));
                    }
                    let c = items[i].copy();
                    out.push(c);
                    i = i + 1;
                }
                proof {
                    lemma_jv_seq_ext(out@, items@);
                }
                JsonValue::Array(out)
            },
            JsonValue::Object(entries) => {
                let mut out: Vec<(String, JsonValue)> = Vec::new();
                let mut i: usize = 0;
                while i < entries.len()
                    invariant
                        *self == JsonValue::Object(*entries),
                        i <= entries@.len(),
                        out@.len() == i,
                        forall|k: int| 0 <= k < i ==> (#[trigger] out@[k]).0@ == entries@[k].0@ && jv(out@[k].1) == jv(entries@[k].1),
                    decreases entries@.len() - i,
                {
                    proof {
                        vstd::std_specs::vec::axiom_vec_index_decreases(*entries, i as int);
                        assert(decreases_to!(*self => (*self)->Object_0));
                        assert(decreases_to!(entries[i as int] => entries[i as int].1));
                    }
                    let c = entries[i].1.copy();
                    let key = entries[i].0.clone();
                    out.push((key, c));
                    i = i + 1;
                }
                proof {
                    lemma_jv_entries(out@);
                    lemma_jv_entries(entries@);
                    assert(jv_entries(out@) =~= jv_entries(entries@));
                }
                JsonValue::Object(out)
            },
        }
    }

    /// Member access (`Value::get` with a key).
    pub fn get(&self, key: &str) -> (r: Option<&JsonValue>)
        ensures
            match r {
                Some(x) => get(jv(*self), key@) == Some(jv(*x)),
                None => get(jv(*self), key@) is None,
            },
    {
        match self {
            JsonValue::Object(entries) => {
                let ghost e = jv_entries(entries@);
                proof {
                    lemma_jv_entries(entries@);
                    assert(e.subrange(0, e.len() as int) =~= e);
                }
                let mut i: usize = 0;
                while i < entries.len()
                    invariant
                        *self == JsonValue::Object(*entries),
                        e == jv_entries(entries@),
                        i <= entries@.len(),
                        e.len() == entries@.len(),
                        forall|k: int| 0 <= k < entries@.len() ==> #[trigger] e[k] == (entries@[k].0@, jv(entries@[k].1)),
                        lookup(e, key@) == lookup(e.subrange(i as int, e.len() as int), key@),
                    decreases entries@.len() - i,
                {
                    proof {
                        lemma_lookup_step(e, i as int, key@);
                    }
                    if str_eq(entries[i].0.as_str(), key) {
                        return Some(&entries[i].1);
                    }
                    i = i + 1;
                }
                None
            },
            _ => None,
        }
    }

    /// The string inside, if the value is a string (`Value::as_str`).
    pub fn as_str(&self) -> (r: Option<&String>)
        ensures
            match r {
                Some(s) => as_str(jv(*self)) == Some(s@),
                None => as_str(jv(*self)) is None,
            },
    {
        match self {
            JsonValue::Str(s) => Some(s),
            _ => None,
        }
    }

    /// The boolean inside, if the value is one (`Value::as_bool`).
    pub fn as_bool(&self) -> (r: Option<bool>)
        ensures
            r == as_bool(jv(*self)),
    {
        match self {
            JsonValue::Bool(b) => Some(*b),
            _ => None,
        }
    }

    /// The integer inside, if the value is an integer that fits `i64`.
    pub fn as_i64(&self) -> (r: Option<i64>)
        ensures
            match r {
                Some(i) => as_i64(jv(*self)) == Some(i as int),
                None => as_i64(jv(*self)) is None,
            },
    {
        match self {
            JsonValue::Number(JsonNumber::Int(i)) => Some(*i),
            JsonValue::Number(JsonNumber::UInt(u)) => {
                if *u <= 9223372036854775807u64 {
                    Some(*u as i64)
                } else {
                    None
                }
            },
            _ => None,
        }
    }

    /// The elements, if the value is an array (`Value::as_array`).
    pub fn as_array(&self) -> (r: Option<&Vec<JsonValue>>)
        ensures
            match r {
                Some(items) => jv(*self) == Json::Array(jv_seq(items@)),
                None => !(jv(*self) is Array),
            },
    {
        match self {
            JsonValue::Array(items) => Some(items),
            _ => None,
        }
    }

    /// Sets `key` to `val` when the value is an object; other values are
    /// left unchanged.
    pub fn set(&mut self, key: String, val: JsonValue)
        ensures
            jv(*old(self)) is Object ==> jv(*final(self)) is Object && forall|k: Seq<char>| #[trigger] get(jv(*final(self)), k) == if k == key@ {
                Some(jv(val))
            } else {
                get(jv(*old(self)), k)
            },
            !(jv(*old(self)) is Object) ==> *final(self) == *old(self),
    {
        match self {
            JsonValue::Object(entries) => {
                entries_set(entries, key, val);
            },
            _ => {},
        }
    }

    /// The value is an object.
    pub fn is_object(&self) -> (b: bool)
        ensures
            b == (jv(*self) is Object),
    {
        match self {
            JsonValue::Object(_) => true,
            _ => false,
        }
    }

    /// The value is `null`.
    pub fn is_null(&self) -> (b: bool)
        ensures
            b == (jv(*self) is Null),
    {
        match self {
            JsonValue::Null => true,
            _ => false,
        }
    }
}

/// `a` sorts before `b` (`str` order).
pub fn str_lt(a: &str, b: &str) -> (r: bool)
    ensures
        r == seq_lt(a@, b@),
{
    let x = chars_of(a);
    let y = chars_of(b);
    let mut i: usize = 0;
    proof {
        assert(x@.skip(0) =~= x@);
        assert(y@.skip(0) =~= y@);
    }
    while i < x.len() && i < y.len() && x[i] == y[i]
        invariant
            i <= x@.len(),
            i <= y@.len(),
            seq_lt(x@, y@) == seq_lt(x@.skip(i as int), y@.skip(i as int)),
        decreases x@.len() - i,
    {
        assert(x@.skip(i as int).drop_first() =~= x@.skip(i + 1));
        assert(y@.skip(i as int).drop_first() =~= y@.skip(i + 1));
        i = i + 1;
    }
    if i == x.len() {
        i < y.len()
    } else if i == y.len() {
        false
    } else {
        x[i] < y[i]
    }
}

/// Looking up in a concatenation looks in the first part first.
pub proof fn lemma_lookup_concat(a: Seq<(Seq<char>, Json)>, b: Seq<(Seq<char>, Json)>, k: Seq<char>)
    ensures
        lookup(a + b, k) == match lookup(a, k) {
            Some(x) => Some(x),
            None => lookup(b, k),
        },
    decreases a.len(),
{
    if a.len() > 0 {
        assert((a + b).drop_first() =~= a.drop_first() + b);
        lemma_lookup_concat(a.drop_first(), b, k);
    } else {
        assert(a + b =~= b);
    }
}

/// Looking up in a one-entry sequence.
pub proof fn lemma_lookup_single(x: (Seq<char>, Json), k: Seq<char>)
    ensures
        lookup(seq![x], k) == if x.0 == k { Some(x.1) } else { None::<Json> },
{
    let e = seq![x];
    assert(e.len() == 1);
    assert(e[0] == x);
    assert(e.drop_first() =~= Seq::<(Seq<char>, Json)>::empty());
    assert(lookup(e.drop_first(), k) is None);
}

/// No entry of `a` has key `k`.
pub proof fn lemma_lookup_absent(a: Seq<(Seq<char>, Json)>, k: Seq<char>)
    requires
        forall|i: int| 0 <= i < a.len() ==> (#[trigger] a[i]).0 != k,
    ensures
        lookup(a, k) is None,
    decreases a.len(),
{
    if a.len() > 0 {
        assert forall|i: int| 0 <= i < a.drop_first().len() implies (#[trigger] a.drop_first()[i]).0 != k by {
            assert(a.drop_first()[i] == a[i + 1]);
        }
        lemma_lookup_absent(a.drop_first(), k);
    }
}

/// Sets `key` to `val` in an object's entries: replaces the entry with that
/// key, or inserts before the first greater key (the end if none), so that
/// ascending keys stay ascending.
pub fn entries_set(entries: &mut Vec<(String, JsonValue)>, key: String, val: JsonValue)
    ensures
        forall|k: Seq<char>| #[trigger] lookup(jv_entries(final(entries)@), k) == if k == key@ {
            Some(jv(val))
        } else {
            lookup(jv_entries(old(entries)@), k)
        },
{
    let ghost old_e = entries@;
    let ghost jval = jv(val);
    let ghost kk = key@;
    proof {
        lemma_jv_entries(old_e);
    }
    let mut i: usize = 0;
    while i < entries.len()
        invariant
            entries@ == old_e,
            old_e == old(entries)@,
            jv_entries(old_e).len() == old_e.len(),
            forall|m: int| 0 <= m < old_e.len() ==> #[trigger] jv_entries(old_e)[m] == (old_e[m].0@, jv(old_e[m].1)),
            kk == key@,
            jval == jv(val),
            i <= entries@.len(),
            forall|j: int| 0 <= j < i ==> (#[trigger] entries@[j]).0@ != key@,
        decreases entries@.len() - i,
    {
        let same = str_eq(entries[i].0.as_str(), key.as_str());
        if same || str_lt(key.as_str(), entries[i].0.as_str()) {
            let ghost je = jv_entries(old_e);
            let ghost pre = je.take(i as int);
            proof {
                assert forall|m: int| 0 <= m < pre.len() implies (#[trigger] pre[m]).0 != kk by {
                    assert(pre[m] == je[m]);
                }
                lemma_lookup_absent(pre, kk);
            }
            if same {
                entries.set(i, (key, val));
                proof {
                    lemma_jv_entries(entries@);
                    let ne = jv_entries(entries@);
                    let post = je.skip(i + 1);
                    assert(ne =~= pre + seq![(kk, jval)] + post);
                    assert(je =~= pre + seq![je[i as int]] + post);
                    assert forall|k: Seq<char>| #[trigger] lookup(jv_entries(entries@), k) == if k == kk {
                        Some(jval)
                    } else {
                        lookup(je, k)
                    } by {
                        lemma_lookup_concat(pre + seq![(kk, jval)], post, k);
                        lemma_lookup_concat(pre, seq![(kk, jval)], k);
                        lemma_lookup_concat(pre + seq![je[i as int]], post, k);
                        lemma_lookup_concat(pre, seq![je[i as int]], k);
                        lemma_lookup_single((kk, jval), k);
                        lemma_lookup_single(je[i as int], k);
                        if k == kk {
                            lemma_lookup_absent(pre, k);
                        }
                    }
                }
            } else {
                entries.insert(i, (key, val));
                assert(entries@ == old_e.insert(i as int, entries@[i as int]));
                proof {
                    lemma_jv_entries(entries@);
                    let ne = jv_entries(entries@);
                    let post = je.skip(i as int);
                    assert(ne =~= pre + seq![(kk, jval)] + post);
                    assert(je =~= pre + post);
                    assert forall|k: Seq<char>| #[trigger] lookup(jv_entries(entries@), k) == if k == kk {
                        Some(jval)
                    } else {
                        lookup(je, k)
                    } by {
                        lemma_lookup_concat(pre + seq![(kk, jval)], post, k);
                        lemma_lookup_concat(pre, seq![(kk, jval)], k);
                        lemma_lookup_concat(pre, post, k);
                        lemma_lookup_single((kk, jval), k);
                        if k == kk {
                            lemma_lookup_absent(pre, k);
                        }
                    }
                }
            }
            return;
        }
        i = i + 1;
    }
    entries.push((key, val));
    proof {
        let je = jv_entries(old_e);
        lemma_jv_entries(entries@);
        assert(jv_entries(entries@) =~= je + seq![(kk, jval)]);
        assert forall|k: Seq<char>| #[trigger] lookup(jv_entries(entries@), k) == if k == kk {
            Some(jval)
        } else {
            lookup(je, k)
        } by {
            lemma_lookup_concat(je, seq![(kk, jval)], k);
            lemma_lookup_single((kk, jval), k);
            if k == kk {
                assert forall|m: int| 0 <= m < je.len() implies (#[trigger] je[m]).0 != k by {
                    assert(je[m] == (old_e[m].0@, jv(old_e[m].1)));
                }
                lemma_lookup_absent(je, k);
            }
        }
    }
}

/// Lower-case hexadecimal digit of a value below sixteen.
pub open spec fn hex_digit(d: int) -> char {
    if d == 0 { '0' } else if d == 1 { '1' } else if d == 2 { '2' } else if d == 3 { '3' }
    else if d == 4 { '4' } else if d == 5 { '5' } else if d == 6 { '6' } else if d == 7 { '7' }
    else if d == 8 { '8' } else if d == 9 { '9' } else if d == 10 { 'a' } else if d == 11 { 'b' }
    else if d == 12 { 'c' } else if d == 13 { 'd' } else if d == 14 { 'e' } else { 'f' }
}

/// How `serde_json` writes one character inside a string literal.
pub open spec fn escape_char(c: char) -> Seq<char> {
    if c == '"' {
        seq!['\\', '"']
    } else if c == '\\' {
        seq!['\\', '\\']
    } else if c == '\n' {
        seq!['\\', 'n']
    } else if c == '\r' {
        seq!['\\', 'r']
    } else if c == '\t' {
        seq!['\\', 't']
    } else if c == '\x08' {
        seq!['\\', 'b']
    } else if c == '\x0C' {
        seq!['\\', 'f']
    } else if (c as u32) < 32 {
        seq!['\\', 'u', '0', '0', hex_digit(((c as u32) / 16) as int), hex_digit(((c as u32) % 16) as int)]
    } else {
        seq![c]
    }
}

/// The escaped characters of a string.
pub open spec fn escape_str(s: Seq<char>) -> Seq<char>
    decreases s.len(),
{
    if s.len() == 0 {
        Seq::empty()
    } else {
        escape_str(s.drop_last()) + escape_char(s.last())
    }
}

/// A JSON string literal.
pub open spec fn quoted(s: Seq<char>) -> Seq<char> {
    seq!['"'] + escape_str(s) + seq!['"']
}

/// Compact JSON text of a value (`serde_json::to_string`), keys in the
/// order they are stored.
pub open spec fn json_text(j: Json) -> Seq<char>
    decreases j,
{
    match j {
        Json::Null => seq!['n', 'u', 'l', 'l'],
        Json::Bool(b) => if b { seq!['t', 'r', 'u', 'e'] } else { seq!['f', 'a', 'l', 's', 'e'] },
        Json::Int(i) => dec_int(i),
        Json::Float(t) => t,
        Json::Str(s) => quoted(s),
        Json::Array(items) => seq!['['] + items_text(items) + seq![']'],
        Json::Object(e) => seq!['{'] + entries_text(e) + seq!['}'],
    }
}

/// Comma-separated texts of the elements.
pub open spec fn items_text(s: Seq<Json>) -> Seq<char>
    decreases s,
{
    if s.len() == 0 {
        Seq::empty()
    } else if s.len() == 1 {
        json_text(s[0])
    } else {
        items_text(s.drop_last()) + seq![','] + json_text(s[s.len() - 1])
    }
}

/// Comma-separated `"key":value` texts of the entries.
pub open spec fn entries_text(s: Seq<(Seq<char>, Json)>) -> Seq<char>
    decreases s,
{
    if s.len() == 0 {
        Seq::empty()
    } else if s.len() == 1 {
        quoted(s[0].0) + seq![':'] + json_text(s[0].1)
    } else {
        entries_text(s.drop_last()) + seq![','] + quoted(s[s.len() - 1].0) + seq![':'] + json_text(s[s.len() - 1].1)
    }
}

pub(crate) fn hex_digit_exec(d: u32) -> (c: char)
    requires
        d < 16,
    ensures
        c == hex_digit(d as int),
{
    if d == 0 { '0' } else if d == 1 { '1' } else if d == 2 { '2' } else if d == 3 { '3' }
    else if d == 4 { '4' } else if d == 5 { '5' } else if d == 6 { '6' } else if d == 7 { '7' }
    else if d == 8 { '8' } else if d == 9 { '9' } else if d == 10 { 'a' } else if d == 11 { 'b' }
    else if d == 12 { 'c' } else if d == 13 { 'd' } else if d == 14 { 'e' } else { 'f' }
}

/// Appends the escaped characters of `s`.
pub fn write_escaped(s: &str, out: &mut Vec<char>)
    ensures
        final(out)@ == old(out)@ + quoted(s@),
{
    let v = chars_of(s);
    let ghost base = out@;
    out.push('"');
    let mut i: usize = 0;
    while i < v.len()
        invariant
            i <= v@.len(),
            out@ == base + seq!['"'] + escape_str(v@.take(i as int)),
        decreases v@.len() - i,
    {
        let c = v[i];
        let ghost before = out@;
        if c == '"' {
            out.push('\\');
            out.push('"');
        } else if c == '\\' {
            out.push('\\');
            out.push('\\');
        } else if c == '\n' {
            out.push('\\');
            out.push('n');
        } else if c == '\r' {
            out.push('\\');
            out.push('r');
        } else if c == '\t' {
            out.push('\\');
            out.push('t');
        } else if c == '\x08' {
            out.push('\\');
            out.push('b');
        } else if c == '\x0C' {
            out.push('\\');
            out.push('f');
        } else if (c as u32) < 32 {
            out.push('\\');
            out.push('u');
            out.push('0');
            out.push('0');
            let code = c as u32;
            out.push(hex_digit_exec(code / 16));
            out.push(hex_digit_exec(code % 16));

        } else {
            out.push(c);
        }
        assert(out@ =~= before + escape_char(c));
        assert(v@.take(i + 1).drop_last() =~= v@.take(i as int));
        i = i + 1;
    }
    assert(v@.take(v@.len() as int) =~= v@);
    out.push('"');
}

/// Appends the compact JSON text of `v`.
pub fn write_json(v: &JsonValue, out: &mut Vec<char>)
    ensures
        final(out)@ == old(out)@ + json_text(jv(*v)),
    decreases v,
{
    let ghost base = out@;
    match v {
        JsonValue::Null => {
            out.push('n'); out.push('u'); out.push('l'); out.push('l');
        },
        JsonValue::Bool(b) => {
            if *b {
                out.push('t'); out.push('r'); out.push('u'); out.push('e');
            } else {
                out.push('f'); out.push('a'); out.push('l'); out.push('s'); out.push('e');
            }
        },
        JsonValue::Number(JsonNumber::Int(i)) => {
            let d = i64_to_chars(*i);
            append(out, d.as_slice());
        },
        JsonValue::Number(JsonNumber::UInt(u)) => {
            let d = u64_to_chars(*u);
            append(out, d.as_slice());
            assert(dec_int(*u as int) == dec(*u as nat));
        },
        JsonValue::Number(JsonNumber::Float(t)) => {
            let d = chars_of(t.as_str());
            append(out, d.as_slice());
        },
        JsonValue::Str(s) => {
            write_escaped(s.as_str(), out);
        },
        JsonValue::Array(items) => {
            proof { lemma_jv_seq(items@); }
            out.push('[');
            let mut k: usize = 0;
            while k < items.len()
                invariant
                    *v == JsonValue::Array(*items),
                    k <= items@.len(),
                    jv_seq(items@).len() == items@.len(),
                    forall|m: int| 0 <= m < items@.len() ==> #[trigger] jv_seq(items@)[m] == jv(items@[m]),
                    out@ == base + seq!['['] + items_text(jv_seq(items@).take(k as int)),
                decreases items@.len() - k,
            {
                proof {
                    vstd::std_specs::vec::axiom_vec_index_decreases(*items, k as int);
                    assert(decreases_to!(*v => (*v)->Array_0));
                }
                let ghost before = out@;
                if k > 0 {
                    out.push(',');
                }
                write_json(&items[k], out);
                let ghost t = jv_seq(items@).take(k + 1);
                assert(t.drop_last() =~= jv_seq(items@).take(k as int));
                assert(t[t.len() - 1] == jv(items@[k as int]));
                if k == 0 {
                    assert(jv_seq(items@).take(0) =~= Seq::<Json>::empty());
                }
                k = k + 1;
            }
            assert(jv_seq(items@).take(items@.len() as int) =~= jv_seq(items@));
            out.push(']');
        },
        JsonValue::Object(entries) => {
            proof { lemma_jv_entries(entries@); }
            out.push('{');
            let mut k: usize = 0;
            while k < entries.len()
                invariant
                    *v == JsonValue::Object(*entries),
                    k <= entries@.len(),
                    jv_entries(entries@).len() == entries@.len(),
                    forall|m: int| 0 <= m < entries@.len() ==> #[trigger] jv_entries(entries@)[m] == (entries@[m].0@, jv(entries@[m].1)),
                    out@ == base + seq!['{'] + entries_text(jv_entries(entries@).take(k as int)),
                decreases entries@.len() - k,
            {
                proof {
                    vstd::std_specs::vec::axiom_vec_index_decreases(*entries, k as int);
                    assert(decreases_to!(*v => (*v)->Object_0));
                    assert(decreases_to!(entries[k as int] => entries[k as int].1));
                }
                if k > 0 {
                    out.push(',');
                }
                write_escaped(entries[k].0.as_str(), out);
                out.push(':');
                write_json(&entries[k].1, out);
                let ghost t = jv_entries(entries@).take(k + 1);
                assert(t.drop_last() =~= jv_entries(entries@).take(k as int));
                assert(t[t.len() - 1] == (entries@[k as int].0@, jv(entries@[k as int].1)));
                if k == 0 {
                    assert(jv_entries(entries@).take(0) =~= Seq::<(Seq<char>, Json)>::empty());
                }
                k = k + 1;
            }
            assert(jv_entries(entries@).take(entries@.len() as int) =~= jv_entries(entries@));
            out.push('}');
        },
    }
}

/// Structural equality of two values (`Value == Value`).
pub fn json_eq(a: &JsonValue, b: &JsonValue) -> (r: bool)
    ensures
        r == (jv(*a) == jv(*b)),
    decreases a,
{
    match a {
        JsonValue::Null => b.is_null(),
        JsonValue::Bool(x) => match b {
            JsonValue::Bool(y) => *x == *y,
            _ => false,
        },
        JsonValue::Number(x) => match b {
            JsonValue::Number(y) => match x {
                JsonNumber::Int(i) => match y {
                    JsonNumber::Int(j) => *i == *j,
                    JsonNumber::UInt(j) => *i >= 0 && (*i as u64) == *j,
                    JsonNumber::Float(_) => false,
                },
                JsonNumber::UInt(i) => match y {
                    JsonNumber::Int(j) => *j >= 0 && (*j as u64) == *i,
                    JsonNumber::UInt(j) => *i == *j,
                    JsonNumber::Float(_) => false,
                },
                JsonNumber::Float(s) => match y {
                    JsonNumber::Float(t) => str_eq(s.as_str(), t.as_str()),
                    _ => false,
                },
            },
            _ => false,
        },
        JsonValue::Str(s) => match b {
            JsonValue::Str(t) => str_eq(s.as_str(), t.as_str()),
            _ => false,
        },
        JsonValue::Array(xs) => match b {
            JsonValue::Array(ys) => {
                proof {
                    lemma_jv_seq(xs@);
                    lemma_jv_seq(ys@);
                }
                if xs.len() != ys.len() {
                    return false;
                }
                let mut k: usize = 0;
                while k < xs.len()
                    invariant
                        *a == JsonValue::Array(*xs),
                        *b == JsonValue::Array(*ys),
                        xs@.len() == ys@.len(),
                        k <= xs@.len(),
                        jv_seq(xs@).len() == xs@.len(),
                        jv_seq(ys@).len() == ys@.len(),
                        forall|m: int| 0 <= m < xs@.len() ==> #[trigger] jv_seq(xs@)[m] == jv(xs@[m]),
                        forall|m: int| 0 <= m < ys@.len() ==> #[trigger] jv_seq(ys@)[m] == jv(ys@[m]),
                        forall|m: int| 0 <= m < k ==> jv(#[trigger] xs@[m]) == jv(ys@[m]),
                    decreases xs@.len() - k,
                {
                    proof {
                        vstd::std_specs::vec::axiom_vec_index_decreases(*xs, k as int);
                        assert(decreases_to!(*a => (*a)->Array_0));
                    }
                    if !json_eq(&xs[k], &ys[k]) {
                        assert(jv_seq(xs@)[k as int] != jv_seq(ys@)[k as int]);
                        assert(jv(*a) == Json::Array(jv_seq(xs@)));
                        assert(jv(*b) == Json::Array(jv_seq(ys@)));
                        return false;
                    }
                    k = k + 1;
                }
                proof { lemma_jv_seq_ext(xs@, ys@); }
                true
            },
            _ => false,
        },
        JsonValue::Object(xs) => match b {
            JsonValue::Object(ys) => {
                proof {
                    lemma_jv_entries(xs@);
                    lemma_jv_entries(ys@);
                }
                if xs.len() != ys.len() {
                    return false;
                }
                let mut k: usize = 0;
                while k < xs.len()
                    invariant
                        *a == JsonValue::Object(*xs),
                        *b == JsonValue::Object(*ys),
                        xs@.len() == ys@.len(),
                        k <= xs@.len(),
                        jv_entries(xs@).len() == xs@.len(),
                        jv_entries(ys@).len() == ys@.len(),
                        forall|m: int| 0 <= m < xs@.len() ==> #[trigger] jv_entries(xs@)[m] == (xs@[m].0@, jv(xs@[m].1)),
                        forall|m: int| 0 <= m < ys@.len() ==> #[trigger] jv_entries(ys@)[m] == (ys@[m].0@, jv(ys@[m].1)),
                        forall|m: int| 0 <= m < k ==> #[trigger] jv_entries(xs@)[m] == jv_entries(ys@)[m],
                    decreases xs@.len() - k,
                {
                    proof {
                        vstd::std_specs::vec::axiom_vec_index_decreases(*xs, k as int);
                        assert(decreases_to!(*a => (*a)->Object_0));
                        assert(decreases_to!(xs[k as int] => xs[k as int].1));
                    }
                    if !str_eq(xs[k].0.as_str(), ys[k].0.as_str()) {
                        assert(jv_entries(xs@)[k as int] != jv_entries(ys@)[k as int]);
                        assert(jv(*a) == Json::Object(jv_entries(xs@)));
                        assert(jv(*b) == Json::Object(jv_entries(ys@)));
                        return false;
                    }
                    if !json_eq(&xs[k].1, &ys[k].1) {
                        assert(jv_entries(xs@)[k as int] != jv_entries(ys@)[k as int]);
                        assert(jv(*a) == Json::Object(jv_entries(xs@)));
                        assert(jv(*b) == Json::Object(jv_entries(ys@)));
                        return false;
                    }
                    k = k + 1;
                }
                assert(jv_entries(xs@) =~= jv_entries(ys@));
                true
            },
            _ => false,
        },
    }
}

/// A string value.
pub fn json_str(s: String) -> (r: JsonValue)
    ensures
        jv(r) == Json::Str(s@),
{
    JsonValue::Str(s)
}

/// An integer value.
pub fn json_int(i: i64) -> (r: JsonValue)
    ensures
        jv(r) == Json::Int(i as int),
{
    JsonValue::Number(JsonNumber::Int(i))
}

/// An unsigned integer value, kept in the canonical representation.
pub fn json_uint(u: u64) -> (r: JsonValue)
    ensures
        jv(r) == Json::Int(u as int),
{
    if u <= 9223372036854775807u64 {
        JsonValue::Number(JsonNumber::Int(u as i64))
    } else {
        JsonValue::Number(JsonNumber::UInt(u))
    }
}

} // verus!
