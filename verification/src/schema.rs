//! The `assert` middleware: a small structural schema language and the
//! validator that checks the pipeline state against it.
//!
//! A schema such as `{ data: { rows: [{ id: string }], rowCount?: number } }`
//! is parsed into an [`AssertSchema`]; [`validate_value`] reports the first
//! place where a value departs from it.

use vstd::prelude::*;
use crate::json::{JsonValue, JsonNumber, Json, jv, jv_seq, jv_entries, lemma_jv_seq, lemma_jv_entries,
    lookup, lemma_lookup_step, json_text, write_json, json_eq};
use crate::error::WebPipeError;
use crate::text::{join, lemma_join_push, join_into, dec, chars_of, string_of, append, append_str, u64_to_chars, is_ws, char_is_ws,
    is_alpha, is_alnum, is_digit, trim, trim_chars, find, find_chars, occurs_at, parse_u64_spec,
    parse_u64, slice_chars, char_index, scan_to_char, str_eq, starts_with, starts_with_at};

verus! {

broadcast use vstd::std_specs::vec::group_vec_axioms;

/// The `assert` middleware.
#[derive(Debug)]
pub struct AssertMiddleware;

/// A schema of the `assert` language.
#[derive(Debug)]
pub enum AssertSchema {
    /// `unknown` / `any`: every value.
    Unknown,
    /// `null`.
    Null,
    /// `bool` / `boolean`.
    Bool,
    /// `number`.
    Number,
    /// `string`, with optional bounds on its length in characters.
    String { min: Option<usize>, max: Option<usize> },
    /// `email`: a string with `@` and `.` that neither starts nor ends with `@`.
    Email,
    /// A literal: a string, number or boolean that must match exactly.
    Literal(JsonValue),
    /// `[item]`: an array whose every element matches `item`.
    Array(Box<AssertSchema>),
    /// `{ name: schema, opt?: schema, ... }`.
    Object(Vec<ObjectField>),
    /// `a | b | ...`: at least one member matches.
    Union(Vec<AssertSchema>),
}

/// One field of an object schema.
#[derive(Debug)]
pub struct ObjectField {
    pub name: String,
    pub optional: bool,
    pub schema: AssertSchema,
}

/// Where a value departs from a schema, and why.
#[derive(Debug)]
pub struct ValidationIssue {
    pub path: String,
    pub message: String,
}

/// The name of a value's JSON type.
pub open spec fn kind_name(j: Json) -> Seq<char> {
    match j {
        Json::Null => "null"@,
        Json::Bool(_) => "boolean"@,
        Json::Int(_) => "number"@,
        Json::Float(_) => "number"@,
        Json::Str(_) => "string"@,
        Json::Array(_) => "array"@,
        Json::Object(_) => "object"@,
    }
}

/// The message for a value of the wrong type.
pub open spec fn type_message(path: Seq<char>, expected: Seq<char>, actual: Json) -> Seq<char> {
    "Expected "@ + expected + " at "@ + path + ", got "@ + kind_name(actual)
}

/// The text `format!("{s:?}")` gives for a string: Rust's quoted, escaped form.
pub uninterp spec fn debug_text(s: Seq<char>) -> Seq<char>;

/// How a literal is shown in messages: strings in their quoted form, other
/// values as JSON text.
pub open spec fn display_json(j: Json) -> Seq<char> {
    match j {
        Json::Str(s) => debug_text(s),
        _ => json_text(j),
    }
}

/// The email test of the `email` schema.
pub open spec fn is_email(s: Seq<char>) -> bool {
    &&& s.contains('@')
    &&& s.contains('.')
    &&& !(s.len() > 0 && s[0] == '@')
    &&& !(s.len() > 0 && s.last() == '@')
}

/// The first issue of `v` against `s` at `path`, as (path, message); `None`
/// when the value conforms.
pub open spec fn schema_issue(v: Json, s: AssertSchema, path: Seq<char>) -> Option<(Seq<char>, Seq<char>)>
    decreases s, 0int,
{
    match s {
        AssertSchema::Unknown => None,
        AssertSchema::Null => if v is Null {
            None
        } else {
            Some((path, type_message(path, "null"@, v)))
        },
        AssertSchema::Bool => if v is Bool {
            None
        } else {
            Some((path, type_message(path, "boolean"@, v)))
        },
        AssertSchema::Number => if v is Int || v is Float {
            None
        } else {
            Some((path, type_message(path, "number"@, v)))
        },
        AssertSchema::String { min, max } => match v {
            Json::Str(t) => if min is Some && t.len() < min->0 {
                Some((path, "Expected string at "@ + path + " to be at least "@ + dec(min->0 as nat) + " characters"@))
            } else if max is Some && t.len() > max->0 {
                Some((path, "Expected string at "@ + path + " to be at most "@ + dec(max->0 as nat) + " characters"@))
            } else {
                None
            },
            _ => Some((path, type_message(path, "string"@, v))),
        },
        AssertSchema::Email => match v {
            Json::Str(t) => if is_email(t) {
                None
            } else {
                Some((path, "Expected valid email at "@ + path))
            },
            _ => Some((path, type_message(path, "email string"@, v))),
        },
        AssertSchema::Literal(e) => if v == jv(e) {
            None
        } else {
            Some((path, "Expected literal "@ + display_json(jv(e)) + " at "@ + path + ", got "@ + kind_name(v)))
        },
        AssertSchema::Array(item) => match v {
            Json::Array(items) => items_issue(items, *item, path, 0),
            _ => Some((path, type_message(path, "array"@, v))),
        },
        AssertSchema::Object(fields) => match v {
            Json::Object(entries) => fields_issue(entries, fields@, path, 0),
            _ => Some((path, type_message(path, "object"@, v))),
        },
        AssertSchema::Union(options) => match union_messages(v, options@, path, 0) {
            None => None,
            Some(ms) => Some((path, "Value at "@ + path + " did not match any union member: "@ + join(ms, "; "@))),
        },
    }
}

/// The path of the element at `idx` of the array at `path`.
pub open spec fn index_path(path: Seq<char>, idx: nat) -> Seq<char> {
    path + "["@ + dec(idx) + "]"@
}

/// The first issue among `items[k..]` against `item`.
pub open spec fn items_issue(items: Seq<Json>, item: AssertSchema, path: Seq<char>, k: int) -> Option<(Seq<char>, Seq<char>)>
    decreases item, items.len() - k,
{
    if k < 0 || k >= items.len() {
        None
    } else {
        match schema_issue(items[k], item, index_path(path, k as nat)) {
            Some(i) => Some(i),
            None => items_issue(items, item, path, k + 1),
        }
    }
}

/// The first issue among the fields `fs[k..]` of an object with `entries`.
pub open spec fn fields_issue(entries: Seq<(Seq<char>, Json)>, fs: Seq<ObjectField>, path: Seq<char>, k: int) -> Option<(Seq<char>, Seq<char>)>
    decreases fs, fs.len() - k,
{
    if k < 0 || k >= fs.len() {
        None
    } else {
        let cp = path + "."@ + fs[k].name@;
        match lookup(entries, fs[k].name@) {
            Some(child) => {
                proof {
                    assert(decreases_to!(fs => fs[k]));
                    assert(decreases_to!(fs[k] => fs[k].schema));
                }
                match schema_issue(child, fs[k].schema, cp) {
                    Some(i) => Some(i),
                    None => fields_issue(entries, fs, path, k + 1),
                }
            },
            None => if fs[k].optional {
                fields_issue(entries, fs, path, k + 1)
            } else {
                Some((cp, "Missing required field "@ + cp))
            },
        }
    }
}

/// The messages of the union members `opts[k..]` when none of them matches.
pub open spec fn union_messages(v: Json, opts: Seq<AssertSchema>, path: Seq<char>, k: int) -> Option<Seq<Seq<char>>>
    decreases opts, opts.len() - k,
{
    if k < 0 || k >= opts.len() {
        Some(Seq::empty())
    } else {
        match schema_issue(v, opts[k], path) {
            None => None,
            Some(i) => match union_messages(v, opts, path, k + 1) {
                None => None,
                Some(ms) => Some(seq![i.1] + ms),
            },
        }
    }
}

/// The union members from `k` on that a value conforms to exist exactly
/// when the union check finds no failure list.
proof fn lemma_union_messages(v: Json, opts: Seq<AssertSchema>, path: Seq<char>, k: int)
    requires
        0 <= k,
    ensures
        union_messages(v, opts, path, k) is None
            <==> exists|i: int| k <= i < opts.len() && #[trigger] schema_issue(v, opts[i], path) is None,
    decreases opts.len() - k,
{
    if k < opts.len() {
        lemma_union_messages(v, opts, path, k + 1);
        if schema_issue(v, opts[k], path) is None {
            assert(schema_issue(v, opts[k], path) is None);
        } else {
            if exists|i: int| k <= i < opts.len() && #[trigger] schema_issue(v, opts[i], path) is None {
                let i = choose|i: int| k <= i < opts.len() && #[trigger] schema_issue(v, opts[i], path) is None;
                assert(k + 1 <= i);
            }
        }
    }
}

/// `unknown` accepts every value.
pub proof fn law_unknown_accepts(v: Json, path: Seq<char>)
    ensures
        schema_issue(v, AssertSchema::Unknown, path) is None,
{
}

/// A value conforms to a union exactly when it conforms to one of its
/// members.
pub proof fn law_union_accepts_any_member(v: Json, options: Vec<AssertSchema>, path: Seq<char>)
    ensures
        schema_issue(v, AssertSchema::Union(options), path) is None
            <==> exists|i: int| 0 <= i < options@.len() && #[trigger] schema_issue(v, options@[i], path) is None,
{
    lemma_union_messages(v, options@, path, 0);
}

/// A field of an object schema is met by the entries: a missing field is
/// optional, a present one conforms at `path.<name>`.
pub open spec fn field_met(entries: Seq<(Seq<char>, Json)>, f: ObjectField, path: Seq<char>) -> bool {
    match lookup(entries, f.name@) {
        None => f.optional,
        Some(c) => schema_issue(c, f.schema, path + "."@ + f.name@) is None,
    }
}

/// The fields from `k` on are all met exactly when none of them reports an
/// issue.
proof fn lemma_fields_issue(entries: Seq<(Seq<char>, Json)>, fs: Seq<ObjectField>, path: Seq<char>, k: int)
    requires
        0 <= k,
    ensures
        fields_issue(entries, fs, path, k) is None
            <==> forall|i: int| k <= i < fs.len() ==> #[trigger] field_met(entries, fs[i], path),
    decreases fs.len() - k,
{
    if k < fs.len() {
        lemma_fields_issue(entries, fs, path, k + 1);
        if !field_met(entries, fs[k], path) {
            assert(fields_issue(entries, fs, path, k) is Some);
        } else {
            assert forall|i: int| k <= i < fs.len() && (forall|j: int| k + 1 <= j < fs.len() ==> #[trigger] field_met(entries, fs[j], path))
                implies #[trigger] field_met(entries, fs[i], path) by {
                if i > k {
                    assert(field_met(entries, fs[i], path));
                }
            }
        }
    }
}

/// A value conforms to an object schema exactly when it is an object whose
/// entries meet every field of the schema; keys the schema does not name
/// are allowed.
pub proof fn law_object_fields(v: Json, fields: Vec<ObjectField>, path: Seq<char>)
    ensures
        schema_issue(v, AssertSchema::Object(fields), path) is None
            <==> (v matches Json::Object(entries)
                && forall|i: int| 0 <= i < fields@.len() ==> #[trigger] field_met(entries, fields@[i], path)),
{
    if let Json::Object(entries) = v {
        lemma_fields_issue(entries, fields@, path, 0);
    }
}

/// `format!("{s:?}")`: the quoted, escaped form of a string.
#[verifier::external_body]
fn debug_quote(s: &str) -> (r: String)
    ensures
        r@ == debug_text(s@),
{
    format!("{s:?}")
}

/// The name of a value's type.
fn kind_name_of(v: &JsonValue) -> (r: &'static str)
    ensures
        r@ == kind_name(jv(*v)),
{
    match v {
        JsonValue::Null => "null",
        JsonValue::Bool(_) => "boolean",
        JsonValue::Number(JsonNumber::Int(_)) => "number",
        JsonValue::Number(JsonNumber::UInt(_)) => "number",
        JsonValue::Number(JsonNumber::Float(_)) => "number",
        JsonValue::Str(_) => "string",
        JsonValue::Array(_) => "array",
        JsonValue::Object(_) => "object",
    }
}

/// An issue of the wrong type.
fn type_issue(path: &[char], expected: &str, actual: &JsonValue) -> (r: ValidationIssue)
    ensures
        r.path@ == path@,
        r.message@ == type_message(path@, expected@, jv(*actual)),
{
    let mut m: Vec<char> = Vec::new();
    append_str(&mut m, "Expected ");
    append_str(&mut m, expected);
    append_str(&mut m, " at ");
    append(&mut m, path);
    append_str(&mut m, ", got ");
    append_str(&mut m, kind_name_of(actual));
    assert(m@ =~= type_message(path@, expected@, jv(*actual)));
    ValidationIssue { path: string_of(path), message: string_of(m.as_slice()) }
}

/// An issue with the given path and message.
fn issue(path: &[char], m: &[char]) -> (r: ValidationIssue)
    ensures
        r.path@ == path@,
        r.message@ == m@,
{
    ValidationIssue { path: string_of(path), message: string_of(m) }
}

/// The email test.
pub fn email_ok(s: &[char]) -> (b: bool)
    ensures
        b == is_email(s@),
{
    let mut at = false;
    let mut dot = false;
    let mut i: usize = 0;
    while i < s.len()
        invariant
            i <= s@.len(),
            at == s@.take(i as int).contains('@'),
            dot == s@.take(i as int).contains('.'),
        decreases s@.len() - i,
    {
        proof {
            let t = s@.take(i + 1);
            assert(t =~= s@.take(i as int).push(s@[i as int]));
            if s@.take(i as int).contains('@') {
                let w = choose|w: int| 0 <= w < i && s@.take(i as int)[w] == '@';
                assert(t[w] == '@');
            }
            if s@.take(i as int).contains('.') {
                let w = choose|w: int| 0 <= w < i && s@.take(i as int)[w] == '.';
                assert(t[w] == '.');
            }
            assert(t[i as int] == s@[i as int]);
            if t.contains('@') && !s@.take(i as int).contains('@') {
                let w = choose|w: int| 0 <= w < t.len() && t[w] == '@';
                if w < i {
                    assert(s@.take(i as int)[w] == '@');
                }
            }
            if t.contains('.') && !s@.take(i as int).contains('.') {
                let w = choose|w: int| 0 <= w < t.len() && t[w] == '.';
                if w < i {
                    assert(s@.take(i as int)[w] == '.');
                }
            }
        }
        if s[i] == '@' {
            at = true;
        }
        if s[i] == '.' {
            dot = true;
        }
        i = i + 1;
    }
    assert(s@.take(s@.len() as int) =~= s@);
    let starts_at = s.len() > 0 && s[0] == '@';
    let ends_at = s.len() > 0 && s[s.len() - 1] == '@';
    at && dot && !starts_at && !ends_at
}

/// How a literal is shown in a message.
fn display_literal(v: &JsonValue) -> (r: Vec<char>)
    ensures
        r@ == display_json(jv(*v)),
{
    match v {
        JsonValue::Str(s) => {
            let q = debug_quote(s.as_str());
            chars_of(q.as_str())
        },
        _ => {
            let mut out: Vec<char> = Vec::new();
            write_json(v, &mut out);
            assert(out@ =~= json_text(jv(*v)));
            out
        },
    }
}

/// Checks `value` against `schema`, reporting the first departure found
/// (fields in schema order, array elements in order, union members in
/// order) with its path below `path`.
pub fn validate_value(value: &JsonValue, schema: &AssertSchema, path: &[char]) -> (r: Result<(), ValidationIssue>)
    ensures
        match r {
            Ok(()) => schema_issue(jv(*value), *schema, path@) is None,
            Err(e) => schema_issue(jv(*value), *schema, path@) == Some((e.path@, e.message@)),
        },
    decreases schema,
{
    match schema {
        AssertSchema::Unknown => Ok(()),
        AssertSchema::Null => {
            if value.is_null() {
                Ok(())
            } else {
                Err(type_issue(path, "null", value))
            }
        },
        AssertSchema::Bool => {
            match value {
                JsonValue::Bool(_) => Ok(()),
                _ => Err(type_issue(path, "boolean", value)),
            }
        },
        AssertSchema::Number => {
            match value {
                JsonValue::Number(_) => Ok(()),
                _ => Err(type_issue(path, "number", value)),
            }
        },
        AssertSchema::String { min, max } => {
            match value {
                JsonValue::Str(s) => {
                    let cs = chars_of(s.as_str());
                    let len = cs.len();
                    match min {
                        Some(mn) => {
                            if len < *mn {
                                let mut m: Vec<char> = Vec::new();
                                append_str(&mut m, "Expected string at ");
                                append(&mut m, path);
                                append_str(&mut m, " to be at least ");
                                let d = u64_to_chars(*mn as u64);
                                append(&mut m, d.as_slice());
                                append_str(&mut m, " characters");
                                assert(m@ =~= "Expected string at "@ + path@ + " to be at least "@ + dec(*mn as nat) + " characters"@);
                                return Err(issue(path, m.as_slice()));
                            }
                        },
                        None => {},
                    }
                    match max {
                        Some(mx) => {
                            if len > *mx {
                                let mut m: Vec<char> = Vec::new();
                                append_str(&mut m, "Expected string at ");
                                append(&mut m, path);
                                append_str(&mut m, " to be at most ");
                                let d = u64_to_chars(*mx as u64);
                                append(&mut m, d.as_slice());
                                append_str(&mut m, " characters");
                                assert(m@ =~= "Expected string at "@ + path@ + " to be at most "@ + dec(*mx as nat) + " characters"@);
                                return Err(issue(path, m.as_slice()));
                            }
                        },
                        None => {},
                    }
                    Ok(())
                },
                _ => Err(type_issue(path, "string", value)),
            }
        },
        AssertSchema::Email => {
            match value {
                JsonValue::Str(s) => {
                    let cs = chars_of(s.as_str());
                    if email_ok(cs.as_slice()) {
                        Ok(())
                    } else {
                        let mut m: Vec<char> = Vec::new();
                        append_str(&mut m, "Expected valid email at ");
                        append(&mut m, path);
                        assert(m@ =~= "Expected valid email at "@ + path@);
                        Err(issue(path, m.as_slice()))
                    }
                },
                _ => Err(type_issue(path, "email string", value)),
            }
        },
        AssertSchema::Literal(expected) => {
            if json_eq(value, expected) {
                Ok(())
            } else {
                let mut m: Vec<char> = Vec::new();
                append_str(&mut m, "Expected literal ");
                let d = display_literal(expected);
                append(&mut m, d.as_slice());
                append_str(&mut m, " at ");
                append(&mut m, path);
                append_str(&mut m, ", got ");
                append_str(&mut m, kind_name_of(value));
                assert(m@ =~= "Expected literal "@ + display_json(jv(*expected)) + " at "@ + path@ + ", got "@ + kind_name(jv(*value)));
                Err(issue(path, m.as_slice()))
            }
        },
        AssertSchema::Array(item) => {
            match value {
                JsonValue::Array(items) => {
                    let ghost js = jv_seq(items@);
                    proof { lemma_jv_seq(items@); }
                    let mut k: usize = 0;
                    while k < items.len()
                        invariant
                            *schema == AssertSchema::Array(*item),
                            *value == JsonValue::Array(*items),
                            js == jv_seq(items@),
                            js.len() == items@.len(),
                            forall|m: int| 0 <= m < items@.len() ==> #[trigger] js[m] == jv(items@[m]),
                            k <= items@.len(),
                            items_issue(js, **item, path@, 0) == items_issue(js, **item, path@, k as int),
                        decreases items@.len() - k,
                    {
                        let mut p: Vec<char> = Vec::new();
                        append(&mut p, path);
                        p.push('[');
                        let d = u64_to_chars(k as u64);
                        append(&mut p, d.as_slice());
                        p.push(']');
                        proof {
                            reveal_strlit("[");
                            reveal_strlit("]");
                        }
                        assert(p@ =~= index_path(path@, k as nat));
                        match validate_value(&items[k], &**item, p.as_slice()) {
                            Ok(()) => {},
                            Err(e) => {
                                return Err(e);
                            },
                        }
                        k = k + 1;
                    }
                    Ok(())
                },
                _ => Err(type_issue(path, "array", value)),
            }
        },
        AssertSchema::Object(fields) => {
            match value {
                JsonValue::Object(_) => {
                    let ghost es = match jv(*value) {
                        Json::Object(e) => e,
                        _ => Seq::empty(),
                    };
                    let mut k: usize = 0;
                    while k < fields.len()
                        invariant
                            *schema == AssertSchema::Object(*fields),
                            jv(*value) == Json::Object(es),
                            k <= fields@.len(),
                            fields_issue(es, fields@, path@, 0) == fields_issue(es, fields@, path@, k as int),
                        decreases fields@.len() - k,
                    {
                        proof {
                            vstd::std_specs::vec::axiom_vec_index_decreases(*fields, k as int);
                            assert(decreases_to!(*schema => (*schema)->Object_0));
                            assert(decreases_to!(fields[k as int] => fields[k as int].schema));
                        }
                        let f = &fields[k];
                        let mut cp: Vec<char> = Vec::new();
                        append(&mut cp, path);
                        cp.push('.');
                        append_str(&mut cp, f.name.as_str());
                        proof { reveal_strlit("."); }
                        assert(cp@ =~= path@ + "."@ + fields@[k as int].name@);
                        match value.get(f.name.as_str()) {
                            Some(child) => {
                                match validate_value(child, &f.schema, cp.as_slice()) {
                                    Ok(()) => {},
                                    Err(e) => {
                                        return Err(e);
                                    },
                                }
                            },
                            None => {
                                if !f.optional {
                                    let mut m: Vec<char> = Vec::new();
                                    append_str(&mut m, "Missing required field ");
                                    append(&mut m, cp.as_slice());
                                    assert(m@ =~= "Missing required field "@ + cp@);
                                    return Err(issue(cp.as_slice(), m.as_slice()));
                                }
                            },
                        }
                        k = k + 1;
                    }
                    Ok(())
                },
                _ => Err(type_issue(path, "object", value)),
            }
        },
        AssertSchema::Union(options) => {
            let mut messages: Vec<Vec<char>> = Vec::new();
            let mut k: usize = 0;
            while k < options.len()
                invariant
                    *schema == AssertSchema::Union(*options),
                    k <= options@.len(),
                    union_messages(jv(*value), options@, path@, 0) == match union_messages(jv(*value), options@, path@, k as int) {
                        None => None,
                        Some(ms) => Some(messages@.map_values(|x: Vec<char>| x@) + ms),
                    },
                decreases options@.len() - k,
            {
                proof {
                    vstd::std_specs::vec::axiom_vec_index_decreases(*options, k as int);
                    assert(decreases_to!(*schema => (*schema)->Union_0));
                }
                match validate_value(value, &options[k], path) {
                    Ok(()) => {
                        return Ok(());
                    },
                    Err(e) => {
                        let ghost before = messages@.map_values(|x: Vec<char>| x@);
                        let m = chars_of(e.message.as_str());
                        messages.push(m);
                        assert(messages@.map_values(|x: Vec<char>| x@) =~= before.push(e.message@));
                        proof {
                            match union_messages(jv(*value), options@, path@, k + 1) {
                                None => {},
                                Some(ms) => {
                                    assert(before + (seq![e.message@] + ms) =~= before.push(e.message@) + ms);
                                },
                            }
                        }
                    },
                }
                k = k + 1;
            }
            let ghost ms = messages@.map_values(|x: Vec<char>| x@);
            assert(ms + Seq::<Seq<char>>::empty() =~= ms);
            let mut m: Vec<char> = Vec::new();
            append_str(&mut m, "Value at ");
            append(&mut m, path);
            append_str(&mut m, " did not match any union member: ");
            join_into(&mut m, &messages, "; ");
            assert(m@ =~= "Value at "@ + path@ + " did not match any union member: "@ + join(ms, "; "@));
            Err(issue(path, m.as_slice()))
        },
    }
}



/// Identifier start: an ASCII letter or `_`.
pub open spec fn ident_start(c: char) -> bool {
    is_alpha(c) || c == '_'
}

/// Identifier continuation: an ASCII letter or digit, `_` or `-`.
pub open spec fn ident_continue(c: char) -> bool {
    is_alnum(c) || c == '_' || c == '-'
}

/// Whether `ch` may start an identifier.
pub fn is_ident_start(ch: char) -> (b: bool)
    ensures
        b == ident_start(ch),
{
    ('a' <= ch && ch <= 'z') || ('A' <= ch && ch <= 'Z') || ch == '_'
}

/// Whether `ch` may continue an identifier.
pub fn is_ident_continue(ch: char) -> (b: bool)
    ensures
        b == ident_continue(ch),
{
    ('a' <= ch && ch <= 'z') || ('A' <= ch && ch <= 'Z') || ('0' <= ch && ch <= '9') || ch == '_' || ch == '-'
}

/// The message of a failed `expect`.
pub open spec fn expect_message(expected: char, found: Option<char>) -> Seq<char> {
    "expected '"@ + seq![expected] + "', got '"@ + match found {
        Some(c) => seq![c],
        None => "end of schema"@,
    } + "'"@
}

/// The character at `p`, if any.
pub open spec fn char_at(cs: Seq<char>, p: int) -> Option<char> {
    if 0 <= p < cs.len() {
        Some(cs[p])
    } else {
        None
    }
}

/// The character a backslash escape stands for in a schema string.
pub open spec fn unescape(c: char) -> Option<char> {
    if c == '"' {
        Some('"')
    } else if c == '\\' {
        Some('\\')
    } else if c == '/' {
        Some('/')
    } else if c == 'n' {
        Some('\n')
    } else if c == 'r' {
        Some('\r')
    } else if c == 't' {
        Some('\t')
    } else {
        None
    }
}

/// The rest of a string literal from `p` (after its opening quote): its
/// decoded text and the position after the closing quote.
pub open spec fn string_body(cs: Seq<char>, p: int) -> Result<(Seq<char>, int), Seq<char>>
    decreases cs.len() - p,
{
    if p < 0 || p >= cs.len() {
        Err("unterminated string literal"@)
    } else if cs[p] == '"' {
        Ok((Seq::empty(), p + 1))
    } else if cs[p] == '\\' {
        if p + 1 >= cs.len() {
            Err("unterminated string escape"@)
        } else {
            match unescape(cs[p + 1]) {
                Some(c) => match string_body(cs, p + 2) {
                    Ok((t, q)) => Ok((seq![c] + t, q)),
                    Err(m) => Err(m),
                },
                None => Err("unsupported string escape '\\"@ + seq![cs[p + 1]] + "'"@),
            }
        }
    } else {
        match string_body(cs, p + 1) {
            Ok((t, q)) => Ok((seq![cs[p]] + t, q)),
            Err(m) => Err(m),
        }
    }
}

/// `str::parse::<usize>`.
pub open spec fn parse_usize_spec(s: Seq<char>) -> Option<usize> {
    match parse_u64_spec(s) {
        Some(n) => if n <= usize::MAX {
            Some(n as usize)
        } else {
            None
        },
        None => None,
    }
}

/// The bounds written inside `string(...)`: `n`, `a..b`, `a..` or `..b`
/// (each side trimmed; an empty side is no bound).
pub open spec fn range_bounds(raw: Seq<char>) -> Result<(Option<usize>, Option<usize>), Seq<char>> {
    let err = Err("invalid string range '"@ + raw + "'"@);
    match find(raw, ".."@) {
        None => if raw.len() == 0 {
            err
        } else {
            match parse_usize_spec(raw) {
                Some(n) => Ok((Some(n), Some(n))),
                None => err,
            }
        },
        Some(i) => {
            let a = trim(raw.take(i));
            let rest = raw.skip(i + 2);
            let b = trim(rest);
            if find(rest, ".."@) is Some {
                err
            } else if a.len() > 0 && parse_usize_spec(a) is None {
                err
            } else if b.len() > 0 && parse_usize_spec(b) is None {
                err
            } else {
                Ok((
                    if a.len() == 0 { None } else { parse_usize_spec(a) },
                    if b.len() == 0 { None } else { parse_usize_spec(b) },
                ))
            }
        },
    }
}

/// The text `serde_json` prints for the number it reads from the JSON
/// number text `text` (`Number::from_str`, then `Display`); `None` when the
/// text is not a number it accepts. With the crate's `float_roundtrip`
/// feature the reading is correctly rounded, as `str::parse::<f64>` is.
pub uninterp spec fn number_text(text: Seq<char>) -> Option<Seq<char>>;

/// Reads JSON number text with `serde_json::Number::from_str` (correctly
/// rounded under `float_roundtrip`) and prints the number back.
#[verifier::external_body]
fn json_number_text(text: &str) -> (r: Option<String>)
    ensures
        match r {
            Some(t) => number_text(text@) == Some(t@),
            None => number_text(text@) is None,
        },
{
    match text.parse::<serde_json::Number>() {
        Ok(n) => Some(n.to_string()),
        Err(_) => None,
    }
}

/// `s` without its leading `0`s.
pub open spec fn strip_zeros(s: Seq<char>) -> Seq<char>
    decreases s.len(),
{
    if s.len() > 0 && s[0] == '0' {
        strip_zeros(s.drop_first())
    } else {
        s
    }
}

/// A number literal of a schema (`-`, digits, `.`, digits; either digit run
/// may be empty but not both) written as JSON fraction text, which reads as
/// the same floating-point value: leading zeros dropped, `0` written for an
/// empty digit run. `None` when there is no digit.
pub open spec fn fraction_form(neg: bool, int_part: Seq<char>, frac: Seq<char>) -> Option<Seq<char>> {
    if int_part.len() == 0 && frac.len() == 0 {
        None
    } else {
        Some((if neg { seq!['-'] } else { Seq::empty() })
            + (if strip_zeros(int_part).len() == 0 { seq!['0'] } else { strip_zeros(int_part) })
            + seq!['.']
            + (if frac.len() == 0 { seq!['0'] } else { frac }))
    }
}

/// The first position at or after `p` that is not whitespace.
pub open spec fn ws_end(cs: Seq<char>, p: int) -> int
    decreases cs.len() - p,
{
    if 0 <= p < cs.len() && is_ws(cs[p]) {
        ws_end(cs, p + 1)
    } else {
        p
    }
}

/// The first position at or after `p` that is neither whitespace nor a comma.
pub open spec fn sep_end(cs: Seq<char>, p: int) -> int
    decreases cs.len() - p,
{
    if 0 <= p < cs.len() && (is_ws(cs[p]) || cs[p] == ',') {
        sep_end(cs, p + 1)
    } else {
        p
    }
}

/// Skipping whitespace first does not change where separators end.
pub proof fn lemma_sep_end_ws(cs: Seq<char>, p: int)
    ensures
        sep_end(cs, p) == sep_end(cs, ws_end(cs, p)),
    decreases cs.len() - p,
{
    if 0 <= p < cs.len() && is_ws(cs[p]) {
        lemma_sep_end_ws(cs, p + 1);
    }
}

/// `ws_end` stops at a non-whitespace character or the end, never before `p`.
pub proof fn lemma_ws_end(cs: Seq<char>, p: int)
    requires
        0 <= p <= cs.len(),
    ensures
        p <= ws_end(cs, p) <= cs.len(),
        ws_end(cs, p) < cs.len() ==> !is_ws(cs[ws_end(cs, p)]),
    decreases cs.len() - p,
{
    if 0 <= p < cs.len() && is_ws(cs[p]) {
        lemma_ws_end(cs, p + 1);
    }
}

/// `sep_end` stops at a character that is neither whitespace nor a comma.
pub proof fn lemma_sep_end(cs: Seq<char>, p: int)
    requires
        0 <= p <= cs.len(),
    ensures
        p <= sep_end(cs, p) <= cs.len(),
    decreases cs.len() - p,
{
    if 0 <= p < cs.len() && (is_ws(cs[p]) || cs[p] == ',') {
        lemma_sep_end(cs, p + 1);
    }
}

/// A string literal at `p`: whitespace, a quote and the body.
pub open spec fn string_lit(cs: Seq<char>, p: int) -> Result<(Seq<char>, int), Seq<char>> {
    let q = ws_end(cs, p);
    if char_at(cs, q) == Some('"') {
        string_body(cs, q + 1)
    } else {
        Err(expect_message('"', char_at(cs, q)))
    }
}

/// The first position at or after `p` whose character cannot continue an
/// identifier.
pub open spec fn ident_end(cs: Seq<char>, p: int) -> int
    decreases cs.len() - p,
{
    if 0 <= p < cs.len() && ident_continue(cs[p]) {
        ident_end(cs, p + 1)
    } else {
        p
    }
}

/// The first position at or after `p` that is not an ASCII digit.
pub open spec fn digits_end(cs: Seq<char>, p: int) -> int
    decreases cs.len() - p,
{
    if 0 <= p < cs.len() && is_digit(cs[p]) {
        digits_end(cs, p + 1)
    } else {
        p
    }
}

/// `digits_end` never moves backwards nor past the end.
pub proof fn lemma_digits_end(cs: Seq<char>, p: int)
    requires
        0 <= p <= cs.len(),
    ensures
        p <= digits_end(cs, p) <= cs.len(),
    decreases cs.len() - p,
{
    if 0 <= p < cs.len() && is_digit(cs[p]) {
        lemma_digits_end(cs, p + 1);
    }
}

/// An object key at `p`: a string literal or an identifier.
pub open spec fn key_spec(cs: Seq<char>, p: int) -> Result<(Seq<char>, int), Seq<char>> {
    let q = ws_end(cs, p);
    match char_at(cs, q) {
        Some(c) => if c == '"' {
            string_lit(cs, q)
        } else if ident_start(c) {
            Ok((cs.subrange(q, ident_end(cs, q + 1)), ident_end(cs, q + 1)))
        } else {
            Err("expected object field name, got '"@ + seq![c] + "'"@)
        },
        None => Err("expected object field name, got end of schema"@),
    }
}

/// The optional `(...)` bounds after `string`, and the position after them.
pub open spec fn optional_range(cs: Seq<char>, p: int) -> Result<((Option<usize>, Option<usize>), int), Seq<char>> {
    let q = ws_end(cs, p);
    if char_at(cs, q) != Some('(') {
        Ok(((None, None), q))
    } else {
        let a = ws_end(cs, q + 1);
        let e = match char_index(cs.skip(a), ')') {
            Some(k) => a + k,
            None => cs.len() as int,
        };
        if e >= cs.len() {
            Err(expect_message(')', None))
        } else {
            match range_bounds(trim(cs.subrange(a, e))) {
                Ok(b) => Ok((b, e + 1)),
                Err(m) => Err(m),
            }
        }
    }
}

/// The number literal at `p`: its JSON fraction form and the position
/// after it, or the message for an invalid literal.
pub open spec fn number_literal(cs: Seq<char>, p: int) -> Result<(Seq<char>, int), Seq<char>> {
    let neg = char_at(cs, p) == Some('-');
    let p1 = if neg { p + 1 } else { p };
    let p2 = digits_end(cs, p1);
    let dot = char_at(cs, p2) == Some('.');
    let p3 = if dot { digits_end(cs, p2 + 1) } else { p2 };
    let frac = if dot { cs.subrange(p2 + 1, p3) } else { Seq::empty() };
    let err = Err("invalid number literal '"@ + cs.subrange(p, p3) + "'"@);
    match fraction_form(neg, cs.subrange(p1, p2), frac) {
        None => err,
        Some(f) => match number_text(f) {
            Some(t) => Ok((t, p3)),
            None => err,
        },
    }
}

/// `str::parse::<usize>` on characters.
pub fn parse_usize(v: &[char]) -> (r: Option<usize>)
    ensures
        r == parse_usize_spec(v@),
{
    match parse_u64(v) {
        Some(n) => if n <= usize::MAX as u64 {
            Some(n as usize)
        } else {
            None
        },
        None => None,
    }
}

/// The message for invalid bounds.
fn range_error(raw: &[char]) -> (r: String)
    ensures
        r@ == "invalid string range '"@ + raw@ + "'"@,
{
    let mut m: Vec<char> = Vec::new();
    append_str(&mut m, "invalid string range '");
    append(&mut m, raw);
    append_str(&mut m, "'");
    string_of(m.as_slice())
}

/// The bounds written inside `string(...)`.
pub fn parse_range_bounds(raw: &[char]) -> (r: Result<(Option<usize>, Option<usize>), String>)
    ensures
        match r {
            Ok(b) => range_bounds(raw@) == Ok::<(Option<usize>, Option<usize>), Seq<char>>(b),
            Err(m) => range_bounds(raw@) == Err::<(Option<usize>, Option<usize>), Seq<char>>(m@),
        },
{
    let dots = chars_of("..");
    proof { reveal_strlit(".."); }
    match find_chars(raw, dots.as_slice()) {
        None => {
            if raw.len() == 0 {
                return Err(range_error(raw));
            }
            match parse_usize(raw) {
                Some(n) => Ok((Some(n), Some(n))),
                None => Err(range_error(raw)),
            }
        },
        Some(i) => {
            let n = raw.len();
            let head = slice_chars(raw, 0, i);
            assert(head@ =~= raw@.take(i as int));
            let rest = slice_chars(raw, i + 2, raw.len());
            assert(rest@ =~= raw@.skip(i + 2));
            let a = trim_chars(head.as_slice());
            let b = trim_chars(rest.as_slice());
            if find_chars(rest.as_slice(), dots.as_slice()).is_some() {
                return Err(range_error(raw));
            }
            let lo = if a.len() == 0 {
                None
            } else {
                match parse_usize(a.as_slice()) {
                    Some(n) => Some(n),
                    None => {
                        return Err(range_error(raw));
                    },
                }
            };
            let hi = if b.len() == 0 {
                None
            } else {
                match parse_usize(b.as_slice()) {
                    Some(n) => Some(n),
                    None => {
                        return Err(range_error(raw));
                    },
                }
            };
            Ok((lo, hi))
        },
    }
}

/// The schema a type name or keyword literal at `p` stands for, and the
/// position after it.
pub open spec fn named_schema(cs: Seq<char>, p: int) -> Result<(AssertSchema, int), Seq<char>> {
    let e = ident_end(cs, p + 1);
    let w = cs.subrange(p, e);
    if w == "unknown"@ || w == "any"@ {
        Ok((AssertSchema::Unknown, e))
    } else if w == "null"@ {
        Ok((AssertSchema::Null, e))
    } else if w == "bool"@ || w == "boolean"@ {
        Ok((AssertSchema::Bool, e))
    } else if w == "number"@ {
        Ok((AssertSchema::Number, e))
    } else if w == "email"@ {
        Ok((AssertSchema::Email, e))
    } else if w == "true"@ {
        Ok((AssertSchema::Literal(JsonValue::Bool(true)), e))
    } else if w == "false"@ {
        Ok((AssertSchema::Literal(JsonValue::Bool(false)), e))
    } else if w == "string"@ {
        match optional_range(cs, e) {
            Ok(((mn, mx), q)) => Ok((AssertSchema::String { min: mn, max: mx }, q)),
            Err(m) => Err(m),
        }
    } else {
        Err("unknown assert type '"@ + w + "'"@)
    }
}

/// The model of a schema: names as character sequences, literals as JSON
/// models.
pub enum SchemaM {
    Unknown,
    Null,
    Bool,
    Number,
    Str { min: Option<usize>, max: Option<usize> },
    Email,
    Literal(Json),
    Array(Box<SchemaM>),
    Object(Seq<(Seq<char>, bool, SchemaM)>),
    Union(Seq<SchemaM>),
}

/// The model of a schema.
pub open spec fn schema_m(s: AssertSchema) -> SchemaM
    decreases s,
{
    match s {
        AssertSchema::Unknown => SchemaM::Unknown,
        AssertSchema::Null => SchemaM::Null,
        AssertSchema::Bool => SchemaM::Bool,
        AssertSchema::Number => SchemaM::Number,
        AssertSchema::String { min, max } => SchemaM::Str { min, max },
        AssertSchema::Email => SchemaM::Email,
        AssertSchema::Literal(e) => SchemaM::Literal(jv(e)),
        AssertSchema::Array(item) => SchemaM::Array(Box::new(schema_m(*item))),
        AssertSchema::Object(fields) => SchemaM::Object(fields_m(fields@)),
        AssertSchema::Union(options) => SchemaM::Union(options_m(options@)),
    }
}

/// The models of object fields.
pub open spec fn fields_m(fs: Seq<ObjectField>) -> Seq<(Seq<char>, bool, SchemaM)>
    decreases fs,
{
    if fs.len() == 0 {
        Seq::empty()
    } else {
        proof {
            assert(decreases_to!(fs => fs.drop_last()));
            assert(decreases_to!(fs => fs[fs.len() - 1]));
            assert(decreases_to!(fs[fs.len() - 1] => fs[fs.len() - 1].schema));
        }
        fields_m(fs.drop_last()).push((fs.last().name@, fs.last().optional, schema_m(fs.last().schema)))
    }
}

/// The models of union members.
pub open spec fn options_m(os: Seq<AssertSchema>) -> Seq<SchemaM>
    decreases os,
{
    if os.len() == 0 {
        Seq::empty()
    } else {
        proof {
            assert(decreases_to!(os => os.drop_last()));
            assert(decreases_to!(os => os[os.len() - 1]));
        }
        options_m(os.drop_last()).push(schema_m(os.last()))
    }
}

/// `...` at `p`.
pub open spec fn ellipsis_at(cs: Seq<char>, p: int) -> bool {
    p + 3 <= cs.len() && 0 <= p && cs.subrange(p, p + 3) == seq!['.', '.', '.']
}

/// Alternatives separated by `|` from `p`: the schema (a single
/// alternative stands for itself) and the position after the whitespace
/// that follows the last one.
pub open spec fn union_at(cs: Seq<char>, p: int) -> Result<(SchemaM, int), Seq<char>>
    decreases cs.len() - p, 2int,
{
    match primary_at(cs, p) {
        Err(m) => Err(m),
        Ok((first, e)) => if !(p <= e <= cs.len()) {
            Err(Seq::empty())
        } else {
            match more_at(cs, e) {
                Err(m) => Err(m),
                Ok((rest, f)) => if rest.len() == 0 {
                    Ok((first, f))
                } else {
                    Ok((SchemaM::Union(seq![first] + rest), f))
                },
            }
        },
    }
}

/// The alternatives `| a | b ...` that follow at `r`.
pub open spec fn more_at(cs: Seq<char>, r: int) -> Result<(Seq<SchemaM>, int), Seq<char>>
    decreases cs.len() - r, 1int,
{
    let w = ws_end(cs, r);
    if char_at(cs, w) != Some('|') {
        Ok((Seq::empty(), w))
    } else if !(r <= w) {
        Err(Seq::empty())
    } else {
        match primary_at(cs, w + 1) {
            Err(m) => Err(m),
            Ok((o, e)) => if !(r < e <= cs.len()) {
                Err(Seq::empty())
            } else {
                match more_at(cs, e) {
                    Err(m) => Err(m),
                    Ok((rest, f)) => Ok((seq![o] + rest, f)),
                }
            },
        }
    }
}

/// One alternative at `p`, after whitespace: an object, an array, a string
/// or number literal, or a type name or keyword literal.
pub open spec fn primary_at(cs: Seq<char>, p: int) -> Result<(SchemaM, int), Seq<char>>
    decreases cs.len() - p, 1int,
{
    let q = ws_end(cs, p);
    if !(0 <= p <= q) {
        Err(Seq::empty())
    } else {
        match char_at(cs, q) {
            None => Err("unexpected end of schema"@),
            Some(ch) => if ch == '{' {
                object_at(cs, q)
            } else if ch == '[' {
                array_at(cs, q)
            } else if ch == '"' {
                match string_lit(cs, q) {
                    Ok((t, e)) => Ok((SchemaM::Literal(Json::Str(t)), e)),
                    Err(m) => Err(m),
                }
            } else if ch == '-' || is_digit(ch) {
                match number_literal(cs, q) {
                    Ok((t, e)) => Ok((SchemaM::Literal(Json::Float(t)), e)),
                    Err(m) => Err(m),
                }
            } else if ident_start(ch) {
                match named_schema(cs, q) {
                    Ok((sch, e)) => Ok((schema_m(sch), e)),
                    Err(m) => Err(m),
                }
            } else {
                Err("unexpected token '"@ + seq![ch] + "'"@)
            },
        }
    }
}

/// An object schema at `p` (after whitespace): `{`, then its fields.
pub open spec fn object_at(cs: Seq<char>, p: int) -> Result<(SchemaM, int), Seq<char>>
    decreases cs.len() - p, 0int,
{
    let q = ws_end(cs, p);
    if char_at(cs, q) != Some('{') {
        Err(expect_message('{', char_at(cs, q)))
    } else if !(p <= q) {
        Err(Seq::empty())
    } else {
        match fields_at(cs, q + 1) {
            Err(m) => Err(m),
            Ok((fs, e)) => Ok((SchemaM::Object(fs), e)),
        }
    }
}

/// The fields of an object schema from `r` up to and past its `}`:
/// separators (whitespace and commas) and `...` are skipped; each field is
/// a key, an optional `?`, `:` and a schema.
pub open spec fn fields_at(cs: Seq<char>, r: int) -> Result<(Seq<(Seq<char>, bool, SchemaM)>, int), Seq<char>>
    decreases cs.len() - r, 4int,
{
    let s = sep_end(cs, r);
    if !(0 <= r <= s <= cs.len()) {
        Err(Seq::empty())
    } else if char_at(cs, s) == Some('}') {
        Ok((Seq::empty(), s + 1))
    } else if ellipsis_at(cs, s) {
        fields_at(cs, s + 3)
    } else {
        match field_at(cs, s) {
            Err(m) => Err(m),
            Ok((fm, e)) => if !(r < e <= cs.len()) {
                Err(Seq::empty())
            } else {
                match fields_at(cs, e) {
                    Err(m) => Err(m),
                    Ok((rest, f)) => Ok((seq![fm] + rest, f)),
                }
            },
        }
    }
}

/// One field of an object schema at `s`: a key, an optional `?`, `:` and a
/// schema.
pub open spec fn field_at(cs: Seq<char>, s: int) -> Result<((Seq<char>, bool, SchemaM), int), Seq<char>>
    decreases cs.len() - s, 3int,
{
    match key_spec(cs, s) {
        Err(m) => Err(m),
        Ok((k, e1)) => {
            let a = ws_end(cs, e1);
            let opt = char_at(cs, a) == Some('?');
            let b = ws_end(cs, if opt { a + 1 } else { a });
            let c = ws_end(cs, b);
            if char_at(cs, c) != Some(':') {
                Err(expect_message(':', char_at(cs, c)))
            } else if !(s <= c) {
                Err(Seq::empty())
            } else {
                match union_at(cs, c + 1) {
                    Err(m) => Err(m),
                    Ok((sch, e)) => Ok(((k, opt, sch), e)),
                }
            }
        },
    }
}

/// An array schema at `p` (after whitespace): `[]` for any elements, else
/// `[item]`.
pub open spec fn array_at(cs: Seq<char>, p: int) -> Result<(SchemaM, int), Seq<char>>
    decreases cs.len() - p, 0int,
{
    let q = ws_end(cs, p);
    if char_at(cs, q) != Some('[') {
        Err(expect_message('[', char_at(cs, q)))
    } else {
        let a = ws_end(cs, q + 1);
        if char_at(cs, a) == Some(']') {
            Ok((SchemaM::Array(Box::new(SchemaM::Unknown)), a + 1))
        } else if !(p < a <= cs.len()) {
            Err(Seq::empty())
        } else {
            match union_at(cs, a) {
                Err(m) => Err(m),
                Ok((item, e)) => {
                    let c = ws_end(cs, sep_end(cs, e));
                    if char_at(cs, c) == Some(']') {
                        Ok((SchemaM::Array(Box::new(item)), c + 1))
                    } else {
                        Err(expect_message(']', char_at(cs, c)))
                    }
                },
            }
        }
    }
}

/// A whole schema from `p`: alternatives followed only by whitespace.
pub open spec fn schema_at(cs: Seq<char>, p: int) -> Result<SchemaM, Seq<char>> {
    match union_at(cs, p) {
        Err(m) => Err(m),
        Ok((sch, e)) => {
            let w = ws_end(cs, e);
            if w >= cs.len() {
                Ok(sch)
            } else {
                Err("unexpected token '"@ + seq![if 0 <= w { cs[w] } else { '\0' }] + "'"@)
            }
        },
    }
}

/// A reader over the characters of a schema.
pub struct Parser {
    pub chars: Vec<char>,
    pub pos: usize,
}

impl Parser {
    /// The reader's position is within its input.
    pub open spec fn wf(&self) -> bool {
        self.pos <= self.chars@.len()
    }

    /// A reader at the start of `input`.
    pub fn new(input: &str) -> (r: Self)
        ensures
            r.chars@ == input@,
            r.pos == 0,
            r.wf(),
    {
        Parser { chars: chars_of(input), pos: 0 }
    }

    /// The character at the position.
    pub fn peek(&self) -> (r: Option<char>)
        ensures
            r == char_at(self.chars@, self.pos as int),
    {
        if self.pos < self.chars.len() {
            Some(self.chars[self.pos])
        } else {
            None
        }
    }

    /// The position is at the end of the input.
    pub fn is_eof(&self) -> (b: bool)
        ensures
            b == (self.pos >= self.chars@.len()),
    {
        self.pos >= self.chars.len()
    }

    /// The characters `start..end` of the input.
    pub fn slice(&self, start: usize, end: usize) -> (r: String)
        requires
            start <= end <= self.chars@.len(),
        ensures
            r@ == self.chars@.subrange(start as int, end as int),
    {
        let v = slice_chars(self.chars.as_slice(), start, end);
        string_of(v.as_slice())
    }

    /// Consumes `expected` when it is the next character.
    pub fn eat(&mut self, expected: char) -> (b: bool)
        requires
            old(self).wf(),
        ensures
            final(self).wf(),
            final(self).chars == old(self).chars,
            b == (char_at(old(self).chars@, old(self).pos as int) == Some(expected)),
            final(self).pos == if b { old(self).pos + 1 } else { old(self).pos as int },
    {
        if self.pos < self.chars.len() && self.chars[self.pos] == expected {
            self.pos = self.pos + 1;
            true
        } else {
            false
        }
    }

    /// Skips whitespace.
    pub fn skip_ws(&mut self)
        requires
            old(self).wf(),
        ensures
            final(self).wf(),
            final(self).chars == old(self).chars,
            final(self).pos == ws_end(old(self).chars@, old(self).pos as int),
    {
        while self.pos < self.chars.len() && char_is_ws(self.chars[self.pos])
            invariant
                self.wf(),
                self.chars == old(self).chars,
                ws_end(self.chars@, old(self).pos as int) == ws_end(self.chars@, self.pos as int),
            decreases self.chars@.len() - self.pos,
        {
            self.pos = self.pos + 1;
        }
    }

    /// Skips whitespace and commas.
    pub fn skip_ws_and_commas(&mut self)
        requires
            old(self).wf(),
        ensures
            final(self).wf(),
            final(self).chars == old(self).chars,
            final(self).pos == sep_end(old(self).chars@, old(self).pos as int),
    {
        loop
            invariant
                self.wf(),
                self.chars == old(self).chars,
                sep_end(self.chars@, old(self).pos as int) == sep_end(self.chars@, self.pos as int),
            ensures
                self.wf(),
                self.chars == old(self).chars,
                sep_end(self.chars@, old(self).pos as int) == self.pos,
            decreases self.chars@.len() - self.pos,
        {
            proof {
                lemma_sep_end_ws(self.chars@, self.pos as int);
                lemma_ws_end(self.chars@, self.pos as int);
            }
            self.skip_ws();
            if !self.eat(',') {
                assert(sep_end(self.chars@, self.pos as int) == self.pos);
                break;
            }
        }
    }

    /// Skips whitespace, then consumes `expected` or fails.
    pub fn expect(&mut self, expected: char) -> (r: Result<(), String>)
        requires
            old(self).wf(),
        ensures
            final(self).wf(),
            final(self).chars == old(self).chars,
            old(self).pos <= final(self).pos,
            ({
                let q = ws_end(old(self).chars@, old(self).pos as int);
                match r {
                    Ok(()) => char_at(old(self).chars@, q) == Some(expected) && final(self).pos == q + 1,
                    Err(m) => char_at(old(self).chars@, q) != Some(expected) && final(self).pos == q
                        && m@ == expect_message(expected, char_at(old(self).chars@, q)),
                }
            }),
    {
        proof { lemma_ws_end(self.chars@, self.pos as int); }
        self.skip_ws();
        if self.eat(expected) {
            Ok(())
        } else {
            let mut m: Vec<char> = Vec::new();
            append_str(&mut m, "expected '");
            m.push(expected);
            append_str(&mut m, "', got '");
            match self.peek() {
                Some(c) => m.push(c),
                None => append_str(&mut m, "end of schema"),
            }
            m.push('\'');
            proof {
                reveal_strlit("'");
            }
            assert(m@ =~= expect_message(expected, char_at(self.chars@, self.pos as int)));
            Err(string_of(m.as_slice()))
        }
    }

    /// Consumes `...` when it comes next.
    pub fn consume_ellipsis(&mut self) -> (b: bool)
        requires
            old(self).wf(),
        ensures
            final(self).wf(),
            final(self).chars == old(self).chars,
            b == (old(self).pos + 3 <= old(self).chars@.len()
                && old(self).chars@.subrange(old(self).pos as int, old(self).pos + 3) == seq!['.', '.', '.']),
            final(self).pos == if b { old(self).pos + 3 } else { old(self).pos as int },
    {
        if self.chars.len() >= 3 && self.pos <= self.chars.len() - 3 && self.chars[self.pos] == '.'
            && self.chars[self.pos + 1] == '.' && self.chars[self.pos + 2] == '.' {
            assert(self.chars@.subrange(self.pos as int, self.pos + 3) =~= seq!['.', '.', '.']);
            self.pos = self.pos + 3;
            true
        } else {
            proof {
                if self.pos + 3 <= self.chars@.len() && self.chars@.subrange(self.pos as int, self.pos + 3) == seq!['.', '.', '.'] {
                    assert(self.chars@.subrange(self.pos as int, self.pos + 3)[0] == self.chars@[self.pos as int]);
                    assert(self.chars@.subrange(self.pos as int, self.pos + 3)[1] == self.chars@[self.pos + 1]);
                    assert(self.chars@.subrange(self.pos as int, self.pos + 3)[2] == self.chars@[self.pos + 2]);
                }
            }
            false
        }
    }

    /// Reads an identifier starting at the position: its first character
    /// and every identifier character after it.
    pub fn parse_identifier(&mut self) -> (r: String)
        requires
            old(self).wf(),
            old(self).pos < old(self).chars@.len(),
        ensures
            final(self).wf(),
            final(self).chars == old(self).chars,
            final(self).pos == ident_end(old(self).chars@, old(self).pos + 1),
            old(self).pos < final(self).pos,
            r@ == old(self).chars@.subrange(old(self).pos as int, final(self).pos as int),
    {
        let start = self.pos;
        let n = self.chars.len();
        self.pos = self.pos + 1;
        while self.pos < self.chars.len() && is_ident_continue(self.chars[self.pos])
            invariant
                self.wf(),
                self.chars == old(self).chars,
                start == old(self).pos,
                start < self.pos,
                ident_end(self.chars@, start + 1) == ident_end(self.chars@, self.pos as int),
            decreases self.chars@.len() - self.pos,
        {
            self.pos = self.pos + 1;
        }
        self.slice(start, self.pos)
    }

    /// Reads a string literal: whitespace, a quote, then characters with
    /// the escapes `\\" \\\\ \\/ \\n \\r \\t` up to the closing quote.
    pub fn parse_string(&mut self) -> (r: Result<String, String>)
        requires
            old(self).wf(),
        ensures
            final(self).wf(),
            final(self).chars == old(self).chars,
            old(self).pos <= final(self).pos,
            match r {
                Ok(t) => string_lit(old(self).chars@, old(self).pos as int) == Ok::<(Seq<char>, int), Seq<char>>((t@, final(self).pos as int)),
                Err(m) => string_lit(old(self).chars@, old(self).pos as int) == Err::<(Seq<char>, int), Seq<char>>(m@),
            },
    {
        match self.expect('"') {
            Ok(()) => {},
            Err(m) => {
                return Err(m);
            },
        }
        let ghost q = self.pos - 1;
        let ghost cs = self.chars@;
        let mut out: Vec<char> = Vec::new();
        while self.pos < self.chars.len()
            invariant
                self.wf(),
                self.chars == old(self).chars,
                cs == self.chars@,
                old(self).pos <= self.pos,
                string_lit(cs, old(self).pos as int) == match string_body(cs, self.pos as int) {
                    Ok((t, e)) => Ok::<(Seq<char>, int), Seq<char>>((out@ + t, e)),
                    Err(m) => Err(m),
                },
            decreases self.chars@.len() - self.pos,
        {
            let ch = self.chars[self.pos];
            self.pos = self.pos + 1;
            if ch == '"' {
                assert(out@ + Seq::<char>::empty() =~= out@);
                return Ok(string_of(out.as_slice()));
            } else if ch == '\\' {
                if self.pos >= self.chars.len() {
                    return Err(string_of(chars_of("unterminated string escape").as_slice()));
                }
                let e = self.chars[self.pos];
                self.pos = self.pos + 1;
                let c: char = if e == '"' {
                    '"'
                } else if e == '\\' {
                    '\\'
                } else if e == '/' {
                    '/'
                } else if e == 'n' {
                    '\n'
                } else if e == 'r' {
                    '\r'
                } else if e == 't' {
                    '\t'
                } else {
                    let mut m: Vec<char> = Vec::new();
                    append_str(&mut m, "unsupported string escape '\\");
                    m.push(e);
                    m.push('\'');
                    proof { reveal_strlit("'"); }
                    assert(m@ =~= "unsupported string escape '\\"@ + seq![e] + "'"@);
                    return Err(string_of(m.as_slice()));
                };
                let ghost before = out@;
                out.push(c);
                proof {
                    match string_body(cs, self.pos as int) {
                        Ok((t, e2)) => {
                            assert(before + (seq![c] + t) =~= out@ + t);
                        },
                        Err(_) => {},
                    }
                }
            } else {
                let ghost before = out@;
                out.push(ch);
                proof {
                    match string_body(cs, self.pos as int) {
                        Ok((t, e2)) => {
                            assert(before + (seq![ch] + t) =~= out@ + t);
                        },
                        Err(_) => {},
                    }
                }
            }
        }
        Err(string_of(chars_of("unterminated string literal").as_slice()))
    }

    /// Reads an object key: a string literal or an identifier.
    pub fn parse_key(&mut self) -> (r: Result<String, String>)
        requires
            old(self).wf(),
        ensures
            final(self).wf(),
            final(self).chars == old(self).chars,
            old(self).pos <= final(self).pos,
            match r {
                Ok(k) => key_spec(old(self).chars@, old(self).pos as int) == Ok::<(Seq<char>, int), Seq<char>>((k@, final(self).pos as int)),
                Err(m) => key_spec(old(self).chars@, old(self).pos as int) == Err::<(Seq<char>, int), Seq<char>>(m@),
            },
    {
        self.skip_ws();
        proof { lemma_ws_end(self.chars@, old(self).pos as int); }
        match self.peek() {
            Some(ch) => {
                if ch == '"' {
                    let q = self.pos;
                    assert(ws_end(self.chars@, q as int) == q);
                    assert(key_spec(self.chars@, old(self).pos as int) == string_lit(self.chars@, q as int));
                    self.parse_string()
                } else if is_ident_start(ch) {
                    let q = self.pos;
                    let k = self.parse_identifier();
                    assert(key_spec(self.chars@, old(self).pos as int) == Ok::<(Seq<char>, int), Seq<char>>((self.chars@.subrange(q as int, ident_end(self.chars@, q + 1)), ident_end(self.chars@, q + 1))));
                    Ok(k)
                } else {
                    let mut m: Vec<char> = Vec::new();
                    append_str(&mut m, "expected object field name, got '");
                    m.push(ch);
                    append_str(&mut m, "'");
                    assert(m@ =~= "expected object field name, got '"@ + seq![ch] + "'"@);
                    Err(string_of(m.as_slice()))
                }
            },
            None => Err(string_of(chars_of("expected object field name, got end of schema").as_slice())),
        }
    }

    /// Reads the optional `(n)`, `(a..b)`, `(a..)` or `(..b)` after `string`.
    pub fn parse_optional_range(&mut self) -> (r: Result<(Option<usize>, Option<usize>), String>)
        requires
            old(self).wf(),
        ensures
            final(self).wf(),
            final(self).chars == old(self).chars,
            old(self).pos <= final(self).pos,
            match r {
                Ok(b) => optional_range(old(self).chars@, old(self).pos as int) == Ok::<((Option<usize>, Option<usize>), int), Seq<char>>((b, final(self).pos as int)),
                Err(m) => optional_range(old(self).chars@, old(self).pos as int) == Err::<((Option<usize>, Option<usize>), int), Seq<char>>(m@),
            },
    {
        proof { lemma_ws_end(self.chars@, self.pos as int); }
        self.skip_ws();
        if !self.eat('(') {
            return Ok((None, None));
        }
        proof { lemma_ws_end(self.chars@, self.pos as int); }
        self.skip_ws();
        let start = self.pos;
        let e = scan_to_char(self.chars.as_slice(), ')', start);
        self.pos = e;
        let piece = slice_chars(self.chars.as_slice(), start, e);
        let raw = trim_chars(piece.as_slice());
        match self.expect(')') {
            Ok(()) => {},
            Err(m) => {
                assert(e == self.chars@.len());
                return Err(m);
            },
        }
        assert(ws_end(self.chars@, e as int) == e);
        parse_range_bounds(raw.as_slice())
    }

    /// Reads a number literal: `-`, digits, `.`, digits.
    pub fn parse_number_literal(&mut self) -> (r: Result<AssertSchema, String>)
        requires
            old(self).wf(),
        ensures
            final(self).wf(),
            final(self).chars == old(self).chars,
            old(self).pos <= final(self).pos,
            match r {
                Ok(sch) => exists|t: String| sch == AssertSchema::Literal(JsonValue::Number(JsonNumber::Float(t)))
                    && number_literal(old(self).chars@, old(self).pos as int) == Ok::<(Seq<char>, int), Seq<char>>((t@, final(self).pos as int)),
                Err(m) => number_literal(old(self).chars@, old(self).pos as int) == Err::<(Seq<char>, int), Seq<char>>(m@),
            },
    {
        let ghost cs = self.chars@;
        let start = self.pos;
        let neg = self.eat('-');
        let p1 = self.pos;
        let p2 = self.skip_digits();
        let dot = self.eat('.');
        let p3 = if dot { self.skip_digits() } else { p2 };
        let int_part = slice_chars(self.chars.as_slice(), p1, p2);
        let frac = if dot { slice_chars(self.chars.as_slice(), p2 + 1, p3) } else { Vec::new() };
        assert(frac@ =~= if dot { cs.subrange(p2 + 1, p3 as int) } else { Seq::<char>::empty() });
        let raw = slice_chars(self.chars.as_slice(), start, p3);
        let mut m: Vec<char> = Vec::new();
        append_str(&mut m, "invalid number literal '");
        append(&mut m, raw.as_slice());
        append_str(&mut m, "'");
        match fraction_text(neg, int_part.as_slice(), frac.as_slice()) {
            None => Err(string_of(m.as_slice())),
            Some(f) => {
                let fs = string_of(f.as_slice());
                match json_number_text(fs.as_str()) {
                    Some(t) => Ok(AssertSchema::Literal(JsonValue::Number(JsonNumber::Float(t)))),
                    None => Err(string_of(m.as_slice())),
                }
            },
        }
    }

    /// Skips ASCII digits; returns the new position.
    fn skip_digits(&mut self) -> (r: usize)
        requires
            old(self).wf(),
        ensures
            final(self).wf(),
            final(self).chars == old(self).chars,
            r == final(self).pos,
            old(self).pos <= final(self).pos,
            final(self).pos == digits_end(old(self).chars@, old(self).pos as int),
    {
        proof { lemma_digits_end(self.chars@, self.pos as int); }
        while self.pos < self.chars.len() && '0' <= self.chars[self.pos] && self.chars[self.pos] <= '9'
            invariant
                self.wf(),
                self.chars == old(self).chars,
                digits_end(self.chars@, old(self).pos as int) == digits_end(self.chars@, self.pos as int),
            decreases self.chars@.len() - self.pos,
        {
            self.pos = self.pos + 1;
        }
        self.pos
    }

    /// Reads a type name or keyword literal (the position is at an
    /// identifier start).
    pub fn parse_named_type_or_literal(&mut self) -> (r: Result<AssertSchema, String>)
        requires
            old(self).wf(),
            old(self).pos < old(self).chars@.len(),
        ensures
            final(self).wf(),
            final(self).chars == old(self).chars,
            old(self).pos <= final(self).pos,
            match r {
                Ok(sch) => named_schema(old(self).chars@, old(self).pos as int) == Ok::<(AssertSchema, int), Seq<char>>((sch, final(self).pos as int)),
                Err(m) => named_schema(old(self).chars@, old(self).pos as int) == Err::<(AssertSchema, int), Seq<char>>(m@),
            },
    {
        let ident = self.parse_identifier();
        let w = ident.as_str();
        if str_eq(w, "unknown") || str_eq(w, "any") {
            Ok(AssertSchema::Unknown)
        } else if str_eq(w, "null") {
            Ok(AssertSchema::Null)
        } else if str_eq(w, "bool") || str_eq(w, "boolean") {
            Ok(AssertSchema::Bool)
        } else if str_eq(w, "number") {
            Ok(AssertSchema::Number)
        } else if str_eq(w, "email") {
            Ok(AssertSchema::Email)
        } else if str_eq(w, "true") {
            Ok(AssertSchema::Literal(JsonValue::Bool(true)))
        } else if str_eq(w, "false") {
            Ok(AssertSchema::Literal(JsonValue::Bool(false)))
        } else if str_eq(w, "string") {
            match self.parse_optional_range() {
                Ok((mn, mx)) => Ok(AssertSchema::String { min: mn, max: mx }),
                Err(m) => Err(m),
            }
        } else {
            let mut m: Vec<char> = Vec::new();
            append_str(&mut m, "unknown assert type '");
            append_str(&mut m, w);
            append_str(&mut m, "'");
            assert(m@ =~= "unknown assert type '"@ + w@ + "'"@);
            Err(string_of(m.as_slice()))
        }
    }

    /// Reads one alternative: an object, an array, a string, number or
    /// keyword literal, or a type name.
    pub fn parse_primary(&mut self) -> (r: Result<AssertSchema, String>)
        requires
            old(self).wf(),
        ensures
            final(self).wf(),
            final(self).chars == old(self).chars,
            old(self).pos <= final(self).pos,
            match r {
                Ok(sch) => primary_at(old(self).chars@, old(self).pos as int)
                    == Ok::<(SchemaM, int), Seq<char>>((schema_m(sch), final(self).pos as int)),
                Err(m) => primary_at(old(self).chars@, old(self).pos as int) == Err::<(SchemaM, int), Seq<char>>(m@),
            },
        decreases old(self).chars@.len() - old(self).pos, 1int,
    {
        proof { lemma_ws_end(self.chars@, self.pos as int); }
        self.skip_ws();
        match self.peek() {
            Some(ch) => {
                if ch == '{' {
                    self.parse_object()
                } else if ch == '[' {
                    self.parse_array()
                } else if ch == '"' {
                    match self.parse_string() {
                        Ok(t) => Ok(AssertSchema::Literal(JsonValue::Str(t))),
                        Err(m) => Err(m),
                    }
                } else if ch == '-' || ('0' <= ch && ch <= '9') {
                    let ghost before = self.pos;
                    let r = self.parse_number_literal();
                    proof {
                        lemma_digits_end(self.chars@, before as int);
                        lemma_digits_end(self.chars@, before + 1);
                    }
                    r
                } else if is_ident_start(ch) {
                    self.parse_named_type_or_literal()
                } else {
                    let mut m: Vec<char> = Vec::new();
                    append_str(&mut m, "unexpected token '");
                    m.push(ch);
                    append_str(&mut m, "'");
                    assert(m@ =~= "unexpected token '"@ + seq![ch] + "'"@);
                    Err(string_of(m.as_slice()))
                }
            },
            None => {
                proof { reveal_strlit("unexpected end of schema"); }
                Err(string_of(chars_of("unexpected end of schema").as_slice()))
            },
        }
    }

    /// Reads an object schema `{ key: schema, key?: schema, ... }`; `...`
    /// entries and extra commas are allowed.
    pub fn parse_object(&mut self) -> (r: Result<AssertSchema, String>)
        requires
            old(self).wf(),
        ensures
            final(self).wf(),
            final(self).chars == old(self).chars,
            old(self).pos <= final(self).pos,
            match r {
                Ok(sch) => object_at(old(self).chars@, old(self).pos as int)
                    == Ok::<(SchemaM, int), Seq<char>>((schema_m(sch), final(self).pos as int)),
                Err(m) => object_at(old(self).chars@, old(self).pos as int) == Err::<(SchemaM, int), Seq<char>>(m@),
            },
        decreases old(self).chars@.len() - old(self).pos, 0int,
    {
        let ghost cs = self.chars@;
        let ghost p0 = self.pos as int;
        proof { lemma_ws_end(self.chars@, self.pos as int); }
        match self.expect('{') {
            Ok(()) => {},
            Err(m) => {
                return Err(m);
            },
        }
        let mut fields: Vec<ObjectField> = Vec::new();
        assert(fields_m(fields@) + Seq::<(Seq<char>, bool, SchemaM)>::empty() =~= Seq::<(Seq<char>, bool, SchemaM)>::empty());
        loop
            invariant_except_break
                object_at(cs, p0) == match fields_at(cs, self.pos as int) {
                    Err(m) => Err::<(SchemaM, int), Seq<char>>(m),
                    Ok((rest, f)) => Ok((SchemaM::Object(fields_m(fields@) + rest), f)),
                },
            invariant
                self.wf(),
                self.chars == old(self).chars,
                cs == self.chars@,
                p0 == old(self).pos,
                old(self).pos < self.pos,
            ensures
                object_at(cs, p0) == Ok::<(SchemaM, int), Seq<char>>((SchemaM::Object(fields_m(fields@)), self.pos as int)),
            decreases self.chars@.len() - self.pos,
        {
            let ghost r = self.pos as int;
            proof { lemma_sep_end(self.chars@, self.pos as int); }
            self.skip_ws_and_commas();
            if self.eat('}') {
                assert(fields_m(fields@) + Seq::<(Seq<char>, bool, SchemaM)>::empty() =~= fields_m(fields@));
                break;
            }
            if self.consume_ellipsis() {
                continue;
            }
            let f = match self.parse_field() {
                Ok(f) => f,
                Err(m) => {
                    return Err(m);
                },
            };
            let ghost fm = (f.name@, f.optional, schema_m(f.schema));
            let ghost before = fields@;
            fields.push(f);
            proof {
                assert(fields@.drop_last() =~= before);
                assert(fields_m(fields@) == fields_m(before).push(fm));
                match fields_at(cs, self.pos as int) {
                    Ok((rest, f)) => {
                        assert(fields_m(before).push(fm) + rest =~= fields_m(before) + (seq![fm] + rest));
                    },
                    Err(_) => {},
                }
            }
        }
        Ok(AssertSchema::Object(fields))
    }

    /// Reads one field of an object schema: a key, an optional `?`, `:`
    /// and a schema.
    pub fn parse_field(&mut self) -> (r: Result<ObjectField, String>)
        requires
            old(self).wf(),
        ensures
            final(self).wf(),
            final(self).chars == old(self).chars,
            old(self).pos <= final(self).pos,
            match r {
                Ok(f) => field_at(old(self).chars@, old(self).pos as int)
                    == Ok::<((Seq<char>, bool, SchemaM), int), Seq<char>>(((f.name@, f.optional, schema_m(f.schema)), final(self).pos as int))
                    && old(self).pos < final(self).pos,
                Err(m) => field_at(old(self).chars@, old(self).pos as int) == Err::<((Seq<char>, bool, SchemaM), int), Seq<char>>(m@),
            },
        decreases old(self).chars@.len() - old(self).pos, 3int,
    {
        let name = match self.parse_key() {
            Ok(k) => k,
            Err(m) => {
                return Err(m);
            },
        };
        proof { lemma_ws_end(self.chars@, self.pos as int); }
        self.skip_ws();
        let optional = self.eat('?');
        proof { lemma_ws_end(self.chars@, self.pos as int); }
        self.skip_ws();
        proof { lemma_ws_end(self.chars@, self.pos as int); }
        match self.expect(':') {
            Ok(()) => {},
            Err(m) => {
                return Err(m);
            },
        }
        let schema = match self.parse_union() {
            Ok(sch) => sch,
            Err(m) => {
                return Err(m);
            },
        };
        Ok(ObjectField { name, optional, schema })
    }

    /// Reads an array schema `[item]`; `[]` accepts any elements.
    pub fn parse_array(&mut self) -> (r: Result<AssertSchema, String>)
        requires
            old(self).wf(),
        ensures
            final(self).wf(),
            final(self).chars == old(self).chars,
            old(self).pos <= final(self).pos,
            match r {
                Ok(sch) => array_at(old(self).chars@, old(self).pos as int)
                    == Ok::<(SchemaM, int), Seq<char>>((schema_m(sch), final(self).pos as int)),
                Err(m) => array_at(old(self).chars@, old(self).pos as int) == Err::<(SchemaM, int), Seq<char>>(m@),
            },
        decreases old(self).chars@.len() - old(self).pos, 0int,
    {
        proof { lemma_ws_end(self.chars@, self.pos as int); }
        match self.expect('[') {
            Ok(()) => {},
            Err(m) => {
                return Err(m);
            },
        }
        proof { lemma_ws_end(self.chars@, self.pos as int); }
        self.skip_ws();
        if self.eat(']') {
            assert(schema_m(AssertSchema::Unknown) == SchemaM::Unknown);
            assert(schema_m(AssertSchema::Array(Box::new(AssertSchema::Unknown))) == SchemaM::Array(Box::new(SchemaM::Unknown)));
            return Ok(AssertSchema::Array(Box::new(AssertSchema::Unknown)));
        }
        let item = match self.parse_union() {
            Ok(sch) => sch,
            Err(m) => {
                return Err(m);
            },
        };
        proof { lemma_sep_end(self.chars@, self.pos as int); }
        self.skip_ws_and_commas();
        proof { lemma_ws_end(self.chars@, self.pos as int); }
        match self.expect(']') {
            Ok(()) => {},
            Err(m) => {
                return Err(m);
            },
        }
        Ok(AssertSchema::Array(Box::new(item)))
    }

    /// Reads alternatives separated by `|`; a single alternative stands
    /// for itself.
    pub fn parse_union(&mut self) -> (r: Result<AssertSchema, String>)
        requires
            old(self).wf(),
        ensures
            final(self).wf(),
            final(self).chars == old(self).chars,
            old(self).pos <= final(self).pos,
            match r {
                Ok(sch) => union_at(old(self).chars@, old(self).pos as int)
                    == Ok::<(SchemaM, int), Seq<char>>((schema_m(sch), final(self).pos as int)),
                Err(m) => union_at(old(self).chars@, old(self).pos as int) == Err::<(SchemaM, int), Seq<char>>(m@),
            },
        decreases old(self).chars@.len() - old(self).pos, 2int,
    {
        let ghost cs = self.chars@;
        let ghost p0 = self.pos as int;
        let first = match self.parse_primary() {
            Ok(sch) => sch,
            Err(m) => {
                return Err(m);
            },
        };
        let mut options: Vec<AssertSchema> = Vec::new();
        options.push(first);
        proof {
            assert(options@.drop_last() =~= Seq::<AssertSchema>::empty());
            lemma_options_m(options@);
            assert(options_m(options@) =~= seq![schema_m(first)]);
            match more_at(cs, self.pos as int) {
                Ok((rest, f)) => {
                    assert(options_m(options@) + rest =~= seq![schema_m(first)] + rest);
                },
                Err(_) => {},
            }
        }
        loop
            invariant_except_break
                union_at(cs, p0) == match more_at(cs, self.pos as int) {
                    Err(m) => Err::<(SchemaM, int), Seq<char>>(m),
                    Ok((rest, f)) => if options_m(options@).len() + rest.len() == 1 {
                        Ok((options_m(options@)[0], f))
                    } else {
                        Ok((SchemaM::Union(options_m(options@) + rest), f))
                    },
                },
            invariant
                self.wf(),
                self.chars == old(self).chars,
                cs == self.chars@,
                p0 == old(self).pos,
                old(self).pos <= self.pos,
                options@.len() >= 1,
                options_m(options@).len() == options@.len(),
            ensures
                union_at(cs, p0) == if options@.len() == 1 {
                    Ok::<(SchemaM, int), Seq<char>>((options_m(options@)[0], self.pos as int))
                } else {
                    Ok((SchemaM::Union(options_m(options@)), self.pos as int))
                },
            decreases self.chars@.len() - self.pos,
        {
            proof { lemma_ws_end(self.chars@, self.pos as int); }
            self.skip_ws();
            if !self.eat('|') {
                assert(options_m(options@) + Seq::<SchemaM>::empty() =~= options_m(options@));
                break;
            }
            let next = match self.parse_primary() {
                Ok(sch) => sch,
                Err(m) => {
                    return Err(m);
                },
            };
            let ghost om = schema_m(next);
            let ghost before = options@;
            options.push(next);
            proof {
                assert(options@.drop_last() =~= before);
                lemma_options_m(options@);
                assert(options_m(options@) == options_m(before).push(om));
                match more_at(cs, self.pos as int) {
                    Ok((rest, f)) => {
                        assert(options_m(before).push(om) + rest =~= options_m(before) + (seq![om] + rest));
                    },
                    Err(_) => {},
                }
            }
        }
        proof { lemma_options_m(options@); }
        if options.len() == 1 {
            Ok(options.remove(0))
        } else {
            Ok(AssertSchema::Union(options))
        }
    }

    /// Reads a whole schema: alternatives followed only by whitespace.
    pub fn parse(self) -> (r: Result<AssertSchema, String>)
        requires
            self.wf(),
        ensures
            match r {
                Ok(sch) => schema_at(self.chars@, self.pos as int) == Ok::<SchemaM, Seq<char>>(schema_m(sch)),
                Err(m) => schema_at(self.chars@, self.pos as int) == Err::<SchemaM, Seq<char>>(m@),
            },
    {
        let mut this = self;
        this.parse_all()
    }

    /// Reads a whole schema from the position.
    fn parse_all(&mut self) -> (r: Result<AssertSchema, String>)
        requires
            old(self).wf(),
        ensures
            final(self).wf(),
            match r {
                Ok(sch) => schema_at(old(self).chars@, old(self).pos as int) == Ok::<SchemaM, Seq<char>>(schema_m(sch)),
                Err(m) => schema_at(old(self).chars@, old(self).pos as int) == Err::<SchemaM, Seq<char>>(m@),
            },
    {
        let schema = match self.parse_union() {
            Ok(sch) => sch,
            Err(m) => {
                return Err(m);
            },
        };
        proof { lemma_ws_end(self.chars@, self.pos as int); }
        self.skip_ws();
        if self.is_eof() {
            Ok(schema)
        } else {
            let mut m: Vec<char> = Vec::new();
            append_str(&mut m, "unexpected token '");
            match self.peek() {
                Some(c) => m.push(c),
                None => m.push('\0'),
            }
            append_str(&mut m, "'");
            assert(m@ =~= "unexpected token '"@ + seq![self.chars@[self.pos as int]] + "'"@);
            Err(string_of(m.as_slice()))
        }
    }
}

/// The models of object fields, one for each field.
pub proof fn lemma_fields_m(fs: Seq<ObjectField>)
    ensures
        fields_m(fs).len() == fs.len(),
        forall|i: int| 0 <= i < fs.len() ==> #[trigger] fields_m(fs)[i] == (fs[i].name@, fs[i].optional, schema_m(fs[i].schema)),
    decreases fs.len(),
{
    if fs.len() > 0 {
        lemma_fields_m(fs.drop_last());
    }
}

/// Two schemas with the same model report the same issue for every value.
pub proof fn lemma_issue_model(v: Json, s1: AssertSchema, s2: AssertSchema, path: Seq<char>)
    requires
        schema_m(s1) == schema_m(s2),
    ensures
        schema_issue(v, s1, path) == schema_issue(v, s2, path),
    decreases s1, 0int,
{
    match s1 {
        AssertSchema::Array(i1) => {
            if let AssertSchema::Array(i2) = s2 {
                if let Json::Array(items) = v {
                    lemma_items_model(items, *i1, *i2, path, 0);
                }
            }
        },
        AssertSchema::Object(f1) => {
            if let AssertSchema::Object(f2) = s2 {
                if let Json::Object(entries) = v {
                    lemma_fields_m(f1@);
                    lemma_fields_m(f2@);
                    assert(fields_m(f1@) == fields_m(f2@));
                    assert forall|i: int| 0 <= i < f1@.len() implies f1@[i].name@ == f2@[i].name@
                        && f1@[i].optional == f2@[i].optional
                        && #[trigger] schema_m(f1@[i].schema) == schema_m(f2@[i].schema) by {
                        assert(fields_m(f1@)[i] == fields_m(f2@)[i]);
                    }
                    lemma_fields_model(entries, f1@, f2@, path, 0);
                }
            }
        },
        AssertSchema::Union(o1) => {
            if let AssertSchema::Union(o2) = s2 {
                lemma_options_m(o1@);
                lemma_options_m(o2@);
                assert(options_m(o1@) == options_m(o2@));
                assert forall|i: int| 0 <= i < o1@.len() implies #[trigger] schema_m(o1@[i]) == schema_m(o2@[i]) by {
                    assert(options_m(o1@)[i] == options_m(o2@)[i]);
                }
                lemma_union_model(v, o1@, o2@, path, 0);
            }
        },
        _ => {},
    }
}

/// Array items are checked alike against items of the same model.
proof fn lemma_items_model(items: Seq<Json>, i1: AssertSchema, i2: AssertSchema, path: Seq<char>, k: int)
    requires
        schema_m(i1) == schema_m(i2),
    ensures
        items_issue(items, i1, path, k) == items_issue(items, i2, path, k),
    decreases i1, items.len() - k,
{
    if 0 <= k < items.len() {
        lemma_issue_model(items[k], i1, i2, index_path(path, k as nat));
        lemma_items_model(items, i1, i2, path, k + 1);
    }
}

/// Object fields of the same models are checked alike.
proof fn lemma_fields_model(entries: Seq<(Seq<char>, Json)>, f1: Seq<ObjectField>, f2: Seq<ObjectField>, path: Seq<char>, k: int)
    requires
        f1.len() == f2.len(),
        forall|i: int| 0 <= i < f1.len() ==> f1[i].name@ == f2[i].name@ && f1[i].optional == f2[i].optional
            && #[trigger] schema_m(f1[i].schema) == schema_m(f2[i].schema),
    ensures
        fields_issue(entries, f1, path, k) == fields_issue(entries, f2, path, k),
    decreases f1, f1.len() - k,
{
    if 0 <= k < f1.len() {
        assert(decreases_to!(f1 => f1[k]));
        assert(decreases_to!(f1[k] => f1[k].schema));
        assert(schema_m(f1[k].schema) == schema_m(f2[k].schema));
        let cp = path + "."@ + f1[k].name@;
        match lookup(entries, f1[k].name@) {
            Some(child) => {
                lemma_issue_model(child, f1[k].schema, f2[k].schema, cp);
            },
            None => {},
        }
        lemma_fields_model(entries, f1, f2, path, k + 1);
    }
}

/// Union members of the same models are checked alike.
proof fn lemma_union_model(v: Json, o1: Seq<AssertSchema>, o2: Seq<AssertSchema>, path: Seq<char>, k: int)
    requires
        o1.len() == o2.len(),
        forall|i: int| 0 <= i < o1.len() ==> #[trigger] schema_m(o1[i]) == schema_m(o2[i]),
    ensures
        union_messages(v, o1, path, k) == union_messages(v, o2, path, k),
    decreases o1, o1.len() - k,
{
    if 0 <= k < o1.len() {
        assert(decreases_to!(o1 => o1[k]));
        assert(schema_m(o1[k]) == schema_m(o2[k]));
        lemma_issue_model(v, o1[k], o2[k], path);
        lemma_union_model(v, o1, o2, path, k + 1);
    }
}

/// The models of union members, one for each member.
pub proof fn lemma_options_m(os: Seq<AssertSchema>)
    ensures
        options_m(os).len() == os.len(),
        forall|i: int| 0 <= i < os.len() ==> #[trigger] options_m(os)[i] == schema_m(os[i]),
    decreases os.len(),
{
    if os.len() > 0 {
        lemma_options_m(os.drop_last());
    }
}

/// `s` without its leading `0`s, on characters.
fn strip_zeros_exec(s: &[char]) -> (r: Vec<char>)
    ensures
        r@ == strip_zeros(s@),
{
    let mut i: usize = 0;
    assert(s@.skip(0) =~= s@);
    while i < s.len() && s[i] == '0'
        invariant
            i <= s@.len(),
            strip_zeros(s@) == strip_zeros(s@.skip(i as int)),
        decreases s@.len() - i,
    {
        assert(s@.skip(i as int).drop_first() =~= s@.skip(i + 1));
        i = i + 1;
    }
    let r = slice_chars(s, i, s.len());
    assert(r@ =~= s@.skip(i as int));
    r
}

/// The JSON fraction form of a number literal's parts.
fn fraction_text(neg: bool, int_part: &[char], frac: &[char]) -> (r: Option<Vec<char>>)
    ensures
        match r {
            Some(f) => fraction_form(neg, int_part@, frac@) == Some(f@),
            None => fraction_form(neg, int_part@, frac@) is None,
        },
{
    if int_part.len() == 0 && frac.len() == 0 {
        return None;
    }
    let mut out: Vec<char> = Vec::new();
    if neg {
        out.push('-');
    }
    let z = strip_zeros_exec(int_part);
    if z.len() == 0 {
        out.push('0');
    } else {
        append(&mut out, z.as_slice());
    }
    out.push('.');
    if frac.len() == 0 {
        out.push('0');
    } else {
        append(&mut out, frac);
    }
    assert(out@ =~= fraction_form(neg, int_part@, frac@)->0);
    Some(out)
}

/// The field an assertion error names: the path without its leading `$.`.
pub open spec fn assertion_field(path: Seq<char>) -> Seq<char> {
    if starts_with(path, "$."@) {
        path.skip(2)
    } else {
        path
    }
}

/// The state that replaces the pipeline's when an assertion fails.
pub open spec fn assertion_error(path: Seq<char>, message: Seq<char>) -> Json {
    let f = assertion_field(path);
    Json::Object(seq![("errors"@, Json::Array(seq![Json::Object(seq![
        ("code"@, Json::Str("assert_failed"@)),
        ("context"@, Json::Str(f)),
        ("field"@, Json::Str(f)),
        ("message"@, Json::Str(message)),
        ("rule"@, Json::Str("assert"@)),
        ("type"@, Json::Str("assertionError"@)),
    ])]))])
}

/// A key and its value.
fn entry(k: &str, v: JsonValue) -> (r: (String, JsonValue))
    ensures
        r.0@ == k@,
        r.1 == v,
{
    (string_of(chars_of(k).as_slice()), v)
}

/// The state that reports a failed assertion at `path`.
pub fn make_assertion_error(path: &str, message: &str) -> (r: JsonValue)
    ensures
        jv(r) == assertion_error(path@, message@),
{
    let p = chars_of(path);
    let root = chars_of("$.");
    proof { reveal_strlit("$."); }
    let field: Vec<char> = if p.len() >= 2 && starts_with_at(p.as_slice(), 0, root.as_slice()) {
        let n = p.len();
        let f = slice_chars(p.as_slice(), 2, p.len());
        assert(f@ =~= p@.skip(2));
        f
    } else {
        p
    };
    assert(field@ == assertion_field(path@)) by {
        assert(p@.take(2) =~= p@.subrange(0, 2));
    }
    let mut inner: Vec<(String, JsonValue)> = Vec::new();
    inner.push(entry("code", JsonValue::Str(string_of(chars_of("assert_failed").as_slice()))));
    inner.push(entry("context", JsonValue::Str(string_of(field.as_slice()))));
    inner.push(entry("field", JsonValue::Str(string_of(field.as_slice()))));
    inner.push(entry("message", JsonValue::Str(string_of(chars_of(message).as_slice()))));
    inner.push(entry("rule", JsonValue::Str(string_of(chars_of("assert").as_slice()))));
    inner.push(entry("type", JsonValue::Str(string_of(chars_of("assertionError").as_slice()))));
    proof { lemma_jv_entries(inner@); }
    let ghost f = assertion_field(path@);
    assert(jv_entries(inner@) =~= seq![
        ("code"@, Json::Str("assert_failed"@)),
        ("context"@, Json::Str(f)),
        ("field"@, Json::Str(f)),
        ("message"@, Json::Str(message@)),
        ("rule"@, Json::Str("assert"@)),
        ("type"@, Json::Str("assertionError"@)),
    ]);
    let obj = JsonValue::Object(inner);
    let ghost oj = jv(obj);
    let mut arr: Vec<JsonValue> = Vec::new();
    arr.push(obj);
    proof { lemma_jv_seq(arr@); }
    assert(jv_seq(arr@) =~= seq![oj]);
    let av = JsonValue::Array(arr);
    let ghost aj = jv(av);
    let mut outer: Vec<(String, JsonValue)> = Vec::new();
    outer.push(entry("errors", av));
    proof { lemma_jv_entries(outer@); }
    assert(jv_entries(outer@) =~= seq![("errors"@, aj)]);
    JsonValue::Object(outer)
}

/// `x` is what checking `state` against `s` gives: nothing when it
/// conforms, else the assertion error for its first issue.
pub open spec fn check_outcome(state: Json, s: AssertSchema, x: Option<JsonValue>) -> bool {
    match schema_issue(state, s, "$"@) {
        None => x is None,
        Some((p, m)) => x is Some && jv(x->0) == assertion_error(p, m),
    }
}

impl AssertMiddleware {
    /// Checks `state` against `schema`: `None` when it conforms, else the
    /// assertion error that replaces the state.
    pub fn check_schema(&self, schema: &AssertSchema, state: &JsonValue) -> (r: Option<JsonValue>)
        ensures
            match schema_issue(jv(*state), *schema, "$"@) {
                None => r is None,
                Some((p, m)) => r is Some && jv(r->0) == assertion_error(p, m),
            },
    {
        let root = chars_of("$");
        match validate_value(state, schema, root.as_slice()) {
            Ok(()) => None,
            Err(e) => Some(make_assertion_error(e.path.as_str(), e.message.as_str())),
        }
    }

    /// Parses the schema `config` and checks `state` against it: a schema
    /// that does not parse fails the step with its message; otherwise
    /// `None` keeps the state and `Some` gives the assertion error that
    /// replaces it.
    pub fn check(&self, config: &str, state: &JsonValue) -> (r: Result<Option<JsonValue>, WebPipeError>)
        ensures
            match r {
                Ok(x) => schema_at(config@, 0) matches Ok(sm)
                    && (exists|s: AssertSchema| schema_m(s) == sm)
                    && forall|s: AssertSchema| schema_m(s) == sm ==> #[trigger] check_outcome(jv(*state), s, x),
                Err(e) => schema_at(config@, 0) matches Err(m)
                    && e matches WebPipeError::MiddlewareExecutionError(t)
                    && t@ == "assert schema parse error: "@ + m,
            },
    {
        let parser = Parser::new(config);
        match parser.parse() {
            Ok(schema) => {
                let x = self.check_schema(&schema, state);
                proof {
                    assert forall|s: AssertSchema| schema_m(s) == schema_m(schema) implies #[trigger] check_outcome(jv(*state), s, x) by {
                        lemma_issue_model(jv(*state), schema, s, "$"@);
                    }
                }
                Ok(x)
            },
            Err(m) => {
                let mut v: Vec<char> = Vec::new();
                append_str(&mut v, "assert schema parse error: ");
                append_str(&mut v, m.as_str());
                Err(WebPipeError::MiddlewareExecutionError(string_of(v.as_slice())))
            },
        }
    }
}

} // verus!
