//! The `pg` middleware's decisions: the statement a step runs, how it is
//! sent, and the state its rows or its error become.

use vstd::prelude::*;
use crate::json::{JsonValue, JsonNumber, Json, jv, get, jv_seq, jv_entries, lemma_jv_seq, lemma_jv_entries};
use crate::error::WebPipeError;
use crate::text::{trim, trim_start, chars_of, string_of, trim_chars, append, append_str, find_chars, find, starts_with};

verus! {

broadcast use vstd::std_specs::vec::group_vec_axioms;

/// The `pg` middleware; its connections and stores live with the server.
#[derive(Debug)]
pub struct PgMiddleware;

impl PgMiddleware {
    /// The middleware.
    pub fn new() -> (r: Self) {
        PgMiddleware
    }
}

/// The SQL of a `pg` step: its trimmed configuration; an empty one is a
/// database error.
pub fn pg_sql(config: &str) -> (r: Result<String, WebPipeError>)
    ensures
        match r {
            Ok(s) => s@ == trim(config@) && s@.len() > 0,
            Err(e) => trim(config@).len() == 0
                && (e matches WebPipeError::DatabaseError(m) && m@ == "Empty SQL config for pg middleware"@),
        },
{
    let t = trim_chars(chars_of(config).as_slice());
    if t.len() == 0 {
        proof { reveal_strlit("Empty SQL config for pg middleware"); }
        Err(WebPipeError::DatabaseError(string_of(chars_of("Empty SQL config for pg middleware").as_slice())))
    } else {
        Ok(string_of(t.as_slice()))
    }
}

/// ASCII lower case of a character (the letters these checks look for
/// have no other upper-case forms).
pub open spec fn lower(c: char) -> char {
    if 'A' <= c && c <= 'Z' {
        ((c as u32) + 32) as char
    } else {
        c
    }
}

/// Lower case of a text, letter by letter.
pub open spec fn lower_text(s: Seq<char>) -> Seq<char> {
    s.map_values(|c: char| lower(c))
}

/// How a statement is sent: one that reads rows (a `select`, or one with
/// ` returning `) is wrapped to come back as a JSON array of rows.
#[derive(Debug)]
pub enum PgQuery {
    Rows(String),
    Execute,
}

/// The statement that collects the rows of `sql` into one JSON array.
pub open spec fn rows_sql(sql: Seq<char>) -> Seq<char> {
    "WITH t AS ("@ + sql + ") SELECT COALESCE(json_agg(row_to_json(t)), '[]'::json) AS rows FROM t"@
}

/// Whether a statement reads rows: it starts with `select` or holds
/// ` returning `, in any letter case.
pub open spec fn reads_rows(sql: Seq<char>) -> bool {
    starts_with(trim_start(lower_text(sql)), "select"@) || find(lower_text(sql), " returning "@) is Some
}

/// ASCII lower case of a character.
fn lower_char(c: char) -> (r: char)
    ensures
        r == lower(c),
{
    if 'A' <= c && c <= 'Z' {
        let x: u8 = (c as u8) + 32;
        x as char
    } else {
        c
    }
}

/// Decides how a statement is sent.
pub fn query_kind(sql: &str) -> (r: PgQuery)
    ensures
        match r {
            PgQuery::Rows(w) => reads_rows(sql@) && w@ == rows_sql(sql@),
            PgQuery::Execute => !reads_rows(sql@),
        },
{
    let c = chars_of(sql);
    let mut l: Vec<char> = Vec::new();
    let mut i: usize = 0;
    while i < c.len()
        invariant
            i <= c@.len(),
            l@ == lower_text(c@.take(i as int)),
        decreases c@.len() - i,
    {
        l.push(lower_char(c[i]));
        assert(lower_text(c@.take(i + 1)) =~= lower_text(c@.take(i as int)).push(lower(c@[i as int])));
        i = i + 1;
    }
    assert(c@.take(c@.len() as int) =~= c@);
    assert(l@.subrange(0, l@.len() as int) =~= l@);
    let start = crate::text::skip_ws_from(l.as_slice(), 0, l.len());
    let rest = crate::text::slice_chars(l.as_slice(), start, l.len());
    let sel = chars_of("select");
    let ret = chars_of(" returning ");
    proof {
        reveal_strlit("select");
        reveal_strlit(" returning ");
    }
    let is_select = crate::text::starts_with_at(rest.as_slice(), 0, sel.as_slice());
    let has_returning = find_chars(l.as_slice(), ret.as_slice()).is_some();
    assert(rest@ =~= trim_start(lower_text(sql@)));
    if is_select || has_returning {
        let mut w: Vec<char> = Vec::new();
        append_str(&mut w, "WITH t AS (");
        append_str(&mut w, sql);
        append_str(&mut w, ") SELECT COALESCE(json_agg(row_to_json(t)), '[]'::json) AS rows FROM t");
        PgQuery::Rows(string_of(w.as_slice()))
    } else {
        PgQuery::Execute
    }
}


/// The parameters a `pg` step without arguments takes: the state's
/// `sqlParams` array, else none.
pub fn sql_params_from_state(state: &JsonValue) -> (r: Vec<JsonValue>)
    ensures
        jv_seq(r@) == match get(jv(*state), "sqlParams"@) {
            Some(Json::Array(a)) => a,
            _ => Seq::empty(),
        },
{
    let mut out: Vec<JsonValue> = Vec::new();
    match state.get("sqlParams") {
        Some(JsonValue::Array(items)) => {
            let mut i: usize = 0;
            while i < items.len()
                invariant
                    i <= items@.len(),
                    out@.len() == i,
                    forall|k: int| 0 <= k < i ==> jv(#[trigger] out@[k]) == jv(items@[k]),
                decreases items@.len() - i,
            {
                out.push(items[i].copy());
                i = i + 1;
            }
            proof { crate::json::lemma_jv_seq_ext(out@, items@); }
        },
        _ => {
            assert(jv_seq(out@) =~= Seq::<Json>::empty());
        },
    }
    out
}

/// The result of a statement: `{"rowCount": n, "rows": rows}`, wrapped as
/// `{"data": ...}` when the step names no result (the executor wraps it
/// otherwise).
pub open spec fn pg_result(rows: Json, count: int, named: bool) -> Json {
    let r = Json::Object(seq![("rowCount"@, Json::Int(count)), ("rows"@, rows)]);
    if named {
        r
    } else {
        Json::Object(seq![("data"@, r)])
    }
}

/// The number of rows an array of rows holds (0 for anything else).
pub open spec fn row_count(rows: Json) -> int {
    match rows {
        Json::Array(a) => a.len() as int,
        _ => 0,
    }
}

/// Builds a statement's result.
fn result_object(rows: JsonValue, count: u64, named: bool) -> (r: JsonValue)
    ensures
        jv(r) == pg_result(jv(rows), count as int, named),
{
    let ghost rj = jv(rows);
    let mut e: Vec<(String, JsonValue)> = Vec::new();
    e.push((string_of(chars_of("rowCount").as_slice()), JsonValue::Number(JsonNumber::UInt(count))));
    e.push((string_of(chars_of("rows").as_slice()), rows));
    proof { lemma_jv_entries(e@); }
    assert(jv_entries(e@) =~= seq![("rowCount"@, Json::Int(count as int)), ("rows"@, rj)]);
    let r = JsonValue::Object(e);
    if named {
        r
    } else {
        let ghost inner = jv(r);
        let mut d: Vec<(String, JsonValue)> = Vec::new();
        d.push((string_of(chars_of("data").as_slice()), r));
        proof { lemma_jv_entries(d@); }
        assert(jv_entries(d@) =~= seq![("data"@, inner)]);
        JsonValue::Object(d)
    }
}

/// The state after a statement that read rows.
pub fn rows_state(rows: JsonValue, named: bool) -> (r: JsonValue)
    ensures
        jv(r) == pg_result(jv(rows), row_count(jv(rows)), named),
{
    let n: u64 = match &rows {
        JsonValue::Array(a) => {
            proof { lemma_jv_seq(a@); }
            a.len() as u64
        },
        _ => 0,
    };
    result_object(rows, n, named)
}

/// The state after a statement that changed rows: no rows, and the count
/// of rows it affected.
pub fn execute_state(rows_affected: u64, named: bool) -> (r: JsonValue)
    ensures
        jv(r) == pg_result(Json::Array(Seq::empty()), rows_affected as int, named),
{
    let a = JsonValue::Array(Vec::new());
    assert(jv_seq(Seq::<JsonValue>::empty()) =~= Seq::<Json>::empty());
    result_object(a, rows_affected, named)
}

/// The error state of a failed statement:
/// `{"errors": [{"message", "query", "severity"?, "sqlstate"?, "type": "sqlError"}]}`.
pub open spec fn sql_error(message: Seq<char>, sqlstate: Option<Seq<char>>, severity: Option<Seq<char>>, query: Seq<char>) -> Json {
    Json::Object(seq![("errors"@, Json::Array(seq![Json::Object(
        seq![("message"@, Json::Str(message)), ("query"@, Json::Str(query))]
            + match severity {
                Some(s) => seq![("severity"@, Json::Str(s))],
                None => Seq::empty(),
            }
            + match sqlstate {
                Some(s) => seq![("sqlstate"@, Json::Str(s))],
                None => Seq::empty(),
            }
            + seq![("type"@, Json::Str("sqlError"@))]
    )]))])
}

/// The view of an optional string.
pub open spec fn opt_seq(o: Option<String>) -> Option<Seq<char>> {
    match o {
        Some(s) => Some(s@),
        None => None,
    }
}

/// Builds the error state of a failed statement from the database's
/// message, its SQLSTATE code and severity when it reported them, and the
/// statement.
pub fn build_sql_error_value(message: &str, sqlstate: Option<String>, severity: Option<String>, query: &str) -> (r: JsonValue)
    ensures
        jv(r) == sql_error(message@, opt_seq(sqlstate), opt_seq(severity), query@),
{
    let mut e: Vec<(String, JsonValue)> = Vec::new();
    e.push((string_of(chars_of("message").as_slice()), JsonValue::Str(string_of(chars_of(message).as_slice()))));
    e.push((string_of(chars_of("query").as_slice()), JsonValue::Str(string_of(chars_of(query).as_slice()))));
    let ghost sev = opt_seq(severity);
    let ghost st = opt_seq(sqlstate);
    match severity {
        Some(s) => {
            e.push((string_of(chars_of("severity").as_slice()), JsonValue::Str(s)));
        },
        None => {},
    }
    match sqlstate {
        Some(s) => {
            e.push((string_of(chars_of("sqlstate").as_slice()), JsonValue::Str(s)));
        },
        None => {},
    }
    e.push((string_of(chars_of("type").as_slice()), JsonValue::Str(string_of(chars_of("sqlError").as_slice()))));
    proof { lemma_jv_entries(e@); }
    assert(jv_entries(e@) =~= sql_error(message@, st, sev, query@)->Object_0[0].1->Array_0[0]->Object_0);
    let o = JsonValue::Object(e);
    let ghost oj = jv(o);
    let mut arr: Vec<JsonValue> = Vec::new();
    arr.push(o);
    proof { lemma_jv_seq(arr@); }
    assert(jv_seq(arr@) =~= seq![oj]);
    let a = JsonValue::Array(arr);
    let ghost aj = jv(a);
    let mut top: Vec<(String, JsonValue)> = Vec::new();
    top.push((string_of(chars_of("errors").as_slice()), a));
    proof { lemma_jv_entries(top@); }
    assert(jv_entries(top@) =~= seq![("errors"@, aj)]);
    JsonValue::Object(top)
}

} // verus!
