//! The `fetch` middleware's decisions: the request a state asks for, the
//! error objects it answers with, and where a response lands in the state.

use vstd::prelude::*;
use crate::json::{JsonValue, JsonNumber, Json, jv, get, as_str, jv_seq, jv_entries, lemma_jv_seq, lemma_jv_entries,
    json_text, write_json};
use crate::cache::as_u64;
use crate::step::{apply_data_wrap, data_wrapped};
use crate::text::{trim, trim_chars, chars_of, string_of};

verus! {

broadcast use vstd::std_specs::vec::group_vec_axioms;

/// The `fetch` middleware; its connections and stores live with the server.
#[derive(Debug)]
pub struct FetchMiddleware;

impl FetchMiddleware {
    /// The middleware.
    pub fn new() -> (r: Self) {
        FetchMiddleware
    }
}

/// The request a `fetch` step sends.
#[derive(Debug)]
pub struct FetchPlan {
    pub url: String,
    /// The method name; a name that is not a valid method falls back to
    /// `GET` where the request is built.
    pub method: String,
    pub timeout_secs: Option<u64>,
    /// The string-valued members of `fetchHeaders`, in order.
    pub headers: Vec<(String, String)>,
    pub body: Option<JsonValue>,
    pub result_name: Option<String>,
}

/// The string members of a headers object, in order.
pub open spec fn string_headers(e: Seq<(Seq<char>, Json)>) -> Seq<(Seq<char>, Seq<char>)>
    decreases e.len(),
{
    if e.len() == 0 {
        Seq::empty()
    } else {
        let p = string_headers(e.drop_last());
        match e.last().1 {
            Json::Str(v) => p.push((e.last().0, v)),
            _ => p,
        }
    }
}

/// The URL a step fetches: the state's `fetchUrl` string, else the step's
/// configuration, trimmed.
pub open spec fn fetch_url(state: Json, config: Seq<char>) -> Seq<char> {
    match get(state, "fetchUrl"@) {
        Some(Json::Str(u)) => trim(u),
        _ => trim(config),
    }
}

/// The error state `{"errors": [e]}` where `e` holds `type` and the
/// members of `details` (which win over `type`); details that are not an
/// object stand as `{"message": <their JSON text>}`.
pub open spec fn fetch_error(out: Json, error_type: Seq<char>, details: Json) -> bool {
    let d = match details {
        Json::Object(_) => details,
        _ => Json::Object(seq![("message"@, Json::Str(json_text(details)))]),
    };
    &&& out matches Json::Object(top)
    &&& top.len() == 1
    &&& top[0].0 == "errors"@
    &&& top[0].1 matches Json::Array(items)
    &&& items.len() == 1
    &&& items[0] is Object
    &&& forall|k: Seq<char>| #[trigger] get(items[0], k) == match get(d, k) {
        Some(v) => Some(v),
        None => if k == "type"@ { Some(Json::Str(error_type)) } else { None },
    }
}

/// Builds a fetch error state.
pub fn build_fetch_error_object(error_type: &str, details: JsonValue) -> (r: JsonValue)
    ensures
        fetch_error(jv(r), error_type@, jv(details)),
{
    proof { reveal_strlit("message"); reveal_strlit("type"); reveal_strlit("errors"); }
    let d = if details.is_object() {
        details
    } else {
        let mut t: Vec<char> = Vec::new();
        write_json(&details, &mut t);
        let mut e: Vec<(String, JsonValue)> = Vec::new();
        e.push((string_of(chars_of("message").as_slice()), JsonValue::Str(string_of(t.as_slice()))));
        proof { lemma_jv_entries(e@); }
        assert(jv_entries(e@) =~= seq![("message"@, Json::Str(json_text(jv(details))))]);
        JsonValue::Object(e)
    };
    let mut err = JsonValue::Object(Vec::new());
    assert(jv_entries(Seq::<(String, JsonValue)>::empty()) =~= Seq::<(Seq<char>, Json)>::empty());
    err.set(string_of(chars_of("type").as_slice()), JsonValue::Str(string_of(chars_of(error_type).as_slice())));
    match &d {
        JsonValue::Object(entries) => {
            let ghost de = jv_entries(entries@);
            proof { lemma_jv_entries(entries@); }
            let ghost base = jv(err);
            let mut j: usize = entries.len();
            assert(de.skip(de.len() as int) =~= Seq::<(Seq<char>, Json)>::empty());
            while j > 0
                invariant
                    jv(err) is Object,
                    de == jv_entries(entries@),
                    de.len() == entries@.len(),
                    forall|m: int| 0 <= m < entries@.len() ==> #[trigger] de[m] == (entries@[m].0@, jv(entries@[m].1)),
                    j <= entries@.len(),
                    forall|k: Seq<char>| #[trigger] get(base, k) == if k == "type"@ { Some(Json::Str(error_type@)) } else { None },
                    forall|k: Seq<char>| #[trigger] get(jv(err), k) == match crate::json::lookup(de.skip(j as int), k) {
                        Some(v) => Some(v),
                        None => get(base, k),
                    },
                decreases j,
            {
                let ghost before = jv(err);
                let key = entries[j - 1].0.clone();
                let val = entries[j - 1].1.copy();
                err.set(key, val);
                proof {
                    assert(de.skip(j - 1).drop_first() =~= de.skip(j as int));
                    assert(de.skip(j - 1)[0] == de[j - 1]);
                    assert forall|k: Seq<char>| #[trigger] get(jv(err), k) == match crate::json::lookup(de.skip(j - 1), k) {
                        Some(v) => Some(v),
                        None => get(base, k),
                    } by {
                        assert(get(before, k) == match crate::json::lookup(de.skip(j as int), k) {
                            Some(v) => Some(v),
                            None => get(base, k),
                        });
                    }
                }
                j = j - 1;
            }
            assert(de.skip(0) =~= de);
        },
        _ => {},
    }
    let ghost ej = jv(err);
    let mut arr: Vec<JsonValue> = Vec::new();
    arr.push(err);
    proof { lemma_jv_seq(arr@); }
    assert(jv_seq(arr@) =~= seq![ej]);
    let a = JsonValue::Array(arr);
    let ghost aj = jv(a);
    let mut top: Vec<(String, JsonValue)> = Vec::new();
    top.push((string_of(chars_of("errors").as_slice()), a));
    proof { lemma_jv_entries(top@); }
    assert(jv_entries(top@) =~= seq![("errors"@, aj)]);
    JsonValue::Object(top)
}

/// `p` is the request a state asks for.
pub open spec fn plans(p: FetchPlan, state: Json, config: Seq<char>) -> bool {
    &&& p.url@ == fetch_url(state, config)
    &&& p.method@ == match get(state, "fetchMethod"@) {
        Some(Json::Str(m)) => m,
        _ => "GET"@,
    }
    &&& p.timeout_secs == match get(state, "fetchTimeout"@) {
        Some(t) => as_u64(t),
        None => None,
    }
    &&& p.headers@.map_values(|h: (String, String)| (h.0@, h.1@)) == match get(state, "fetchHeaders"@) {
        Some(Json::Object(e)) => string_headers(e),
        _ => Seq::empty(),
    }
    &&& match p.body {
        Some(b) => get(state, "fetchBody"@) == Some(jv(b)),
        None => get(state, "fetchBody"@) is None,
    }
    &&& match p.result_name {
        Some(n) => get(state, "resultName"@) == Some(Json::Str(n@)),
        None => !(get(state, "resultName"@) matches Some(Json::Str(_))),
    }
}

/// The request a `fetch` step sends: the URL (the state's `fetchUrl`, else
/// the configuration), method, timeout, headers and body from the state,
/// and the name its result is stored under. An empty URL answers with the
/// error "Missing URL for fetch middleware".
pub fn fetch_plan(state: &JsonValue, config: &str) -> (r: Result<FetchPlan, JsonValue>)
    ensures
        match r {
            Ok(p) => plans(p, jv(*state), config@) && p.url@.len() > 0,
            Err(e) => fetch_url(jv(*state), config@).len() == 0
                && fetch_error(jv(e), "networkError"@, Json::Object(seq![("message"@, Json::Str("Missing URL for fetch middleware"@))])),
        },
{
    let url_src = match state.get("fetchUrl") {
        Some(JsonValue::Str(u)) => chars_of(u.as_str()),
        _ => chars_of(config),
    };
    let url_t = trim_chars(url_src.as_slice());
    if url_t.len() == 0 {
        let mut e: Vec<(String, JsonValue)> = Vec::new();
        proof { reveal_strlit("message"); }
        e.push((string_of(chars_of("message").as_slice()),
            JsonValue::Str(string_of(chars_of("Missing URL for fetch middleware").as_slice()))));
        proof { lemma_jv_entries(e@); reveal_strlit("Missing URL for fetch middleware"); }
        assert(jv_entries(e@) =~= seq![("message"@, Json::Str("Missing URL for fetch middleware"@))]);
        return Err(build_fetch_error_object("networkError", JsonValue::Object(e)));
    }
    let method = match state.get("fetchMethod") {
        Some(JsonValue::Str(m)) => m.clone(),
        _ => {
            proof { reveal_strlit("GET"); }
            string_of(chars_of("GET").as_slice())
        },
    };
    let timeout_secs = match state.get("fetchTimeout") {
        Some(JsonValue::Number(JsonNumber::Int(i))) => if *i >= 0 { Some(*i as u64) } else { None },
        Some(JsonValue::Number(JsonNumber::UInt(u))) => Some(*u),
        _ => None,
    };
    let mut headers: Vec<(String, String)> = Vec::new();
    match state.get("fetchHeaders") {
        Some(JsonValue::Object(entries)) => {
            proof { lemma_jv_entries(entries@); }
            let ghost de = jv_entries(entries@);
            let mut i: usize = 0;
            while i < entries.len()
                invariant
                    i <= entries@.len(),
                    de == jv_entries(entries@),
                    de.len() == entries@.len(),
                    forall|m: int| 0 <= m < entries@.len() ==> #[trigger] de[m] == (entries@[m].0@, jv(entries@[m].1)),
                    headers@.map_values(|h: (String, String)| (h.0@, h.1@)) == string_headers(de.take(i as int)),
                decreases entries@.len() - i,
            {
                let ghost pre = headers@.map_values(|h: (String, String)| (h.0@, h.1@));
                proof {
                    assert(de.take(i + 1).drop_last() =~= de.take(i as int));
                    assert(de.take(i + 1).last() == de[i as int]);
                }
                match &entries[i].1 {
                    JsonValue::Str(v) => {
                        headers.push((entries[i].0.clone(), v.clone()));
                        assert(headers@.map_values(|h: (String, String)| (h.0@, h.1@)) =~= pre.push((entries@[i as int].0@, v@)));
                    },
                    _ => {},
                }
                i = i + 1;
            }
            assert(de.take(de.len() as int) =~= de);
        },
        _ => {},
    }
    let body = match state.get("fetchBody") {
        Some(b) => Some(b.copy()),
        None => None,
    };
    let result_name = match state.get("resultName") {
        Some(JsonValue::Str(n)) => Some(n.clone()),
        _ => None,
    };
    let p = FetchPlan { url: string_of(url_t.as_slice()), method, timeout_secs, headers, body, result_name };
    assert(p.url@ == fetch_url(jv(*state), config@));
    assert(p.method@ == match get(jv(*state), "fetchMethod"@) {
        Some(Json::Str(m)) => m,
        _ => "GET"@,
    });
    assert(p.timeout_secs == match get(jv(*state), "fetchTimeout"@) {
        Some(t) => as_u64(t),
        None => None,
    });
    assert(p.headers@.map_values(|h: (String, String)| (h.0@, h.1@)) == match get(jv(*state), "fetchHeaders"@) {
        Some(Json::Object(e)) => string_headers(e),
        _ => Seq::empty(),
    });
    Ok(p)
}

/// The members of a headers object built from name/value pairs: a name
/// given twice keeps its last value.
pub open spec fn header_value(hs: Seq<(Seq<char>, Seq<char>)>, k: Seq<char>) -> Option<Json>
    decreases hs.len(),
{
    if hs.len() == 0 {
        None
    } else if hs.last().0 == k {
        Some(Json::Str(hs.last().1))
    } else {
        header_value(hs.drop_last(), k)
    }
}

/// The response payload: `{"headers": {...}, "response": ..., "status": n}`.
pub open spec fn fetch_payload(p: Json, status: u16, headers: Seq<(Seq<char>, Seq<char>)>, response: Json) -> bool {
    &&& p matches Json::Object(e)
    &&& e.len() == 3
    &&& e[0].0 == "headers"@
    &&& e[0].1 is Object
    &&& forall|k: Seq<char>| #[trigger] get(e[0].1, k) == header_value(headers, k)
    &&& e[1] == ("response"@, response)
    &&& e[2] == ("status"@, Json::Int(status as int))
}

/// Where a successful response lands: under `.data.<name>` when the state
/// names a result, else as `.data`; a state that is not an object is kept.
pub fn fetch_result_state(state: JsonValue, result_name: &Option<String>, status: u16,
    headers: &Vec<(String, String)>, response: JsonValue) -> (r: JsonValue)
    ensures
        !(jv(state) is Object) ==> r == state,
        jv(state) is Object ==> exists|p: Json| fetch_payload(p, status, headers@.map_values(|h: (String, String)| (h.0@, h.1@)), jv(response)) && match result_name {
            Some(n) => data_wrapped(jv(r), jv(state), p, n@),
            None => jv(r) is Object && get(jv(r), "data"@) == Some(p)
                && forall|k: Seq<char>| k != "data"@ ==> #[trigger] get(jv(r), k) == get(jv(state), k),
        },
{
    if !state.is_object() {
        return state;
    }
    proof { reveal_strlit("headers"); reveal_strlit("response"); reveal_strlit("status"); reveal_strlit("data"); }
    let ghost hs = headers@.map_values(|h: (String, String)| (h.0@, h.1@));
    let mut h = JsonValue::Object(Vec::new());
    assert(jv_entries(Seq::<(String, JsonValue)>::empty()) =~= Seq::<(Seq<char>, Json)>::empty());
    let mut i: usize = 0;
    while i < headers.len()
        invariant
            i <= headers@.len(),
            hs == headers@.map_values(|h: (String, String)| (h.0@, h.1@)),
            jv(h) is Object,
            forall|k: Seq<char>| #[trigger] get(jv(h), k) == header_value(hs.take(i as int), k),
        decreases headers@.len() - i,
    {
        h.set(headers[i].0.clone(), JsonValue::Str(headers[i].1.clone()));
        proof {
            assert(hs.take(i + 1).drop_last() =~= hs.take(i as int));
            assert(hs.take(i + 1).last() == hs[i as int]);
        }
        i = i + 1;
    }
    assert(hs.take(hs.len() as int) =~= hs);
    let ghost hj = jv(h);
    let ghost rj = jv(response);
    let mut e: Vec<(String, JsonValue)> = Vec::new();
    e.push((string_of(chars_of("headers").as_slice()), h));
    e.push((string_of(chars_of("response").as_slice()), response));
    e.push((string_of(chars_of("status").as_slice()), JsonValue::Number(JsonNumber::Int(status as i64))));
    proof { lemma_jv_entries(e@); }
    let payload = JsonValue::Object(e);
    let ghost pj = jv(payload);
    assert(fetch_payload(pj, status, hs, rj));
    match result_name {
        Some(n) => apply_data_wrap(state, payload, n.as_str()),
        None => {
            let mut s = state;
            s.set(string_of(chars_of("data").as_slice()), payload);
            s
        },
    }
}

} // verus!
