//! The request object a pipeline receives: cookies and form fields read
//! from their wire form, and the object assembled from the parts of an
//! HTTP request.

use vstd::prelude::*;
use crate::json::{JsonValue, Json, jv, get, lemma_jv_entries};
use crate::text::{split_char, split_at_char, trim, trim_chars, chars_of, string_of};

verus! {

/// The value of the last pair with key `k` (later pairs replace earlier ones).
pub open spec fn pairs_value(s: Seq<(String, JsonValue)>, k: Seq<char>) -> Option<Json>
    decreases s.len(),
{
    if s.len() == 0 {
        None
    } else if s.last().0@ == k {
        Some(jv(s.last().1))
    } else {
        pairs_value(s.drop_last(), k)
    }
}

/// The value of the last string pair with key `k`.
pub open spec fn string_pairs_value(s: Seq<(String, String)>, k: Seq<char>) -> Option<Json>
    decreases s.len(),
{
    if s.len() == 0 {
        None
    } else if s.last().0@ == k {
        Some(Json::Str(s.last().1@))
    } else {
        string_pairs_value(s.drop_last(), k)
    }
}

/// An empty object.
pub fn empty_object() -> (r: JsonValue)
    ensures
        jv(r) is Object,
        forall|k: Seq<char>| #[trigger] get(jv(r), k) is None,
{
    let o = JsonValue::Object(Vec::new());
    assert(jv(o) == Json::Object(Seq::empty()));
    o
}

/// The object with the given members (a later key replaces an earlier one).
pub fn object_from(pairs: &Vec<(String, JsonValue)>) -> (r: JsonValue)
    ensures
        jv(r) is Object,
        forall|k: Seq<char>| #[trigger] get(jv(r), k) == pairs_value(pairs@, k),
{
    let mut o = empty_object();
    let mut i: usize = 0;
    while i < pairs.len()
        invariant
            i <= pairs@.len(),
            jv(o) is Object,
            forall|k: Seq<char>| #[trigger] get(jv(o), k) == pairs_value(pairs@.take(i as int), k),
        decreases pairs@.len() - i,
    {
        let ghost before = o;
        o.set(string_of(chars_of(pairs[i].0.as_str()).as_slice()), pairs[i].1.copy());
        proof {
            let t = pairs@.take(i + 1);
            assert(t.drop_last() =~= pairs@.take(i as int));
            assert forall|k: Seq<char>| #[trigger] get(jv(o), k) == pairs_value(t, k) by {
                assert(get(jv(before), k) == pairs_value(pairs@.take(i as int), k));
            }
        }
        i = i + 1;
    }
    assert(pairs@.take(pairs@.len() as int) =~= pairs@);
    o
}

/// The object with the given string members.
pub fn string_object(pairs: &Vec<(String, String)>) -> (r: JsonValue)
    ensures
        jv(r) is Object,
        forall|k: Seq<char>| #[trigger] get(jv(r), k) == string_pairs_value(pairs@, k),
{
    let mut o = empty_object();
    let mut i: usize = 0;
    while i < pairs.len()
        invariant
            i <= pairs@.len(),
            jv(o) is Object,
            forall|k: Seq<char>| #[trigger] get(jv(o), k) == string_pairs_value(pairs@.take(i as int), k),
        decreases pairs@.len() - i,
    {
        let ghost before = o;
        o.set(string_of(chars_of(pairs[i].0.as_str()).as_slice()), JsonValue::Str(string_of(chars_of(pairs[i].1.as_str()).as_slice())));
        proof {
            let t = pairs@.take(i + 1);
            assert(t.drop_last() =~= pairs@.take(i as int));
            assert forall|k: Seq<char>| #[trigger] get(jv(o), k) == string_pairs_value(t, k) by {
                assert(get(jv(before), k) == string_pairs_value(pairs@.take(i as int), k));
            }
        }
        i = i + 1;
    }
    assert(pairs@.take(pairs@.len() as int) =~= pairs@);
    o
}

/// The key and value of `k=v` text: the text before the first `=`, and the
/// text between it and the next `=` (empty when there is none).
pub open spec fn key_value(p: Seq<char>) -> (Seq<char>, Seq<char>) {
    let parts = split_char(p, '=');
    (parts[0], if parts.len() > 1 { parts[1] } else { Seq::empty() })
}

/// The cookies of a `Cookie` header, in order: each `;`-separated piece,
/// trimmed, read as `key=value`.
pub open spec fn cookie_pairs(h: Seq<char>) -> Seq<(Seq<char>, Seq<char>)> {
    split_char(h, ';').map_values(|c: Seq<char>| key_value(trim(c)))
}

/// The fields of a URL-encoded form body, in order: each `&`-separated
/// piece read as `key=value` (without decoding).
pub open spec fn form_pairs(b: Seq<char>) -> Seq<(Seq<char>, Seq<char>)> {
    split_char(b, '&').map_values(|p: Seq<char>| key_value(p))
}

/// Reads `k=v` text.
fn key_value_of(p: &[char]) -> (r: (String, String))
    ensures
        (r.0@, r.1@) == key_value(p@),
{
    let parts = split_at_char(p, '=');
    let ghost ps = parts@.map_values(|x: Vec<char>| x@);
    assert(ps.len() >= 1);
    let k = string_of(parts[0].as_slice());
    let v = if parts.len() > 1 { string_of(parts[1].as_slice()) } else { string_of(Vec::new().as_slice()) };
    (k, v)
}

/// Splits `text` at `sep` and reads each piece (trimmed when asked) as
/// `key=value`.
fn pairs_of(text: &str, sep: char, trimmed: bool) -> (r: Vec<(String, String)>)
    ensures
        r@.map_values(|x: (String, String)| (x.0@, x.1@)) == split_char(text@, sep).map_values(
            |c: Seq<char>| key_value(if trimmed { trim(c) } else { c })),
{
    let pieces = split_at_char(chars_of(text).as_slice(), sep);
    let ghost ps = pieces@.map_values(|x: Vec<char>| x@);
    let mut out: Vec<(String, String)> = Vec::new();
    let mut i: usize = 0;
    while i < pieces.len()
        invariant
            ps == pieces@.map_values(|x: Vec<char>| x@),
            ps == split_char(text@, sep),
            i <= pieces@.len(),
            out@.len() == i,
            forall|j: int| 0 <= j < i ==> (#[trigger] out@[j].0@, out@[j].1@) == key_value(if trimmed { trim(ps[j]) } else { ps[j] }),
        decreases pieces@.len() - i,
    {
        let piece = if trimmed { trim_chars(pieces[i].as_slice()) } else { crate::text::slice_chars(pieces[i].as_slice(), 0, pieces[i].len()) };
        proof {
            assert(pieces@[i as int]@.subrange(0, pieces@[i as int]@.len() as int) =~= pieces@[i as int]@);
        }
        out.push(key_value_of(piece.as_slice()));
        i = i + 1;
    }
    assert(out@.map_values(|x: (String, String)| (x.0@, x.1@)) =~= split_char(text@, sep).map_values(
        |c: Seq<char>| key_value(if trimmed { trim(c) } else { c })));
    out
}

/// The cookies of a `Cookie` header value, in order.
pub fn parse_cookie_header(header: &str) -> (r: Vec<(String, String)>)
    ensures
        r@.map_values(|x: (String, String)| (x.0@, x.1@)) == cookie_pairs(header@),
{
    let r = pairs_of(header, ';', true);
    assert(split_char(header@, ';').map_values(|c: Seq<char>| key_value(if true { trim(c) } else { c }))
        =~= cookie_pairs(header@));
    r
}

/// The fields of a URL-encoded form body, in order.
pub fn parse_form_body(body: &str) -> (r: Vec<(String, String)>)
    ensures
        r@.map_values(|x: (String, String)| (x.0@, x.1@)) == form_pairs(body@),
{
    let r = pairs_of(body, '&', false);
    assert(split_char(body@, '&').map_values(|c: Seq<char>| key_value(if false { trim(c) } else { c }))
        =~= form_pairs(body@));
    r
}

/// The request object of a pipeline: method, path, query and path
/// parameters (values already coerced), headers and cookies (`{}` when
/// absent), body, content type, and an `originalRequest` snapshot of the
/// method and parameters.
pub open spec fn request_object(
    r: Json,
    method: Seq<char>,
    path: Seq<char>,
    path_params: Seq<(String, JsonValue)>,
    query_params: Seq<(String, JsonValue)>,
    headers: Seq<(String, String)>,
    cookies: Seq<(String, String)>,
    body: Json,
    content_type: Seq<char>,
) -> bool {
    &&& r is Object
    &&& get(r, "method"@) == Some(Json::Str(method))
    &&& get(r, "path"@) == Some(Json::Str(path))
    &&& get(r, "query"@) matches Some(q) && members(q, |k: Seq<char>| pairs_value(query_params, k))
    &&& get(r, "params"@) matches Some(p) && members(p, |k: Seq<char>| pairs_value(path_params, k))
    &&& get(r, "headers"@) matches Some(h) && members(h, |k: Seq<char>| string_pairs_value(headers, k))
    &&& get(r, "cookies"@) matches Some(c) && members(c, |k: Seq<char>| string_pairs_value(cookies, k))
    &&& get(r, "body"@) == Some(body)
    &&& get(r, "content_type"@) == Some(Json::Str(content_type))
    &&& get(r, "originalRequest"@) matches Some(o) && o is Object
        && get(o, "method"@) == Some(Json::Str(method))
        && (get(o, "params"@) matches Some(op) && members(op, |k: Seq<char>| pairs_value(path_params, k)))
        && (get(o, "query"@) matches Some(oq) && members(oq, |k: Seq<char>| pairs_value(query_params, k)))
}

/// `j` is an object whose members are given by `f`.
pub open spec fn members(j: Json, f: spec_fn(Seq<char>) -> Option<Json>) -> bool {
    j is Object && forall|k: Seq<char>| #[trigger] get(j, k) == f(k)
}

/// Assembles the request object from the parts of a request.
pub fn assemble_request_object(
    method: &str,
    path: &str,
    path_params: &Vec<(String, JsonValue)>,
    query_params: &Vec<(String, JsonValue)>,
    headers: Option<&Vec<(String, String)>>,
    cookies: Option<&Vec<(String, String)>>,
    body: JsonValue,
    content_type: &str,
) -> (r: JsonValue)
    ensures
        request_object(jv(r), method@, path@, path_params@, query_params@,
            match headers { Some(h) => h@, None => Seq::empty() },
            match cookies { Some(c) => c@, None => Seq::empty() },
            jv(body), content_type@),
{
    let ghost hs: Seq<(String, String)> = match headers { Some(h) => h@, None => Seq::empty() };
    let ghost cs: Seq<(String, String)> = match cookies { Some(c) => c@, None => Seq::empty() };
    let ghost jb = jv(body);
    let mut req = empty_object();
    let ghost r0 = req;
    req.set(string_of(chars_of("method").as_slice()), JsonValue::Str(string_of(chars_of(method).as_slice())));
    let ghost r1 = req;
    req.set(string_of(chars_of("path").as_slice()), JsonValue::Str(string_of(chars_of(path).as_slice())));
    let ghost r2 = req;
    let q = object_from(query_params);
    let ghost jq = jv(q);
    req.set(string_of(chars_of("query").as_slice()), q);
    let ghost r3 = req;
    let p = object_from(path_params);
    let ghost jp = jv(p);
    req.set(string_of(chars_of("params").as_slice()), p);
    let ghost r4 = req;
    let h = match headers {
        Some(h) => string_object(h),
        None => empty_object(),
    };
    let ghost jh = jv(h);
    assert(members(jh, |k: Seq<char>| string_pairs_value(hs, k)));
    req.set(string_of(chars_of("headers").as_slice()), h);
    let ghost r5 = req;
    let c = match cookies {
        Some(c) => string_object(c),
        None => empty_object(),
    };
    let ghost jc = jv(c);
    assert(members(jc, |k: Seq<char>| string_pairs_value(cs, k)));
    req.set(string_of(chars_of("cookies").as_slice()), c);
    let ghost r6 = req;
    req.set(string_of(chars_of("body").as_slice()), body);
    let ghost r7 = req;
    req.set(string_of(chars_of("content_type").as_slice()), JsonValue::Str(string_of(chars_of(content_type).as_slice())));
    let ghost r8 = req;
    let mut orig = empty_object();
    orig.set(string_of(chars_of("method").as_slice()), JsonValue::Str(string_of(chars_of(method).as_slice())));
    let ghost o1 = orig;
    let op = object_from(path_params);
    let ghost jop = jv(op);
    orig.set(string_of(chars_of("params").as_slice()), op);
    let ghost o2 = orig;
    let oq = object_from(query_params);
    let ghost joq = jv(oq);
    orig.set(string_of(chars_of("query").as_slice()), oq);
    let ghost jo = jv(orig);
    req.set(string_of(chars_of("originalRequest").as_slice()), orig);
    proof {
        reveal_strlit("method");
        reveal_strlit("path");
        reveal_strlit("query");
        reveal_strlit("params");
        reveal_strlit("headers");
        reveal_strlit("cookies");
        reveal_strlit("body");
        reveal_strlit("content_type");
        reveal_strlit("originalRequest");
        assert("method"@.len() != "path"@.len());
        assert("method"@.len() != "query"@.len());
        assert("method"@[0] != "params"@[0]);
        assert("method"@.len() != "headers"@.len());
        assert("method"@.len() != "cookies"@.len());
        assert("method"@.len() != "body"@.len());
        assert("method"@.len() != "content_type"@.len());
        assert("method"@.len() != "originalRequest"@.len());
        assert("path"@.len() != "query"@.len());
        assert("path"@.len() != "params"@.len());
        assert("path"@.len() != "headers"@.len());
        assert("path"@.len() != "cookies"@.len());
        assert("path"@[0] != "body"@[0]);
        assert("path"@.len() != "content_type"@.len());
        assert("path"@.len() != "originalRequest"@.len());
        assert("query"@.len() != "params"@.len());
        assert("query"@.len() != "headers"@.len());
        assert("query"@.len() != "cookies"@.len());
        assert("query"@.len() != "body"@.len());
        assert("query"@.len() != "content_type"@.len());
        assert("query"@.len() != "originalRequest"@.len());
        assert("params"@.len() != "headers"@.len());
        assert("params"@.len() != "cookies"@.len());
        assert("params"@.len() != "body"@.len());
        assert("params"@.len() != "content_type"@.len());
        assert("params"@.len() != "originalRequest"@.len());
        assert("headers"@[0] != "cookies"@[0]);
        assert("headers"@.len() != "body"@.len());
        assert("headers"@.len() != "content_type"@.len());
        assert("headers"@.len() != "originalRequest"@.len());
        assert("cookies"@.len() != "body"@.len());
        assert("cookies"@.len() != "content_type"@.len());
        assert("cookies"@.len() != "originalRequest"@.len());
        assert("body"@.len() != "content_type"@.len());
        assert("body"@.len() != "originalRequest"@.len());
        assert("content_type"@.len() != "originalRequest"@.len());
        assert(get(jv(o1), "method"@) == Some(Json::Str(method@)));
        assert("method"@[0] != "params"@[0]);
        assert("method"@ != "params"@);
        assert("method"@[0] != "query"@[0]);
        assert(get(jv(o2), "method"@) == Some(Json::Str(method@)));
        assert(get(jo, "method"@) == Some(Json::Str(method@)));
        assert(get(jv(o2), "params"@) == Some(jop));
        assert(get(jo, "params"@) == Some(jop));
        assert(get(jo, "query"@) == Some(joq));
        assert(members(jop, |k: Seq<char>| pairs_value(path_params@, k)));
        assert(members(joq, |k: Seq<char>| pairs_value(query_params@, k)));
        assert(members(jq, |k: Seq<char>| pairs_value(query_params@, k)));
        assert(members(jp, |k: Seq<char>| pairs_value(path_params@, k)));
        assert(get(jv(r1), "method"@) == Some(Json::Str(method@)));
        assert(get(jv(r2), "method"@) == Some(Json::Str(method@)));
        assert(get(jv(r3), "method"@) == Some(Json::Str(method@)));
        assert(get(jv(r4), "method"@) == Some(Json::Str(method@)));
        assert(get(jv(r5), "method"@) == Some(Json::Str(method@)));
        assert(get(jv(r6), "method"@) == Some(Json::Str(method@)));
        assert(get(jv(r7), "method"@) == Some(Json::Str(method@)));
        assert(get(jv(r8), "method"@) == Some(Json::Str(method@)));
        assert(get(jv(r2), "path"@) == Some(Json::Str(path@)));
        assert(get(jv(r3), "path"@) == Some(Json::Str(path@)));
        assert(get(jv(r4), "path"@) == Some(Json::Str(path@)));
        assert(get(jv(r5), "path"@) == Some(Json::Str(path@)));
        assert(get(jv(r6), "path"@) == Some(Json::Str(path@)));
        assert(get(jv(r7), "path"@) == Some(Json::Str(path@)));
        assert(get(jv(r8), "path"@) == Some(Json::Str(path@)));
        assert(get(jv(r3), "query"@) == Some(jq));
        assert(get(jv(r4), "query"@) == Some(jq));
        assert(get(jv(r5), "query"@) == Some(jq));
        assert(get(jv(r6), "query"@) == Some(jq));
        assert(get(jv(r7), "query"@) == Some(jq));
        assert(get(jv(r8), "query"@) == Some(jq));
        assert(get(jv(r4), "params"@) == Some(jp));
        assert(get(jv(r5), "params"@) == Some(jp));
        assert(get(jv(r6), "params"@) == Some(jp));
        assert(get(jv(r7), "params"@) == Some(jp));
        assert(get(jv(r8), "params"@) == Some(jp));
        assert(get(jv(r5), "headers"@) == Some(jh));
        assert(get(jv(r6), "headers"@) == Some(jh));
        assert(get(jv(r7), "headers"@) == Some(jh));
        assert(get(jv(r8), "headers"@) == Some(jh));
        assert(get(jv(r6), "cookies"@) == Some(jc));
        assert(get(jv(r7), "cookies"@) == Some(jc));
        assert(get(jv(r8), "cookies"@) == Some(jc));
        assert(get(jv(r7), "body"@) == Some(jb));
        assert(get(jv(r8), "body"@) == Some(jb));
        assert(get(jv(r8), "content_type"@) == Some(Json::Str(content_type@)));
    }
    req
}

} // verus!
