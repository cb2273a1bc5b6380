//! The `validate` middleware: per-field rules on the request body, written
//! one per line as `field: string(min..max)` or `field: email`.

use vstd::prelude::*;
use crate::json::{JsonValue, JsonNumber, Json, jv, get, json_text, jv_seq, jv_entries, lemma_jv_seq,
    lemma_jv_entries, write_json};
use crate::schema::{is_email, parse_usize_spec, parse_usize};
use crate::text::{trim, split_char, split_at_char, starts_with, char_index, find, dec, dec_int, chars_of,
    string_of, trim_chars, slice_chars, scan_to_char, starts_with_at, find_chars, append, append_str,
    u64_to_chars, lemma_char_index};

verus! {

/// The `validate` middleware.
#[derive(Debug)]
pub struct ValidateMiddleware;

/// One rule: the field it checks, whether it is an email rule (else a
/// string rule), and the string rule's length bounds.
#[derive(Debug)]
pub struct Rule {
    pub field: String,
    pub email: bool,
    pub min: Option<usize>,
    pub max: Option<usize>,
}

/// `s` without its trailing commas.
pub open spec fn strip_commas(s: Seq<char>) -> Seq<char>
    decreases s.len(),
{
    if s.len() > 0 && s.last() == ',' {
        strip_commas(s.drop_last())
    } else {
        s
    }
}

/// The trimmed configuration without one pair of enclosing braces.
pub open spec fn rule_body(cfg: Seq<char>) -> Seq<char> {
    let t = trim(cfg);
    if t.len() >= 2 && t[0] == '{' && t.last() == '}' {
        t.subrange(1, t.len() - 1)
    } else {
        t
    }
}

/// The position of the last `c` in `s`.
pub open spec fn last_index(s: Seq<char>, c: char) -> Option<int>
    decreases s.len(),
{
    if s.len() == 0 {
        None
    } else if s.last() == c {
        Some(s.len() - 1)
    } else {
        last_index(s.drop_last(), c)
    }
}

/// The bounds `a..b` or `n` of a string rule: a side that does not read as
/// a number is no bound; more than one `..` gives no bounds.
pub open spec fn rule_range(spec: Seq<char>) -> (Option<usize>, Option<usize>) {
    match find(spec, ".."@) {
        None => (parse_usize_spec(trim(spec)), parse_usize_spec(trim(spec))),
        Some(i) => if find(spec.skip(i + 2), ".."@) is Some {
            (None, None)
        } else {
            (parse_usize_spec(trim(spec.take(i))), parse_usize_spec(trim(spec.skip(i + 2))))
        },
    }
}

/// A rule line, trimmed and without trailing commas.
pub open spec fn rule_line(raw: Seq<char>) -> Seq<char> {
    strip_commas(trim(raw))
}

/// The text after the colon of a rule line.
pub open spec fn rule_rhs(line: Seq<char>, c: int) -> Seq<char> {
    trim(line.skip(c + 1))
}

/// The rule a line states: `(field, email, min, max)`; lines without a
/// colon or with another kind of rule state none.
pub open spec fn line_rule(raw: Seq<char>) -> Option<(Seq<char>, bool, Option<usize>, Option<usize>)> {
    let line = rule_line(raw);
    match char_index(line, ':') {
        None => None,
        Some(c) => {
            let field = trim(line.take(c));
            let rhs = rule_rhs(line, c);
            if starts_with(rhs, "string"@) {
                let b = match (char_index(rhs, '('), last_index(rhs, ')')) {
                    (Some(lp), Some(rp)) => rule_range(rhs.subrange(lp + 1, rp)),
                    _ => (None, None),
                };
                Some((field, false, b.0, b.1))
            } else if starts_with(rhs, "email"@) {
                Some((field, true, None, None))
            } else {
                None
            }
        },
    }
}

/// A string rule whose last `)` comes before its first `(` (the bounds
/// cannot be cut out of it).
pub open spec fn line_unreadable(raw: Seq<char>) -> bool {
    let line = rule_line(raw);
    match char_index(line, ':') {
        None => false,
        Some(c) => {
            let rhs = rule_rhs(line, c);
            starts_with(rhs, "string"@) && match (char_index(rhs, '('), last_index(rhs, ')')) {
                (Some(lp), Some(rp)) => rp < lp + 1,
                _ => false,
            }
        },
    }
}

/// The rules of the lines `ls`, in order.
pub open spec fn rules_of_lines(ls: Seq<Seq<char>>) -> Seq<(Seq<char>, bool, Option<usize>, Option<usize>)>
    decreases ls.len(),
{
    if ls.len() == 0 {
        Seq::empty()
    } else {
        rules_of_lines(ls.drop_last()) + match line_rule(ls.last()) {
            Some(r) => seq![r],
            None => Seq::empty(),
        }
    }
}

/// The rules of a configuration.
pub open spec fn rules_of(cfg: Seq<char>) -> Seq<(Seq<char>, bool, Option<usize>, Option<usize>)> {
    rules_of_lines(split_char(rule_body(cfg), '\n'))
}

/// The configuration has a string rule whose bounds cannot be cut out.
pub open spec fn config_unreadable(cfg: Seq<char>) -> bool {
    exists|i: int| 0 <= i < split_char(rule_body(cfg), '\n').len()
        && #[trigger] line_unreadable(split_char(rule_body(cfg), '\n')[i])
}

/// The text a string rule checks: a string, a number's JSON text, or
/// `true`/`false`.
pub open spec fn string_form(v: Option<Json>) -> Option<Seq<char>> {
    match v {
        Some(Json::Str(s)) => Some(s),
        Some(Json::Int(i)) => Some(dec_int(i)),
        Some(Json::Float(t)) => Some(t),
        Some(Json::Bool(b)) => Some(if b { "true"@ } else { "false"@ }),
        _ => None,
    }
}

/// The first failed rule among `rules[k..]` against the body object `b`:
/// the field, the rule name and the message.
pub open spec fn first_violation(rules: Seq<(Seq<char>, bool, Option<usize>, Option<usize>)>, b: Json, k: int) -> Option<(Seq<char>, Seq<char>, Seq<char>)>
    decreases rules.len() - k,
{
    if k < 0 || k >= rules.len() {
        None
    } else {
        let (f, email, mn, mx) = rules[k];
        let v = get(b, f);
        if email {
            match v {
                Some(Json::Str(s)) => if s.len() == 0 {
                    Some((f, "required"@, "Field '"@ + f + "' is required and must be a valid email"@))
                } else if !is_email(s) {
                    Some((f, "email"@, "Field '"@ + f + "' must be a valid email address"@))
                } else {
                    first_violation(rules, b, k + 1)
                },
                _ => Some((f, "required"@, "Field '"@ + f + "' is required and must be a valid email"@)),
            }
        } else {
            match string_form(v) {
                Some(s) => if s.len() == 0 {
                    Some((f, "required"@, "Field '"@ + f + "' is required and must be a non-empty string"@))
                } else if mn is Some && s.len() < mn->0 {
                    Some((f, "minLength"@, "Field '"@ + f + "' must be at least "@ + dec(mn->0 as nat) + " characters"@))
                } else if mx is Some && s.len() > mx->0 {
                    Some((f, "maxLength"@, "Field '"@ + f + "' must be at most "@ + dec(mx->0 as nat) + " characters"@))
                } else {
                    first_violation(rules, b, k + 1)
                },
                None => Some((f, "required"@, "Field '"@ + f + "' is required and must be a non-empty string"@)),
            }
        }
    }
}

/// The state that reports a failed rule.
pub open spec fn validation_error(field: Seq<char>, rule: Seq<char>, message: Seq<char>) -> Json {
    Json::Object(seq![("errors"@, Json::Array(seq![Json::Object(seq![
        ("context"@, Json::Str(field)),
        ("field"@, Json::Str(field)),
        ("message"@, Json::Str(message)),
        ("rule"@, Json::Str(rule)),
        ("type"@, Json::Str("validationError"@)),
    ])]))])
}

/// The model of a rule.
pub open spec fn rule_model(r: Rule) -> (Seq<char>, bool, Option<usize>, Option<usize>) {
    (r.field@, r.email, r.min, r.max)
}

/// `s` without trailing commas, on characters.
fn strip_commas_exec(s: &[char]) -> (r: Vec<char>)
    ensures
        r@ == strip_commas(s@),
{
    let mut e = s.len();
    assert(s@.take(e as int) =~= s@);
    while e > 0 && s[e - 1] == ','
        invariant
            e <= s@.len(),
            strip_commas(s@) == strip_commas(s@.take(e as int)),
        decreases e,
    {
        assert(s@.take(e as int).drop_last() =~= s@.take(e - 1));
        e = e - 1;
    }
    let r = slice_chars(s, 0, e);
    assert(r@ =~= s@.take(e as int));
    r
}

/// The position of the last `c` in `s`.
fn last_index_of(s: &[char], c: char) -> (r: Option<usize>)
    ensures
        match r {
            Some(i) => last_index(s@, c) == Some(i as int) && i < s@.len(),
            None => last_index(s@, c) is None,
        },
{
    let mut e = s.len();
    assert(s@.take(e as int) =~= s@);
    while e > 0
        invariant
            e <= s@.len(),
            last_index(s@, c) == last_index(s@.take(e as int), c),
        decreases e,
    {
        if s[e - 1] == c {
            assert(s@.take(e as int).last() == s@[e - 1]);
            return Some(e - 1);
        }
        assert(s@.take(e as int).drop_last() =~= s@.take(e - 1));
        e = e - 1;
    }
    None
}

/// The bounds of a string rule.
fn rule_range_of(spec: &[char]) -> (r: (Option<usize>, Option<usize>))
    ensures
        r == rule_range(spec@),
{
    let dots = chars_of("..");
    proof { reveal_strlit(".."); }
    match find_chars(spec, dots.as_slice()) {
        None => {
            let t = trim_chars(spec);
            let v = parse_usize(t.as_slice());
            (v, v)
        },
        Some(i) => {
            let n = spec.len();
            let rest = slice_chars(spec, i + 2, spec.len());
            assert(rest@ =~= spec@.skip(i + 2));
            if find_chars(rest.as_slice(), dots.as_slice()).is_some() {
                return (None, None);
            }
            let head = slice_chars(spec, 0, i);
            assert(head@ =~= spec@.take(i as int));
            let a = trim_chars(head.as_slice());
            let b = trim_chars(rest.as_slice());
            (parse_usize(a.as_slice()), parse_usize(b.as_slice()))
        },
    }
}

/// The rule a line states.
fn rule_of_line(raw: &[char]) -> (r: Option<Rule>)
    requires
        !line_unreadable(raw@),
    ensures
        match r {
            Some(x) => line_rule(raw@) == Some(rule_model(x)),
            None => line_rule(raw@) is None,
        },
{
    let t = trim_chars(raw);
    let line = strip_commas_exec(t.as_slice());
    let c = scan_to_char(line.as_slice(), ':', 0);
    assert(line@.skip(0) =~= line@);
    if c == line.len() {
        return None;
    }
    let head = slice_chars(line.as_slice(), 0, c);
    assert(head@ =~= line@.take(c as int));
    let field = trim_chars(head.as_slice());
    let n = line.len();
    let after = slice_chars(line.as_slice(), c + 1, line.len());
    assert(after@ =~= line@.skip(c + 1));
    let rhs = trim_chars(after.as_slice());
    let sw = chars_of("string");
    let em = chars_of("email");
    proof {
        reveal_strlit("string");
        reveal_strlit("email");
    }
    assert(rhs@.skip(0) =~= rhs@);
    if rhs.len() >= 6 && starts_with_at(rhs.as_slice(), 0, sw.as_slice()) {
        let lp = scan_to_char(rhs.as_slice(), '(', 0);
        let bounds = if lp < rhs.len() {
            match last_index_of(rhs.as_slice(), ')') {
                Some(rp) => {
                    let inside = slice_chars(rhs.as_slice(), lp + 1, rp);
                    rule_range_of(inside.as_slice())
                },
                None => (None, None),
            }
        } else {
            (None, None)
        };
        Some(Rule { field: string_of(field.as_slice()), email: false, min: bounds.0, max: bounds.1 })
    } else if rhs.len() >= 5 && starts_with_at(rhs.as_slice(), 0, em.as_slice()) {
        Some(Rule { field: string_of(field.as_slice()), email: true, min: None, max: None })
    } else {
        None
    }
}

/// Reads the rules of a configuration, in order.
pub fn parse_rules(cfg: &str) -> (r: Vec<Rule>)
    requires
        !config_unreadable(cfg@),
    ensures
        r@.map_values(|x: Rule| rule_model(x)) == rules_of(cfg@),
{
    let t = trim_chars(chars_of(cfg).as_slice());
    let body: Vec<char> = if t.len() >= 2 && t[0] == '{' && t[t.len() - 1] == '}' {
        slice_chars(t.as_slice(), 1, t.len() - 1)
    } else {
        t
    };
    assert(body@ == rule_body(cfg@));
    let lines = split_at_char(body.as_slice(), '\n');
    let ghost ls = lines@.map_values(|x: Vec<char>| x@);
    let mut rules: Vec<Rule> = Vec::new();
    let mut k: usize = 0;
    while k < lines.len()
        invariant
            ls == lines@.map_values(|x: Vec<char>| x@),
            ls == split_char(rule_body(cfg@), '\n'),
            !config_unreadable(cfg@),
            k <= ls.len(),
            rules@.map_values(|x: Rule| rule_model(x)) == rules_of_lines(ls.take(k as int)),
        decreases ls.len() - k,
    {
        assert(!line_unreadable(ls[k as int]));
        let ghost before = rules@.map_values(|x: Rule| rule_model(x));
        proof {
            assert(ls.take(k + 1).drop_last() =~= ls.take(k as int));
            assert(ls.take(k + 1).last() == ls[k as int]);
        }
        match rule_of_line(lines[k].as_slice()) {
            Some(r) => {
                rules.push(r);
                assert(rules@.map_values(|x: Rule| rule_model(x)) =~= before + seq![rule_model(r)]);
            },
            None => {
                assert(before + Seq::<(Seq<char>, bool, Option<usize>, Option<usize>)>::empty() =~= before);
            },
        }
        k = k + 1;
    }
    assert(ls.take(ls.len() as int) =~= ls);
    rules
}

/// The text a string rule checks.
fn string_form_of(v: Option<&JsonValue>) -> (r: Option<Vec<char>>)
    ensures
        match r {
            Some(s) => string_form(match v { Some(x) => Some(jv(*x)), None => None }) == Some(s@),
            None => string_form(match v { Some(x) => Some(jv(*x)), None => None }) is None,
        },
{
    match v {
        Some(JsonValue::Str(s)) => Some(chars_of(s.as_str())),
        Some(JsonValue::Number(n)) => {
            let mut out: Vec<char> = Vec::new();
            write_json(v.unwrap(), &mut out);
            assert(out@ =~= json_text(jv(*v.unwrap())));
            Some(out)
        },
        Some(JsonValue::Bool(b)) => Some(if *b { chars_of("true") } else { chars_of("false") }),
        _ => None,
    }
}

/// The message `Field '<f>'<tail>`.
fn field_message(f: &str, tail: &str) -> (r: Vec<char>)
    ensures
        r@ == "Field '"@ + f@ + tail@,
{
    let mut m: Vec<char> = Vec::new();
    append_str(&mut m, "Field '");
    append_str(&mut m, f);
    append_str(&mut m, tail);
    m
}

/// The message `Field '<f>' must be at <which> <n> characters`.
fn bound_message(f: &str, which: &str, n: usize) -> (r: Vec<char>)
    ensures
        r@ == "Field '"@ + f@ + which@ + dec(n as nat) + " characters"@,
{
    let mut m: Vec<char> = Vec::new();
    append_str(&mut m, "Field '");
    append_str(&mut m, f);
    append_str(&mut m, which);
    let d = u64_to_chars(n as u64);
    append(&mut m, d.as_slice());
    append_str(&mut m, " characters");
    m
}

/// The state that reports a failed rule.
pub fn make_validation_error(field: &str, rule: &str, message: &[char]) -> (r: JsonValue)
    ensures
        jv(r) == validation_error(field@, rule@, message@),
{
    let mut inner: Vec<(String, JsonValue)> = Vec::new();
    inner.push((string_of(chars_of("context").as_slice()), JsonValue::Str(string_of(chars_of(field).as_slice()))));
    inner.push((string_of(chars_of("field").as_slice()), JsonValue::Str(string_of(chars_of(field).as_slice()))));
    inner.push((string_of(chars_of("message").as_slice()), JsonValue::Str(string_of(message))));
    inner.push((string_of(chars_of("rule").as_slice()), JsonValue::Str(string_of(chars_of(rule).as_slice()))));
    inner.push((string_of(chars_of("type").as_slice()), JsonValue::Str(string_of(chars_of("validationError").as_slice()))));
    proof { lemma_jv_entries(inner@); }
    assert(jv_entries(inner@) =~= seq![
        ("context"@, Json::Str(field@)),
        ("field"@, Json::Str(field@)),
        ("message"@, Json::Str(message@)),
        ("rule"@, Json::Str(rule@)),
        ("type"@, Json::Str("validationError"@)),
    ]);
    let o = JsonValue::Object(inner);
    let ghost oj = jv(o);
    let mut arr: Vec<JsonValue> = Vec::new();
    arr.push(o);
    proof { lemma_jv_seq(arr@); }
    assert(jv_seq(arr@) =~= seq![oj]);
    let a = JsonValue::Array(arr);
    let ghost aj = jv(a);
    let mut outer: Vec<(String, JsonValue)> = Vec::new();
    outer.push((string_of(chars_of("errors").as_slice()), a));
    proof { lemma_jv_entries(outer@); }
    assert(jv_entries(outer@) =~= seq![("errors"@, aj)]);
    JsonValue::Object(outer)
}

/// What the `validate` middleware does to `state`: with rules and an
/// object body, the first failed rule replaces the state with its error.
pub open spec fn validate_outcome(cfg: Seq<char>, state: Json) -> Option<Json> {
    let rules = rules_of(cfg);
    match get(state, "body"@) {
        Some(b) => if rules.len() > 0 && b is Object {
            match first_violation(rules, b, 0) {
                Some((f, r, m)) => Some(validation_error(f, r, m)),
                None => None,
            }
        } else {
            None
        },
        None => None,
    }
}

impl ValidateMiddleware {
    /// Checks the request body in `state` against the rules of `config`:
    /// `None` keeps the state, `Some` gives the error that replaces it.
    pub fn check(&self, config: &str, state: &JsonValue) -> (r: Option<JsonValue>)
        requires
            !config_unreadable(config@),
        ensures
            match r {
                Some(x) => validate_outcome(config@, jv(*state)) == Some(jv(x)),
                None => validate_outcome(config@, jv(*state)) is None,
            },
    {
        let rules = parse_rules(config);
        let ghost rs = rules@.map_values(|x: Rule| rule_model(x));
        if rules.len() == 0 {
            return None;
        }
        let body = match state.get("body") {
            Some(b) => b,
            None => {
                return None;
            },
        };
        if !body.is_object() {
            return None;
        }
        let ghost bj = jv(*body);
        let mut k: usize = 0;
        while k < rules.len()
            invariant
                rs == rules@.map_values(|x: Rule| rule_model(x)),
                rs == rules_of(config@),
                bj == jv(*body),
                get(jv(*state), "body"@) == Some(bj),
                bj is Object,
                rs.len() > 0,
                k <= rs.len(),
                first_violation(rs, bj, 0) == first_violation(rs, bj, k as int),
            decreases rs.len() - k,
        {
            let rule = &rules[k];
            let f = rule.field.as_str();
            assert(rs[k as int] == rule_model(*rule));
            let v = body.get(f);
            if rule.email {
                let s: Option<Vec<char>> = match v {
                    Some(x) => match x.as_str() {
                        Some(t) => Some(chars_of(t.as_str())),
                        None => None,
                    },
                    None => None,
                };
                match s {
                    Some(t) => {
                        if t.len() == 0 {
                            let m = field_message(f, "' is required and must be a valid email");
                            return Some(make_validation_error(f, "required", m.as_slice()));
                        }
                        if !crate::schema::email_ok(t.as_slice()) {
                            let m = field_message(f, "' must be a valid email address");
                            return Some(make_validation_error(f, "email", m.as_slice()));
                        }
                    },
                    None => {
                        let m = field_message(f, "' is required and must be a valid email");
                        return Some(make_validation_error(f, "required", m.as_slice()));
                    },
                }
            } else {
                match string_form_of(v) {
                    Some(t) => {
                        if t.len() == 0 {
                            let m = field_message(f, "' is required and must be a non-empty string");
                            return Some(make_validation_error(f, "required", m.as_slice()));
                        }
                        match rule.min {
                            Some(mn) => {
                                if t.len() < mn {
                                    let m = bound_message(f, "' must be at least ", mn);
                                    return Some(make_validation_error(f, "minLength", m.as_slice()));
                                }
                            },
                            None => {},
                        }
                        match rule.max {
                            Some(mx) => {
                                if t.len() > mx {
                                    let m = bound_message(f, "' must be at most ", mx);
                                    return Some(make_validation_error(f, "maxLength", m.as_slice()));
                                }
                            },
                            None => {},
                        }
                    },
                    None => {
                        let m = field_message(f, "' is required and must be a non-empty string");
                        return Some(make_validation_error(f, "required", m.as_slice()));
                    },
                }
            }
            k = k + 1;
        }
        None
    }
}


/// Whether one rule is met by the body: an email rule by a non-empty
/// string that is a valid email; any other rule by a non-empty string,
/// number or boolean whose text is within the rule's length bounds.
pub open spec fn rule_met(rule: (Seq<char>, bool, Option<usize>, Option<usize>), b: Json) -> bool {
    let (f, email, mn, mx) = rule;
    if email {
        match get(b, f) {
            Some(Json::Str(s)) => s.len() > 0 && is_email(s),
            _ => false,
        }
    } else {
        match string_form(get(b, f)) {
            Some(s) => s.len() > 0 && (mn matches Some(m) ==> s.len() >= m) && (mx matches Some(m) ==> s.len() <= m),
            None => false,
        }
    }
}

/// Law: the rules from `k` on are checked in order, each one whatever the
/// earlier ones were: there is no failure exactly when every one of them is
/// met, and a failure names the field of the first rule that is not met.
pub proof fn law_first_unmet_rule(rules: Seq<(Seq<char>, bool, Option<usize>, Option<usize>)>, b: Json, k: int)
    requires
        0 <= k <= rules.len(),
    ensures
        first_violation(rules, b, k) is None <==> forall|j: int| k <= j < rules.len() ==> rule_met(#[trigger] rules[j], b),
        first_violation(rules, b, k) matches Some((f, _, _)) ==> exists|j: int| k <= j < rules.len()
            && !rule_met(#[trigger] rules[j], b) && rules[j].0 == f
            && forall|i: int| k <= i < j ==> rule_met(#[trigger] rules[i], b),
    decreases rules.len() - k,
{
    if k < rules.len() {
        law_first_unmet_rule(rules, b, k + 1);
        if rule_met(rules[k], b) {
            assert(first_violation(rules, b, k) == first_violation(rules, b, k + 1));
            if let Some((f, _, _)) = first_violation(rules, b, k + 1) {
                let j = choose|j: int| k + 1 <= j < rules.len()
                    && !rule_met(#[trigger] rules[j], b) && rules[j].0 == f
                    && forall|i: int| k + 1 <= i < j ==> rule_met(#[trigger] rules[i], b);
                assert(forall|i: int| k <= i < j ==> rule_met(#[trigger] rules[i], b));
            }
        } else {
            assert(first_violation(rules, b, k) matches Some((f, _, _)) && f == rules[k].0);
        }
    }
}

/// Law: the `validate` middleware with rules and an object body keeps the
/// state exactly when every rule is met; otherwise the state becomes the
/// error of the first rule, in the order written, that is not met.
pub proof fn law_validate_reports_first_unmet(cfg: Seq<char>, state: Json, b: Json)
    requires
        get(state, "body"@) == Some(b),
        b is Object,
        rules_of(cfg).len() > 0,
    ensures
        validate_outcome(cfg, state) is None <==> forall|j: int| 0 <= j < rules_of(cfg).len()
            ==> rule_met(#[trigger] rules_of(cfg)[j], b),
        validate_outcome(cfg, state) is Some ==> exists|j: int, r: Seq<char>, m: Seq<char>|
            #![trigger validation_error(rules_of(cfg)[j].0, r, m)]
            0 <= j < rules_of(cfg).len() && !rule_met(rules_of(cfg)[j], b)
            && (forall|i: int| 0 <= i < j ==> rule_met(#[trigger] rules_of(cfg)[i], b))
            && validate_outcome(cfg, state) == Some(validation_error(rules_of(cfg)[j].0, r, m)),
{
    let rules = rules_of(cfg);
    law_first_unmet_rule(rules, b, 0);
    if let Some((f, r, m)) = first_violation(rules, b, 0) {
        let j = choose|j: int| 0 <= j < rules.len()
            && !rule_met(#[trigger] rules[j], b) && rules[j].0 == f
            && forall|i: int| 0 <= i < j ==> rule_met(#[trigger] rules[i], b);
        assert(validate_outcome(cfg, state) == Some(validation_error(rules[j].0, r, m)));
    }
}

} // verus!
