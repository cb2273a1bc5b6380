//! The test blocks of a program: `describe`, `it`, `when`, mocks, `let`
//! bindings, `with` clauses and the `then`/`and` assertions.

use vstd::prelude::*;
use crate::ast::{Describe, Mock, It, When, Condition, ConditionType, DomAssertType, LetValueFormat};
use crate::parser::{Parsed, ms_end, ms_skip, wc_end, skip_ws_and_comments, lit_at, ident_at, parse_identifier,
    delimited_at, parse_delimited, method_at, parse_method, till1_at, take_till1, text_lit_at, parse_text_literal,
    value_at, parse_value_text};
use crate::schema::{digits_end, lemma_digits_end};
use crate::text::{occurs_at, is_digit, trim, chars_of, string_of, str_eq, append_str, trim_chars, slice_chars};

verus! {

broadcast use vstd::std_specs::vec::group_vec_axioms;

/// The model of a `when` clause.
pub enum WhenModel {
    Calling(Seq<char>, Seq<char>),
    Pipeline(Seq<char>),
    Variable(Seq<char>, Seq<char>),
}

/// The model of a `When`.
pub open spec fn when_model(w: When) -> WhenModel {
    match w {
        When::CallingRoute { method, path } => WhenModel::Calling(method@, path@),
        When::ExecutingPipeline { name } => WhenModel::Pipeline(name@),
        When::ExecutingVariable { var_type, name } => WhenModel::Variable(var_type@, name@),
    }
}

/// `calling METHOD path`, `executing pipeline name` or
/// `executing variable kind name` at `p`.
pub open spec fn when_at(cs: Seq<char>, p: int) -> Option<(WhenModel, int)> {
    if occurs_at(cs, "calling"@, p) {
        match method_at(cs, ms_end(cs, p + 7)) {
            Some((m, e)) => match till1_at(cs, ms_end(cs, e), '\n', '\n') {
                Some((path, f)) => Some((WhenModel::Calling(m, path), f)),
                None => None,
            },
            None => None,
        }
    } else if occurs_at(cs, "executing"@, p) {
        let a = ms_end(cs, p + 9);
        if occurs_at(cs, "pipeline"@, a) {
            match ident_at(cs, ms_end(cs, a + 8)) {
                Some((n, e)) => Some((WhenModel::Pipeline(n), e)),
                None => None,
            }
        } else if occurs_at(cs, "variable"@, a) {
            match ident_at(cs, ms_end(cs, a + 8)) {
                Some((t, e)) => match ident_at(cs, ms_end(cs, e)) {
                    Some((n, f)) => Some((WhenModel::Variable(t, n), f)),
                    None => None,
                },
                None => None,
            }
        } else {
            None
        }
    } else {
        None
    }
}

/// Reads what a test exercises.
pub fn parse_when(cs: &[char], p: usize) -> (r: Option<(When, usize)>)
    requires
        p <= cs@.len(),
    ensures
        match r {
            Some((w, e)) => when_at(cs@, p as int) == Some((when_model(w), e as int)) && p < e <= cs@.len(),
            None => when_at(cs@, p as int) is None,
        },
{
    proof {
        reveal_strlit("calling");
        reveal_strlit("executing");
        reveal_strlit("pipeline");
        reveal_strlit("variable");
    }
    if lit_at(cs, p, "calling") {
        let a = ms_skip(cs, p + 7);
        let (method, e) = match parse_method(cs, a) {
            Some(x) => x,
            None => {
                return None;
            },
        };
        let b = ms_skip(cs, e);
        match take_till1(cs, b, '\n', '\n') {
            Some((path, f)) => Some((When::CallingRoute { method, path }, f)),
            None => None,
        }
    } else if lit_at(cs, p, "executing") {
        let a = ms_skip(cs, p + 9);
        if lit_at(cs, a, "pipeline") {
            let b = ms_skip(cs, a + 8);
            match parse_identifier(cs, b) {
                Some((name, e)) => Some((When::ExecutingPipeline { name }, e)),
                None => None,
            }
        } else if lit_at(cs, a, "variable") {
            let b = ms_skip(cs, a + 8);
            let (var_type, e) = match parse_identifier(cs, b) {
                Some(x) => x,
                None => {
                    return None;
                },
            };
            let c = ms_skip(cs, e);
            match parse_identifier(cs, c) {
                Some((name, f)) => Some((When::ExecutingVariable { var_type, name }, f)),
                None => None,
            }
        } else {
            None
        }
    } else {
        None
    }
}

/// A mock target after `pipeline`, `query` or `mutation`: at least one
/// space, then an identifier; the target reads `kind.name`.
pub open spec fn named_target_at(cs: Seq<char>, d: int, kind: Seq<char>) -> Option<(Seq<char>, int)> {
    if ms_end(cs, d) > d {
        match ident_at(cs, ms_end(cs, d)) {
            Some((n, e)) => Some((kind + "."@ + n, e)),
            None => None,
        }
    } else {
        None
    }
}

/// The target of a mock: `pipeline name`, `query name`, `mutation name`,
/// or a word running to the next space or line break.
pub open spec fn target_at(cs: Seq<char>, c: int) -> Option<(Seq<char>, int)> {
    if occurs_at(cs, "pipeline"@, c) {
        named_target_at(cs, c + 8, "pipeline"@)
    } else if occurs_at(cs, "query"@, c) {
        named_target_at(cs, c + 5, "query"@)
    } else if occurs_at(cs, "mutation"@, c) {
        named_target_at(cs, c + 8, "mutation"@)
    } else {
        till1_at(cs, c, ' ', '\n')
    }
}

/// `<kw> mock target returning `value`` at `p` (leading whitespace
/// allowed), as (target, value), and the position after the trailing
/// whitespace.
pub open spec fn mock_at(cs: Seq<char>, p: int, kw: Seq<char>) -> Option<((Seq<char>, Seq<char>), int)> {
    let a = ms_end(cs, p);
    let b = ms_end(cs, a + kw.len());
    if occurs_at(cs, kw, a) && occurs_at(cs, "mock"@, b) {
        match target_at(cs, ms_end(cs, b + 4)) {
            Some((t, e)) => {
                let f = ms_end(cs, e);
                if occurs_at(cs, "returning"@, f) {
                    match delimited_at(cs, ms_end(cs, f + 9), '`') {
                        Some((v, h)) => Some(((t, v), ms_end(cs, h))),
                        None => None,
                    }
                } else {
                    None
                }
            },
            None => None,
        }
    } else {
        None
    }
}

/// The model of a mock: its target and returned value.
pub open spec fn mock_model(m: Mock) -> (Seq<char>, Seq<char>) {
    (m.target@, m.return_value@)
}

fn parse_named_target(cs: &[char], d: usize, kind: &str) -> (r: Option<(String, usize)>)
    requires
        d <= cs@.len(),
    ensures
        match r {
            Some((s, e)) => named_target_at(cs@, d as int, kind@) == Some((s@, e as int)) && d < e <= cs@.len(),
            None => named_target_at(cs@, d as int, kind@) is None,
        },
{
    proof { reveal_strlit("."); }
    let a = ms_skip(cs, d);
    if a == d {
        return None;
    }
    match parse_identifier(cs, a) {
        Some((n, e)) => {
            let mut v: Vec<char> = chars_of(kind);
            append_str(&mut v, ".");
            append_str(&mut v, n.as_str());
            Some((string_of(v.as_slice()), e))
        },
        None => None,
    }
}

fn parse_target(cs: &[char], c: usize) -> (r: Option<(String, usize)>)
    requires
        c <= cs@.len(),
    ensures
        match r {
            Some((s, e)) => target_at(cs@, c as int) == Some((s@, e as int)) && c < e <= cs@.len(),
            None => target_at(cs@, c as int) is None,
        },
{
    proof {
        reveal_strlit("pipeline");
        reveal_strlit("query");
        reveal_strlit("mutation");
    }
    if lit_at(cs, c, "pipeline") {
        parse_named_target(cs, c + 8, "pipeline")
    } else if lit_at(cs, c, "query") {
        parse_named_target(cs, c + 5, "query")
    } else if lit_at(cs, c, "mutation") {
        parse_named_target(cs, c + 8, "mutation")
    } else {
        take_till1(cs, c, ' ', '\n')
    }
}

fn parse_mock_after(cs: &[char], p: usize, kw: &str) -> (r: Option<(Mock, usize)>)
    requires
        p <= cs@.len(),
    ensures
        match r {
            Some((m, e)) => mock_at(cs@, p as int, kw@) == Some((mock_model(m), e as int)) && p < e <= cs@.len(),
            None => mock_at(cs@, p as int, kw@) is None,
        },
{
    proof {
        reveal_strlit("mock");
        reveal_strlit("returning");
    }
    let a = ms_skip(cs, p);
    if !lit_at(cs, a, kw) {
        return None;
    }
    let k = chars_of(kw);
    let b = ms_skip(cs, a + k.len());
    if !lit_at(cs, b, "mock") {
        return None;
    }
    let c = ms_skip(cs, b + 4);
    let (target, e) = match parse_target(cs, c) {
        Some(x) => x,
        None => {
            return None;
        },
    };
    let f = ms_skip(cs, e);
    if !lit_at(cs, f, "returning") {
        return None;
    }
    let g = ms_skip(cs, f + 9);
    match parse_delimited(cs, g, '`') {
        Some((return_value, h)) => Some((Mock { target, return_value }, ms_skip(cs, h))),
        None => None,
    }
}

/// Reads `with mock target returning `value``.
pub fn parse_mock(cs: &[char], p: usize) -> (r: Option<(Mock, usize)>)
    requires
        p <= cs@.len(),
    ensures
        match r {
            Some((m, e)) => mock_at(cs@, p as int, "with"@) == Some((mock_model(m), e as int)) && p < e <= cs@.len(),
            None => mock_at(cs@, p as int, "with"@) is None,
        },
{
    parse_mock_after(cs, p, "with")
}

/// Reads `and mock target returning `value``.
pub fn parse_and_mock(cs: &[char], p: usize) -> (r: Option<(Mock, usize)>)
    requires
        p <= cs@.len(),
    ensures
        match r {
            Some((m, e)) => mock_at(cs@, p as int, "and"@) == Some((mock_model(m), e as int)) && p < e <= cs@.len(),
            None => mock_at(cs@, p as int, "and"@) is None,
        },
{
    parse_mock_after(cs, p, "and")
}

/// The view of a value format: 0 quoted, 1 backtick, 2 bare.
pub open spec fn format_kind(f: LetValueFormat) -> int {
    match f {
        LetValueFormat::Quoted => 0,
        LetValueFormat::Backtick => 1,
        LetValueFormat::Bare => 2,
    }
}

/// The value of a `let` at `c`: backtick text, quoted text, `null`,
/// `true`, `false`, a decimal `digits.digits`, or digits; with its format.
pub open spec fn let_value_at(cs: Seq<char>, c: int) -> Option<(Seq<char>, int, int)> {
    match delimited_at(cs, c, '`') {
        Some((v, e)) => Some((v, 1, e)),
        None => match delimited_at(cs, c, '"') {
            Some((v, e)) => Some((v, 0, e)),
            None => if occurs_at(cs, "null"@, c) {
                Some(("null"@, 2, c + 4))
            } else if occurs_at(cs, "true"@, c) {
                Some(("true"@, 2, c + 4))
            } else if occurs_at(cs, "false"@, c) {
                Some(("false"@, 2, c + 5))
            } else if digits_end(cs, c) > c {
                let d = digits_end(cs, c);
                if d < cs.len() && cs[d] == '.' && digits_end(cs, d + 1) > d + 1 {
                    Some((cs.subrange(c, digits_end(cs, d + 1)), 2, digits_end(cs, d + 1)))
                } else {
                    Some((cs.subrange(c, d), 2, d))
                }
            } else {
                None
            },
        },
    }
}

/// `let name = value` at `p`: (name, value, format).
pub open spec fn let_at(cs: Seq<char>, p: int) -> Option<((Seq<char>, Seq<char>, int), int)> {
    if occurs_at(cs, "let"@, p) {
        match ident_at(cs, ms_end(cs, p + 3)) {
            Some((name, e)) => {
                let b = ms_end(cs, e);
                if b < cs.len() && cs[b] == '=' {
                    match let_value_at(cs, ms_end(cs, b + 1)) {
                        Some((v, k, f)) => Some(((name, v, k), f)),
                        None => None,
                    }
                } else {
                    None
                }
            },
            None => None,
        }
    } else {
        None
    }
}

/// The model of a binding.
pub open spec fn binding_model(b: (String, String, LetValueFormat)) -> (Seq<char>, Seq<char>, int) {
    (b.0@, b.1@, format_kind(b.2))
}

fn scan_digits(cs: &[char], p: usize) -> (e: usize)
    requires
        p <= cs@.len(),
    ensures
        e == digits_end(cs@, p as int),
        p <= e <= cs@.len(),
{
    let mut e = p;
    proof { lemma_digits_end(cs@, p as int); }
    while e < cs.len() && '0' <= cs[e] && cs[e] <= '9'
        invariant
            p <= e <= cs@.len(),
            digits_end(cs@, p as int) == digits_end(cs@, e as int),
        decreases cs@.len() - e,
    {
        e = e + 1;
    }
    e
}

fn parse_let_value(cs: &[char], c: usize) -> (r: Option<(String, LetValueFormat, usize)>)
    requires
        c <= cs@.len(),
    ensures
        match r {
            Some((v, f, e)) => let_value_at(cs@, c as int) == Some((v@, format_kind(f), e as int)) && c < e <= cs@.len(),
            None => let_value_at(cs@, c as int) is None,
        },
{
    proof {
        reveal_strlit("null");
        reveal_strlit("true");
        reveal_strlit("false");
    }
    match parse_delimited(cs, c, '`') {
        Some((v, e)) => {
            return Some((v, LetValueFormat::Backtick, e));
        },
        None => {},
    }
    match parse_delimited(cs, c, '"') {
        Some((v, e)) => {
            return Some((v, LetValueFormat::Quoted, e));
        },
        None => {},
    }
    if lit_at(cs, c, "null") {
        return Some((string_of(chars_of("null").as_slice()), LetValueFormat::Bare, c + 4));
    }
    if lit_at(cs, c, "true") {
        return Some((string_of(chars_of("true").as_slice()), LetValueFormat::Bare, c + 4));
    }
    if lit_at(cs, c, "false") {
        return Some((string_of(chars_of("false").as_slice()), LetValueFormat::Bare, c + 5));
    }
    let d = scan_digits(cs, c);
    if d == c {
        return None;
    }
    if d < cs.len() && cs[d] == '.' {
        let f = scan_digits(cs, d + 1);
        if f > d + 1 {
            return Some((string_of(slice_chars(cs, c, f).as_slice()), LetValueFormat::Bare, f));
        }
    }
    Some((string_of(slice_chars(cs, c, d).as_slice()), LetValueFormat::Bare, d))
}

/// Reads `let name = value`.
pub fn parse_let_binding(cs: &[char], p: usize) -> (r: Option<((String, String, LetValueFormat), usize)>)
    requires
        p <= cs@.len(),
    ensures
        match r {
            Some((b, e)) => let_at(cs@, p as int) == Some((binding_model(b), e as int)) && p < e <= cs@.len(),
            None => let_at(cs@, p as int) is None,
        },
{
    proof { reveal_strlit("let"); }
    if !lit_at(cs, p, "let") {
        return None;
    }
    let a = ms_skip(cs, p + 3);
    let (name, e) = match parse_identifier(cs, a) {
        Some(x) => x,
        None => {
            return None;
        },
    };
    let b = ms_skip(cs, e);
    if !(b < cs.len() && cs[b] == '=') {
        return None;
    }
    let c = ms_skip(cs, b + 1);
    match parse_let_value(cs, c) {
        Some((v, f, g)) => Some(((name, v, f), g)),
        None => None,
    }
}

/// The kind of a `with` clause at `a`: `input`, `body`, `headers` or
/// `cookies`.
pub open spec fn with_kind_at(cs: Seq<char>, a: int) -> Option<(Seq<char>, int)> {
    if occurs_at(cs, "input"@, a) {
        Some(("input"@, a + 5))
    } else if occurs_at(cs, "body"@, a) {
        Some(("body"@, a + 4))
    } else if occurs_at(cs, "headers"@, a) {
        Some(("headers"@, a + 7))
    } else if occurs_at(cs, "cookies"@, a) {
        Some(("cookies"@, a + 7))
    } else {
        None
    }
}

/// `with kind `value`` at `w`: (kind, value), and the position after the
/// trailing whitespace.
pub open spec fn with_at(cs: Seq<char>, w: int) -> Option<((Seq<char>, Seq<char>), int)> {
    if occurs_at(cs, "with"@, w) {
        match with_kind_at(cs, ms_end(cs, w + 4)) {
            Some((k, e)) => match delimited_at(cs, ms_end(cs, e), '`') {
                Some((v, f)) => Some(((k, v), ms_end(cs, f))),
                None => None,
            },
            None => None,
        }
    } else {
        None
    }
}

/// `and with kind `value`` at `p`.
pub open spec fn and_with_at(cs: Seq<char>, p: int) -> Option<((Seq<char>, Seq<char>), int)> {
    if occurs_at(cs, "and"@, p) {
        with_at(cs, ms_end(cs, p + 3))
    } else {
        None
    }
}

/// Reads `with kind `value``.
pub fn parse_with_clause(cs: &[char], p: usize) -> (r: Option<((String, String), usize)>)
    requires
        p <= cs@.len(),
    ensures
        match r {
            Some((kv, e)) => with_at(cs@, p as int) == Some(((kv.0@, kv.1@), e as int)) && p < e <= cs@.len(),
            None => with_at(cs@, p as int) is None,
        },
{
    proof {
        reveal_strlit("with");
        reveal_strlit("input");
        reveal_strlit("body");
        reveal_strlit("headers");
        reveal_strlit("cookies");
    }
    if !lit_at(cs, p, "with") {
        return None;
    }
    let a = ms_skip(cs, p + 4);
    let (kind, e): (&str, usize) = if lit_at(cs, a, "input") {
        ("input", a + 5)
    } else if lit_at(cs, a, "body") {
        ("body", a + 4)
    } else if lit_at(cs, a, "headers") {
        ("headers", a + 7)
    } else if lit_at(cs, a, "cookies") {
        ("cookies", a + 7)
    } else {
        return None;
    };
    let b = ms_skip(cs, e);
    match parse_delimited(cs, b, '`') {
        Some((v, f)) => Some(((string_of(chars_of(kind).as_slice()), v), ms_skip(cs, f))),
        None => None,
    }
}

/// Reads `and with kind `value``.
pub fn parse_and_with_clause(cs: &[char], p: usize) -> (r: Option<((String, String), usize)>)
    requires
        p <= cs@.len(),
    ensures
        match r {
            Some((kv, e)) => and_with_at(cs@, p as int) == Some(((kv.0@, kv.1@), e as int)) && p < e <= cs@.len(),
            None => and_with_at(cs@, p as int) is None,
        },
{
    proof { reveal_strlit("and"); }
    if !lit_at(cs, p, "and") {
        return None;
    }
    let a = ms_skip(cs, p + 3);
    parse_with_clause(cs, a)
}


/// The model of a DOM assertion.
pub enum DomModel {
    Exists,
    Text,
    Count,
    Attribute(Seq<char>),
}

/// The model of an assertion: every field of a `Condition`, by view.
pub struct CondModel {
    pub then: bool,
    pub field: Seq<char>,
    pub header_name: Option<Seq<char>>,
    pub jq_expr: Option<Seq<char>>,
    pub comparison: Seq<char>,
    pub value: Seq<char>,
    pub is_call: bool,
    pub call_target: Option<Seq<char>>,
    pub selector: Option<Seq<char>>,
    pub dom: Option<DomModel>,
}

/// The view of an optional string.
pub open spec fn opt_view(o: Option<String>) -> Option<Seq<char>> {
    match o {
        Some(s) => Some(s@),
        None => None,
    }
}

/// The model of a DOM assertion kind.
pub open spec fn dom_model(d: DomAssertType) -> DomModel {
    match d {
        DomAssertType::Exists => DomModel::Exists,
        DomAssertType::Text => DomModel::Text,
        DomAssertType::Count => DomModel::Count,
        DomAssertType::Attribute(a) => DomModel::Attribute(a@),
    }
}

/// The model of a `Condition`.
pub open spec fn cond_model(c: Condition) -> CondModel {
    CondModel {
        then: c.condition_type is Then,
        field: c.field@,
        header_name: opt_view(c.header_name),
        jq_expr: opt_view(c.jq_expr),
        comparison: c.comparison@,
        value: c.value@,
        is_call: c.is_call_assertion,
        call_target: opt_view(c.call_target),
        selector: opt_view(c.selector),
        dom: match c.dom_assert {
            Some(d) => Some(dom_model(d)),
            None => None,
        },
    }
}

/// What reading an assertion at a position gives.
pub enum CondOutcome {
    /// The assertion and the position after it.
    Read(CondModel, int),
    /// No assertion here.
    NoMatch,
    /// A selector assertion with an unknown operation: a hard failure.
    Malformed,
}

/// The outcome a parser result stands for.
pub open spec fn cond_outcome(r: Parsed<Condition>) -> CondOutcome {
    match r {
        Parsed::Done(c, e) => CondOutcome::Read(cond_model(c), e as int),
        Parsed::Error => CondOutcome::NoMatch,
        Parsed::Failure => CondOutcome::Malformed,
    }
}

/// `then` or `and` at `a`.
pub open spec fn cond_kind_at(cs: Seq<char>, a: int) -> Option<(bool, int)> {
    if occurs_at(cs, "then"@, a) {
        Some((true, a + 4))
    } else if occurs_at(cs, "and"@, a) {
        Some((false, a + 3))
    } else {
        None
    }
}

/// `query` or `mutation` at `c`.
pub open spec fn call_kind_at(cs: Seq<char>, c: int) -> Option<(Seq<char>, int)> {
    if occurs_at(cs, "query"@, c) {
        Some(("query"@, c + 5))
    } else if occurs_at(cs, "mutation"@, c) {
        Some(("mutation"@, c + 8))
    } else {
        None
    }
}

/// `with arguments` or `with` at `g`.
pub open spec fn call_comparison_at(cs: Seq<char>, g: int) -> Option<(Seq<char>, int)> {
    if occurs_at(cs, "with arguments"@, g) {
        Some(("with arguments"@, g + 14))
    } else if occurs_at(cs, "with"@, g) {
        Some(("with"@, g + 4))
    } else {
        None
    }
}

/// The rest of a call assertion at `c`: `query|mutation name with[ arguments] value`.
pub open spec fn call_cond_at(cs: Seq<char>, then: bool, c: int) -> CondOutcome {
    match call_kind_at(cs, c) {
        None => CondOutcome::NoMatch,
        Some((ct, d0)) => if ms_end(cs, d0) == d0 {
            CondOutcome::NoMatch
        } else {
            match ident_at(cs, ms_end(cs, d0)) {
                None => CondOutcome::NoMatch,
                Some((name, e)) => match call_comparison_at(cs, ms_end(cs, e)) {
                    None => CondOutcome::NoMatch,
                    Some((comparison, h)) => match value_at(cs, ms_end(cs, h)) {
                        None => CondOutcome::NoMatch,
                        Some((value, f)) => CondOutcome::Read(CondModel {
                            then,
                            field: "call"@,
                            header_name: None,
                            jq_expr: None,
                            comparison,
                            value,
                            is_call: true,
                            call_target: Some(ct + "."@ + name),
                            selector: None,
                            dom: None,
                        }, f),
                    },
                },
            }
        },
    }
}

/// A selector assertion's model.
pub open spec fn sel_model(then: bool, sel: Seq<char>, comparison: Seq<char>, value: Seq<char>, dom: DomModel) -> CondModel {
    CondModel {
        then,
        field: "selector"@,
        header_name: None,
        jq_expr: None,
        comparison,
        value,
        is_call: false,
        call_target: None,
        selector: Some(sel),
        dom: Some(dom),
    }
}

/// The first position at or after `p` holding an ASCII digit (or the end).
pub open spec fn nondigit_end(cs: Seq<char>, p: int) -> int
    decreases cs.len() - p,
{
    if 0 <= p < cs.len() && !is_digit(cs[p]) {
        nondigit_end(cs, p + 1)
    } else {
        p
    }
}

/// `nondigit_end` stays within `[p, len]`.
pub proof fn lemma_nondigit_end(cs: Seq<char>, p: int)
    requires
        0 <= p <= cs.len(),
    ensures
        p <= nondigit_end(cs, p) <= cs.len(),
    decreases cs.len() - p,
{
    if 0 <= p < cs.len() && !is_digit(cs[p]) {
        lemma_nondigit_end(cs, p + 1);
    }
}

/// The operation of a selector assertion, at `g`.
pub open spec fn selector_op_at(cs: Seq<char>, then: bool, sel: Seq<char>, op: Seq<char>, g: int) -> CondOutcome {
    if op == "exists"@ {
        CondOutcome::Read(sel_model(then, sel, "exists"@, "true"@, DomModel::Exists), g)
    } else if op == "does"@ {
        if occurs_at(cs, "not"@, g) && occurs_at(cs, "exist"@, ms_end(cs, g + 3)) {
            CondOutcome::Read(sel_model(then, sel, "does_not_exist"@, "false"@, DomModel::Exists), ms_end(cs, g + 3) + 5)
        } else {
            CondOutcome::NoMatch
        }
    } else if op == "text"@ {
        match till1_at(cs, g, ' ', ' ') {
            None => CondOutcome::NoMatch,
            Some((word, h)) => match value_at(cs, ms_end(cs, h)) {
                None => CondOutcome::NoMatch,
                Some((v, f)) => CondOutcome::Read(sel_model(then, sel, word, v, DomModel::Text), f),
            },
        }
    } else if op == "count"@ {
        let h = nondigit_end(cs, g);
        if h > g {
            match till1_at(cs, h, '\n', '\n') {
                None => CondOutcome::NoMatch,
                Some((v, f)) => CondOutcome::Read(sel_model(then, sel, trim(cs.subrange(g, h)), trim(v), DomModel::Count), f),
            }
        } else {
            CondOutcome::NoMatch
        }
    } else if op == "attribute"@ {
        match text_lit_at(cs, g) {
            None => CondOutcome::NoMatch,
            Some((attr, h0)) => match till1_at(cs, ms_end(cs, h0), '"', '`') {
                None => CondOutcome::NoMatch,
                Some((word, k)) => match value_at(cs, k) {
                    None => CondOutcome::NoMatch,
                    Some((v, f)) => CondOutcome::Read(sel_model(then, sel, trim(word), v, DomModel::Attribute(attr)), f),
                },
            },
        }
    } else {
        CondOutcome::Malformed
    }
}

/// The rest of a selector assertion at `c`: `"css" operation ...`.
pub open spec fn selector_cond_at(cs: Seq<char>, then: bool, c: int) -> CondOutcome {
    match text_lit_at(cs, c) {
        None => CondOutcome::NoMatch,
        Some((sel, e0)) => match till1_at(cs, ms_end(cs, e0), ' ', '\n') {
            None => CondOutcome::NoMatch,
            Some((op, e1)) => selector_op_at(cs, then, sel, op, ms_end(cs, e1)),
        },
    }
}

/// The rest of any other assertion at `c`: for `header` a quoted name,
/// else an optional backtick filter; then the comparison word and value.
pub open spec fn plain_cond_at(cs: Seq<char>, then: bool, field: Seq<char>, c: int) -> CondOutcome {
    if field == "header"@ && text_lit_at(cs, c) is None {
        CondOutcome::NoMatch
    } else {
        let hd = text_lit_at(cs, c)->0;
        let header: Option<Seq<char>> = if field == "header"@ { Some(hd.0) } else { None };
        let jq: Option<Seq<char>> = if field == "header"@ {
            None
        } else {
            match delimited_at(cs, c, '`') {
                Some((j, _)) => Some(j),
                None => None,
            }
        };
        let c2 = if field == "header"@ {
            hd.1
        } else {
            match delimited_at(cs, c, '`') {
                Some((_, e)) => e,
                None => c,
            }
        };
        match till1_at(cs, ms_end(cs, c2), ' ', ' ') {
            None => CondOutcome::NoMatch,
            Some((word, e)) => match value_at(cs, ms_end(cs, e)) {
                None => CondOutcome::NoMatch,
                Some((v, f)) => CondOutcome::Read(CondModel {
                    then,
                    field,
                    header_name: header,
                    jq_expr: jq,
                    comparison: word,
                    value: v,
                    is_call: false,
                    call_target: None,
                    selector: None,
                    dom: None,
                }, f),
            },
        }
    }
}

/// An assertion at `p` (leading whitespace allowed):
/// `then|and field ...`, where the field `call` and `selector` have forms
/// of their own.
pub open spec fn condition_at(cs: Seq<char>, p: int) -> CondOutcome {
    match cond_kind_at(cs, ms_end(cs, p)) {
        None => CondOutcome::NoMatch,
        Some((then, k)) => match till1_at(cs, ms_end(cs, k), ' ', ' ') {
            None => CondOutcome::NoMatch,
            Some((field, e)) => if field == "call"@ {
                call_cond_at(cs, then, ms_end(cs, e))
            } else if field == "selector"@ {
                selector_cond_at(cs, then, ms_end(cs, e))
            } else {
                plain_cond_at(cs, then, field, ms_end(cs, e))
            },
        },
    }
}

/// The assertion kind of `then`.
fn condition_type(then: bool) -> (t: ConditionType)
    ensures
        (t is Then) == then,
{
    if then {
        ConditionType::Then
    } else {
        ConditionType::And
    }
}

fn parse_call_condition(cs: &[char], then: bool, c: usize) -> (r: Parsed<Condition>)
    requires
        c <= cs@.len(),
    ensures
        cond_outcome(r) == call_cond_at(cs@, then, c as int),
        r.bounded(cs@, c as int),
{
    proof {
        reveal_strlit("query");
        reveal_strlit("mutation");
        reveal_strlit("with arguments");
        reveal_strlit("with");
        reveal_strlit("call");
        reveal_strlit(".");
    }
    let (ct, d0): (&str, usize) = if lit_at(cs, c, "query") {
        ("query", c + 5)
    } else if lit_at(cs, c, "mutation") {
        ("mutation", c + 8)
    } else {
        return Parsed::Error;
    };
    let d = ms_skip(cs, d0);
    if d == d0 {
        return Parsed::Error;
    }
    let (name, e) = match parse_identifier(cs, d) {
        Some(x) => x,
        None => {
            return Parsed::Error;
        },
    };
    let g = ms_skip(cs, e);
    let (comparison, h): (&str, usize) = if lit_at(cs, g, "with arguments") {
        ("with arguments", g + 14)
    } else if lit_at(cs, g, "with") {
        ("with", g + 4)
    } else {
        return Parsed::Error;
    };
    let k = ms_skip(cs, h);
    let (value, f) = match parse_value_text(cs, k) {
        Some(x) => x,
        None => {
            return Parsed::Error;
        },
    };
    let mut t: Vec<char> = chars_of(ct);
    append_str(&mut t, ".");
    append_str(&mut t, name.as_str());
    Parsed::Done(Condition {
        condition_type: condition_type(then),
        field: string_of(chars_of("call").as_slice()),
        header_name: None,
        jq_expr: None,
        comparison: string_of(chars_of(comparison).as_slice()),
        value,
        is_call_assertion: true,
        call_target: Some(string_of(t.as_slice())),
        selector: None,
        dom_assert: None,
    }, f)
}

fn selector_condition(then: bool, sel: String, comparison: String, value: String, dom: DomAssertType) -> (c: Condition)
    ensures
        cond_model(c) == sel_model(then, sel@, comparison@, value@, dom_model(dom)),
{
    proof { reveal_strlit("selector"); }
    Condition {
        condition_type: condition_type(then),
        field: string_of(chars_of("selector").as_slice()),
        header_name: None,
        jq_expr: None,
        comparison,
        value,
        is_call_assertion: false,
        call_target: None,
        selector: Some(sel),
        dom_assert: Some(dom),
    }
}

fn lit_string(s: &str) -> (r: String)
    ensures
        r@ == s@,
{
    string_of(chars_of(s).as_slice())
}

fn parse_selector_op(cs: &[char], then: bool, sel: String, op: &[char], g: usize) -> (r: Parsed<Condition>)
    requires
        g <= cs@.len(),
    ensures
        cond_outcome(r) == selector_op_at(cs@, then, sel@, op@, g as int),
        r.bounded(cs@, g as int),
{
    proof {
        reveal_strlit("exists");
        reveal_strlit("does");
        reveal_strlit("text");
        reveal_strlit("count");
        reveal_strlit("attribute");
        reveal_strlit("not");
        reveal_strlit("exist");
        reveal_strlit("true");
        reveal_strlit("false");
        reveal_strlit("does_not_exist");
    }
    let ops = chars_of("exists");
    if crate::text::seq_eq(op, ops.as_slice()) {
        return Parsed::Done(selector_condition(then, sel, lit_string("exists"), lit_string("true"), DomAssertType::Exists), g);
    }
    let opd = chars_of("does");
    if crate::text::seq_eq(op, opd.as_slice()) {
        if lit_at(cs, g, "not") {
            let h = ms_skip(cs, g + 3);
            if lit_at(cs, h, "exist") {
                return Parsed::Done(selector_condition(then, sel, lit_string("does_not_exist"), lit_string("false"), DomAssertType::Exists), h + 5);
            }
        }
        return Parsed::Error;
    }
    let opt = chars_of("text");
    if crate::text::seq_eq(op, opt.as_slice()) {
        let (word, h) = match take_till1(cs, g, ' ', ' ') {
            Some(x) => x,
            None => {
                return Parsed::Error;
            },
        };
        let k = ms_skip(cs, h);
        return match parse_value_text(cs, k) {
            Some((v, f)) => Parsed::Done(selector_condition(then, sel, word, v, DomAssertType::Text), f),
            None => Parsed::Error,
        };
    }
    let opc = chars_of("count");
    if crate::text::seq_eq(op, opc.as_slice()) {
        let mut h = g;
        proof { lemma_nondigit_end(cs@, g as int); }
        while h < cs.len() && !('0' <= cs[h] && cs[h] <= '9')
            invariant
                g <= h <= cs@.len(),
                nondigit_end(cs@, g as int) == nondigit_end(cs@, h as int),
            decreases cs@.len() - h,
        {
            h = h + 1;
        }
        if h == g {
            return Parsed::Error;
        }
        let comp = trim_chars(slice_chars(cs, g, h).as_slice());
        return match take_till1(cs, h, '\n', '\n') {
            Some((v, f)) => {
                let vv = trim_chars(chars_of(v.as_str()).as_slice());
                Parsed::Done(selector_condition(then, sel, string_of(comp.as_slice()), string_of(vv.as_slice()), DomAssertType::Count), f)
            },
            None => Parsed::Error,
        };
    }
    let opa = chars_of("attribute");
    if crate::text::seq_eq(op, opa.as_slice()) {
        let (attr, h0) = match parse_text_literal(cs, g) {
            Some(x) => x,
            None => {
                return Parsed::Error;
            },
        };
        let h = ms_skip(cs, h0);
        let (word, k) = match take_till1(cs, h, '"', '`') {
            Some(x) => x,
            None => {
                return Parsed::Error;
            },
        };
        let comp_trim = trim_chars(chars_of(word.as_str()).as_slice());
        return match parse_value_text(cs, k) {
            Some((v, f)) => Parsed::Done(selector_condition(then, sel, string_of(comp_trim.as_slice()), v, DomAssertType::Attribute(attr)), f),
            None => Parsed::Error,
        };
    }
    Parsed::Failure
}

fn parse_selector_condition(cs: &[char], then: bool, c: usize) -> (r: Parsed<Condition>)
    requires
        c <= cs@.len(),
    ensures
        cond_outcome(r) == selector_cond_at(cs@, then, c as int),
        r.bounded(cs@, c as int),
{
    let (sel, e0) = match parse_text_literal(cs, c) {
        Some(x) => x,
        None => {
            return Parsed::Error;
        },
    };
    let d = ms_skip(cs, e0);
    let (op, e1) = match take_till1(cs, d, ' ', '\n') {
        Some(x) => x,
        None => {
            return Parsed::Error;
        },
    };
    let g = ms_skip(cs, e1);
    let opv = chars_of(op.as_str());
    parse_selector_op(cs, then, sel, opv.as_slice(), g)
}

fn parse_plain_condition(cs: &[char], then: bool, field: String, c: usize) -> (r: Parsed<Condition>)
    requires
        c <= cs@.len(),
    ensures
        cond_outcome(r) == plain_cond_at(cs@, then, field@, c as int),
        r.bounded(cs@, c as int),
{
    proof { reveal_strlit("header"); }
    let is_header = str_eq(field.as_str(), "header");
    let mut header_name: Option<String> = None;
    let mut jq_expr: Option<String> = None;
    let mut c2 = c;
    if is_header {
        match parse_text_literal(cs, c) {
            Some((h, e)) => {
                header_name = Some(h);
                c2 = e;
            },
            None => {
                return Parsed::Error;
            },
        }
    } else {
        match parse_delimited(cs, c, '`') {
            Some((j, e)) => {
                jq_expr = Some(j);
                c2 = e;
            },
            None => {},
        }
    }
    let d = ms_skip(cs, c2);
    let (comparison, e) = match take_till1(cs, d, ' ', ' ') {
        Some(x) => x,
        None => {
            return Parsed::Error;
        },
    };
    let k = ms_skip(cs, e);
    match parse_value_text(cs, k) {
        Some((value, f)) => Parsed::Done(Condition {
            condition_type: condition_type(then),
            field,
            header_name,
            jq_expr,
            comparison,
            value,
            is_call_assertion: false,
            call_target: None,
            selector: None,
            dom_assert: None,
        }, f),
        None => Parsed::Error,
    }
}

/// Reads a `then`/`and` assertion.
pub fn parse_condition(cs: &[char], p: usize) -> (r: Parsed<Condition>)
    requires
        p <= cs@.len(),
    ensures
        cond_outcome(r) == condition_at(cs@, p as int),
        match r {
            Parsed::Done(_, e) => p < e <= cs@.len(),
            _ => true,
        },
{
    proof {
        reveal_strlit("then");
        reveal_strlit("and");
        reveal_strlit("call");
        reveal_strlit("selector");
    }
    let a = ms_skip(cs, p);
    let (then, k): (bool, usize) = if lit_at(cs, a, "then") {
        (true, a + 4)
    } else if lit_at(cs, a, "and") {
        (false, a + 3)
    } else {
        return Parsed::Error;
    };
    let b = ms_skip(cs, k);
    let (field, e) = match take_till1(cs, b, ' ', ' ') {
        Some(x) => x,
        None => {
            return Parsed::Error;
        },
    };
    let c = ms_skip(cs, e);
    if str_eq(field.as_str(), "call") {
        parse_call_condition(cs, then, c)
    } else if str_eq(field.as_str(), "selector") {
        parse_selector_condition(cs, then, c)
    } else {
        parse_plain_condition(cs, then, field, c)
    }
}


/// `with mock ...` (or `and mock ...`) entries from `p`, as many as
/// follow.
pub open spec fn mocks_at(cs: Seq<char>, p: int, kw: Seq<char>) -> (Seq<(Seq<char>, Seq<char>)>, int)
    decreases cs.len() - p,
{
    if p < 0 || p > cs.len() {
        (Seq::empty(), p)
    } else {
        match mock_at(cs, p, kw) {
            Some((m, e)) => if p < e <= cs.len() {
                let (rest, f) = mocks_at(cs, e, kw);
                (seq![m] + rest, f)
            } else {
                (Seq::empty(), p)
            },
            None => (Seq::empty(), p),
        }
    }
}

/// `let` bindings from `p`, each followed by whitespace and comments.
pub open spec fn lets_at(cs: Seq<char>, p: int) -> (Seq<(Seq<char>, Seq<char>, int)>, int)
    decreases cs.len() - p,
{
    if p < 0 || p > cs.len() {
        (Seq::empty(), p)
    } else {
        match let_at(cs, p) {
            Some((b, e)) => if p < e <= cs.len() {
                proof { crate::grammar::lemma_wc_end(cs, e); }
                let (rest, f) = lets_at(cs, wc_end(cs, e));
                (seq![b] + rest, f)
            } else {
                (Seq::empty(), p)
            },
            None => (Seq::empty(), p),
        }
    }
}

/// `with` clauses from `p`: the first written `with kind`, the others
/// `and with kind`.
pub open spec fn withs_at(cs: Seq<char>, p: int, first: bool) -> (Seq<(Seq<char>, Seq<char>)>, int)
    decreases cs.len() - p,
{
    if p < 0 || p > cs.len() {
        (Seq::empty(), p)
    } else {
        match (if first { with_at(cs, p) } else { and_with_at(cs, p) }) {
            Some((kv, e)) => if p < e <= cs.len() {
                let (rest, f) = withs_at(cs, e, false);
                (seq![kv] + rest, f)
            } else {
                (Seq::empty(), p)
            },
            None => (Seq::empty(), p),
        }
    }
}

/// The value the last `with` clause of kind `k` gives.
pub open spec fn with_value(ws: Seq<(Seq<char>, Seq<char>)>, k: Seq<char>) -> Option<Seq<char>>
    decreases ws.len(),
{
    if ws.len() == 0 {
        None
    } else if ws.last().0 == k {
        Some(ws.last().1)
    } else {
        with_value(ws.drop_last(), k)
    }
}

/// Assertions from `p`, as many as follow; `None` when one is malformed.
pub open spec fn conds_at(cs: Seq<char>, p: int) -> Option<(Seq<CondModel>, int)>
    decreases cs.len() - p,
{
    if p < 0 || p > cs.len() {
        Some((Seq::empty(), p))
    } else {
        match condition_at(cs, p) {
            CondOutcome::Read(c, e) => if p < e <= cs.len() {
                match conds_at(cs, e) {
                    Some((rest, f)) => Some((seq![c] + rest, f)),
                    None => None,
                }
            } else {
                Some((Seq::empty(), p))
            },
            CondOutcome::NoMatch => Some((Seq::empty(), p)),
            CondOutcome::Malformed => None,
        }
    }
}

/// The model of a test.
pub struct ItM {
    pub name: Seq<char>,
    pub mocks: Seq<(Seq<char>, Seq<char>)>,
    pub when: WhenModel,
    pub variables: Seq<(Seq<char>, Seq<char>, int)>,
    pub input: Option<Seq<char>>,
    pub body: Option<Seq<char>>,
    pub headers: Option<Seq<char>>,
    pub cookies: Option<Seq<char>>,
    pub conditions: Seq<CondModel>,
}

/// The model of an `It`.
pub open spec fn it_m(t: It) -> ItM {
    ItM {
        name: t.name@,
        mocks: t.mocks@.map_values(|m: Mock| mock_model(m)),
        when: when_model(t.when),
        variables: t.variables@.map_values(|b: (String, String, LetValueFormat)| binding_model(b)),
        input: opt_view(t.input),
        body: opt_view(t.body),
        headers: opt_view(t.headers),
        cookies: opt_view(t.cookies),
        conditions: t.conditions@.map_values(|c: Condition| cond_model(c)),
    }
}

/// A test at `p` (after whitespace and comments): `it "name"`, mocks,
/// `let` bindings, `when ...`, `with` clauses, `and mock` entries, and
/// assertions; `None` when a part is missing or an assertion malformed.
pub open spec fn it_at(cs: Seq<char>, p: int) -> Option<(ItM, int)> {
    let q = wc_end(cs, p);
    if !(0 <= p <= cs.len()) || !occurs_at(cs, "it"@, q) {
        None
    } else {
        match delimited_at(cs, ms_end(cs, q + 2), '"') {
            None => None,
            Some((name, h)) => {
                let (m1, pos1) = mocks_at(cs, wc_end(cs, h), "with"@);
                let (vars, pos2) = lets_at(cs, pos1);
                if !occurs_at(cs, "when"@, pos2) {
                    None
                } else {
                    match when_at(cs, wc_end(cs, pos2 + 4)) {
                        None => None,
                        Some((w, e)) => {
                            let (ws, pos4) = withs_at(cs, wc_end(cs, e), true);
                            let (m2, pos6) = mocks_at(cs, wc_end(cs, pos4), "and"@);
                            match conds_at(cs, wc_end(cs, pos6)) {
                                None => None,
                                Some((conds, end)) => Some((ItM {
                                    name,
                                    mocks: m1 + m2,
                                    when: w,
                                    variables: vars,
                                    input: with_value(ws, "input"@),
                                    body: with_value(ws, "body"@),
                                    headers: with_value(ws, "headers"@),
                                    cookies: with_value(ws, "cookies"@),
                                    conditions: conds,
                                }, end)),
                            }
                        },
                    }
                }
            },
        }
    }
}

proof fn lemma_mocks_at(cs: Seq<char>, p: int, kw: Seq<char>)
    requires
        0 <= p <= cs.len(),
    ensures
        p <= mocks_at(cs, p, kw).1 <= cs.len(),
    decreases cs.len() - p,
{
    match mock_at(cs, p, kw) {
        Some((m, e)) => if p < e <= cs.len() {
            lemma_mocks_at(cs, e, kw);
        },
        None => {},
    }
}

proof fn lemma_lets_at(cs: Seq<char>, p: int)
    requires
        0 <= p <= cs.len(),
    ensures
        p <= lets_at(cs, p).1 <= cs.len(),
    decreases cs.len() - p,
{
    match let_at(cs, p) {
        Some((b, e)) => if p < e <= cs.len() {
            crate::grammar::lemma_wc_end(cs, e);
            lemma_lets_at(cs, wc_end(cs, e));
        },
        None => {},
    }
}

proof fn lemma_withs_at(cs: Seq<char>, p: int, first: bool)
    requires
        0 <= p <= cs.len(),
    ensures
        p <= withs_at(cs, p, first).1 <= cs.len(),
    decreases cs.len() - p,
{
    match (if first { with_at(cs, p) } else { and_with_at(cs, p) }) {
        Some((kv, e)) => if p < e <= cs.len() {
            lemma_withs_at(cs, e, false);
        },
        None => {},
    }
}

proof fn lemma_conds_at(cs: Seq<char>, p: int)
    requires
        0 <= p <= cs.len(),
    ensures
        conds_at(cs, p) matches Some((_, f)) ==> p <= f <= cs.len(),
    decreases cs.len() - p,
{
    match condition_at(cs, p) {
        CondOutcome::Read(c, e) => if p < e <= cs.len() {
            lemma_conds_at(cs, e);
        },
        _ => {},
    }
}

/// Reads `kw mock ...` entries as long as they follow.
fn parse_mocks(cs: &[char], p: usize, kw: &str) -> (r: (Vec<Mock>, usize))
    requires
        p <= cs@.len(),
    ensures
        (r.0@.map_values(|m: Mock| mock_model(m)), r.1 as int) == mocks_at(cs@, p as int, kw@),
        p <= r.1 <= cs@.len(),
{
    let ghost all = mocks_at(cs@, p as int, kw@);
    let mut out: Vec<Mock> = Vec::new();
    let mut pos = p;
    assert(out@.map_values(|m: Mock| mock_model(m)) + mocks_at(cs@, pos as int, kw@).0 =~= all.0);
    loop
        invariant
            p <= pos <= cs@.len(),
            all == mocks_at(cs@, p as int, kw@),
            out@.map_values(|m: Mock| mock_model(m)) + mocks_at(cs@, pos as int, kw@).0 == all.0,
            mocks_at(cs@, pos as int, kw@).1 == all.1,
        decreases cs@.len() - pos,
    {
        match parse_mock_after(cs, pos, kw) {
            Some((m, e)) => {
                let ghost pre = out@.map_values(|m: Mock| mock_model(m));
                let ghost mm = mock_model(m);
                out.push(m);
                proof {
                    assert(out@.map_values(|m: Mock| mock_model(m)) =~= pre.push(mm));
                    assert(pre.push(mm) + mocks_at(cs@, e as int, kw@).0 =~= pre + (seq![mm] + mocks_at(cs@, e as int, kw@).0));
                }
                pos = e;
            },
            None => {
                assert(out@.map_values(|m: Mock| mock_model(m)) + Seq::<(Seq<char>, Seq<char>)>::empty() =~= out@.map_values(|m: Mock| mock_model(m)));
                return (out, pos);
            },
        }
    }
}

/// Reads a test: `it "name"`, its mocks and `let` bindings, `when ...`,
/// its `with` clauses, more mocks, and its assertions.
pub fn parse_it(cs: &[char], p: usize) -> (r: Option<(It, usize)>)
    requires
        p <= cs@.len(),
    ensures
        match r {
            Some((t, e)) => it_at(cs@, p as int) == Some((it_m(t), e as int)) && p < e <= cs@.len(),
            None => it_at(cs@, p as int) is None,
        },
{
    proof {
        reveal_strlit("it");
        reveal_strlit("when");
        reveal_strlit("input");
        reveal_strlit("body");
        reveal_strlit("headers");
        reveal_strlit("cookies");
        reveal_strlit("with");
        reveal_strlit("and");
        crate::grammar::lemma_wc_end(cs@, p as int);
    }
    let q = skip_ws_and_comments(cs, p);
    if !lit_at(cs, q, "it") {
        return None;
    }
    let a = ms_skip(cs, q + 2);
    let (name, h) = match parse_delimited(cs, a, '"') {
        Some(x) => x,
        None => {
            return None;
        },
    };
    let h0 = skip_ws_and_comments(cs, h);
    let (mut mocks, pos1) = parse_mocks(cs, h0, "with");
    let ghost all_lets = lets_at(cs@, pos1 as int);
    let mut variables: Vec<(String, String, LetValueFormat)> = Vec::new();
    let mut pos = pos1;
    assert(variables@.map_values(|b: (String, String, LetValueFormat)| binding_model(b)) + lets_at(cs@, pos as int).0 =~= all_lets.0);
    loop
        invariant
            pos1 <= pos <= cs@.len(),
            all_lets == lets_at(cs@, pos1 as int),
            variables@.map_values(|b: (String, String, LetValueFormat)| binding_model(b)) + lets_at(cs@, pos as int).0 == all_lets.0,
            lets_at(cs@, pos as int).1 == all_lets.1,
        ensures
            pos1 <= pos <= cs@.len(),
            variables@.map_values(|b: (String, String, LetValueFormat)| binding_model(b)) == all_lets.0,
            pos == all_lets.1,
        decreases cs@.len() - pos,
    {
        match parse_let_binding(cs, pos) {
            Some((b, e)) => {
                let ghost pre = variables@.map_values(|b: (String, String, LetValueFormat)| binding_model(b));
                let ghost bm = binding_model(b);
                variables.push(b);
                let n = skip_ws_and_comments(cs, e);
                proof {
                    crate::grammar::lemma_wc_end(cs@, e as int);
                    assert(variables@.map_values(|b: (String, String, LetValueFormat)| binding_model(b)) =~= pre.push(bm));
                    assert(pre.push(bm) + lets_at(cs@, n as int).0 =~= pre + (seq![bm] + lets_at(cs@, n as int).0));
                }
                pos = n;
            },
            None => {
                assert(variables@.map_values(|b: (String, String, LetValueFormat)| binding_model(b)) + Seq::<(Seq<char>, Seq<char>, int)>::empty() =~= variables@.map_values(|b: (String, String, LetValueFormat)| binding_model(b)));
                break;
            },
        }
    }
    if !lit_at(cs, pos, "when") {
        return None;
    }
    let w = skip_ws_and_comments(cs, pos + 4);
    let (when, e) = match parse_when(cs, w) {
        Some(x) => x,
        None => {
            return None;
        },
    };
    let start = skip_ws_and_comments(cs, e);
    let ghost all_ws = withs_at(cs@, start as int, true);
    let ghost mut done: Seq<(Seq<char>, Seq<char>)> = Seq::empty();
    let mut input: Option<String> = None;
    let mut body: Option<String> = None;
    let mut headers: Option<String> = None;
    let mut cookies: Option<String> = None;
    let mut first = true;
    pos = start;
    assert(done + withs_at(cs@, pos as int, first).0 =~= all_ws.0);
    loop
        invariant
            start <= pos <= cs@.len(),
            all_ws == withs_at(cs@, start as int, true),
            done + withs_at(cs@, pos as int, first).0 == all_ws.0,
            withs_at(cs@, pos as int, first).1 == all_ws.1,
            opt_view(input) == with_value(done, "input"@),
            opt_view(body) == with_value(done, "body"@),
            opt_view(headers) == with_value(done, "headers"@),
            opt_view(cookies) == with_value(done, "cookies"@),
            forall|i: int| 0 <= i < done.len() ==> (#[trigger] done[i]).0 == "input"@ || done[i].0 == "body"@
                || done[i].0 == "headers"@ || done[i].0 == "cookies"@,
        ensures
            done == all_ws.0,
            pos == all_ws.1,
            opt_view(input) == with_value(done, "input"@),
            opt_view(body) == with_value(done, "body"@),
            opt_view(headers) == with_value(done, "headers"@),
            opt_view(cookies) == with_value(done, "cookies"@),
            start <= pos <= cs@.len(),
        decreases cs@.len() - pos,
    {
        proof {
            reveal_strlit("input");
            reveal_strlit("body");
            reveal_strlit("headers");
            reveal_strlit("cookies");
            assert("headers"@[0] != "cookies"@[0]);
            assert("input"@.len() == 5 && "body"@.len() == 4 && "headers"@.len() == 7 && "cookies"@.len() == 7);
        }
        let got = if first {
            parse_with_clause(cs, pos)
        } else {
            parse_and_with_clause(cs, pos)
        };
        match got {
            Some(((kind, value), e2)) => {
                let ghost kv = (kind@, value@);
                proof {
                    assert(kind@ == "input"@ || kind@ == "body"@ || kind@ == "headers"@ || kind@ == "cookies"@);
                }
                if str_eq(kind.as_str(), "input") {
                    input = Some(value);
                } else if str_eq(kind.as_str(), "body") {
                    body = Some(value);
                } else if str_eq(kind.as_str(), "headers") {
                    headers = Some(value);
                } else if str_eq(kind.as_str(), "cookies") {
                    cookies = Some(value);
                }
                proof {
                    let pre = done;
                    done = done.push(kv);
                    assert(done.drop_last() =~= pre);
                    assert(pre.push(kv) + withs_at(cs@, e2 as int, false).0 =~= pre + (seq![kv] + withs_at(cs@, e2 as int, false).0));
                }
                pos = e2;
                first = false;
            },
            None => {
                assert(done + Seq::<(Seq<char>, Seq<char>)>::empty() =~= done);
                break;
            },
        }
    }
    let a0 = skip_ws_and_comments(cs, pos);
    let (extra, pos6) = parse_mocks(cs, a0, "and");
    let c0 = skip_ws_and_comments(cs, pos6);
    let ghost all_c = conds_at(cs@, c0 as int);
    let mut conditions: Vec<Condition> = Vec::new();
    pos = c0;
    let mut failed = false;
    proof { lemma_conds_at(cs@, c0 as int); }
    assert(conds_at(cs@, pos as int) matches Some((rest, f)) ==> conditions@.map_values(|c: Condition| cond_model(c)) + rest =~= rest);
    loop
        invariant_except_break
            !failed,
        invariant
            c0 <= pos <= cs@.len(),
            all_c == conds_at(cs@, c0 as int),
            match conds_at(cs@, pos as int) {
                Some((rest, f)) => all_c == Some((conditions@.map_values(|c: Condition| cond_model(c)) + rest, f)),
                None => all_c is None,
            },
        ensures
            c0 <= pos <= cs@.len(),
            failed ==> all_c is None,
            !failed ==> all_c == Some((conditions@.map_values(|c: Condition| cond_model(c)), pos as int)),
        decreases cs@.len() - pos,
    {
        let got = parse_condition(cs, pos);
        match got {
            Parsed::Done(c, e2) => {
                let ghost pre = conditions@.map_values(|c: Condition| cond_model(c));
                let ghost cm = cond_model(c);
                conditions.push(c);
                proof {
                    assert(conditions@.map_values(|c: Condition| cond_model(c)) =~= pre.push(cm));
                    match conds_at(cs@, e2 as int) {
                        Some((rest, f)) => {
                            assert(pre.push(cm) + rest =~= pre + (seq![cm] + rest));
                        },
                        None => {},
                    }
                }
                pos = e2;
            },
            Parsed::Error => {
                assert(conditions@.map_values(|c: Condition| cond_model(c)) + Seq::<CondModel>::empty() =~= conditions@.map_values(|c: Condition| cond_model(c)));
                break;
            },
            Parsed::Failure => {
                failed = true;
                break;
            },
        }
    }
    if failed {
        return None;
    }
    let ghost m1 = mocks@.map_values(|m: Mock| mock_model(m));
    let ghost m2 = extra@.map_values(|m: Mock| mock_model(m));
    let mut k: usize = 0;
    while k < extra.len()
        invariant
            k <= extra@.len(),
            m2 == extra@.map_values(|m: Mock| mock_model(m)),
            mocks@.map_values(|m: Mock| mock_model(m)) == m1 + m2.take(k as int),
        decreases extra@.len() - k,
    {
        let ghost before = mocks@.map_values(|m: Mock| mock_model(m));
        let c = extra[k].clone_mock();
        assert(mock_model(c) == m2[k as int]);
        mocks.push(c);
        assert(mocks@.map_values(|m: Mock| mock_model(m)) =~= before.push(m2[k as int]));
        assert(m2.take(k + 1) =~= m2.take(k as int).push(m2[k as int]));
        k = k + 1;
        assert(mocks@.map_values(|m: Mock| mock_model(m)) =~= m1 + m2.take(k as int));
    }
    assert(m2.take(extra@.len() as int) =~= m2);
    let t = It { name, mocks, when, variables, input, body, headers, cookies, conditions };
    assert(it_m(t).mocks == m1 + m2);
    Some((t, pos))
}

impl Mock {
    /// A copy of the mock.
    pub fn clone_mock(&self) -> (r: Mock)
        ensures
            mock_model(r) == mock_model(*self),
    {
        Mock { target: self.target.clone(), return_value: self.return_value.clone() }
    }
}

/// The model of a `describe` block: name, bindings, mocks, tests.
pub open spec fn describe_m(d: Describe) -> (Seq<char>, Seq<(Seq<char>, Seq<char>, int)>, Seq<(Seq<char>, Seq<char>)>, Seq<ItM>) {
    (
        d.name@,
        d.variables@.map_values(|b: (String, String, LetValueFormat)| binding_model(b)),
        d.mocks@.map_values(|m: Mock| mock_model(m)),
        d.tests@.map_values(|t: It| it_m(t)),
    )
}

/// The items of a `describe` block from `p`: at each point, after
/// whitespace and comments, a `let` binding, a mock (`with mock` or
/// `and mock`) or a test; the position after the last one.
pub open spec fn items_at(cs: Seq<char>, p: int) -> (Seq<(Seq<char>, Seq<char>, int)>, Seq<(Seq<char>, Seq<char>)>, Seq<ItM>, int)
    decreases cs.len() - p,
{
    let s = wc_end(cs, p);
    if p < 0 || p > cs.len() {
        (Seq::empty(), Seq::empty(), Seq::empty(), p)
    } else {
        proof { crate::grammar::lemma_wc_end(cs, p); }
        match let_at(cs, s) {
            Some((b, e)) => if p < e <= cs.len() {
                let (v, m, t, f) = items_at(cs, e);
                (seq![b] + v, m, t, f)
            } else {
                (Seq::empty(), Seq::empty(), Seq::empty(), p)
            },
            None => match mock_at(cs, s, "with"@) {
                Some((mk, e)) => if p < e <= cs.len() {
                    let (v, m, t, f) = items_at(cs, e);
                    (v, seq![mk] + m, t, f)
                } else {
                    (Seq::empty(), Seq::empty(), Seq::empty(), p)
                },
                None => match mock_at(cs, s, "and"@) {
                    Some((mk, e)) => if p < e <= cs.len() {
                        let (v, m, t, f) = items_at(cs, e);
                        (v, seq![mk] + m, t, f)
                    } else {
                        (Seq::empty(), Seq::empty(), Seq::empty(), p)
                    },
                    None => match it_at(cs, s) {
                        Some((it, e)) => if p < e <= cs.len() {
                            let (v, m, t, f) = items_at(cs, e);
                            (v, m, seq![it] + t, f)
                        } else {
                            (Seq::empty(), Seq::empty(), Seq::empty(), p)
                        },
                        None => (Seq::empty(), Seq::empty(), Seq::empty(), p),
                    },
                },
            },
        }
    }
}

/// A `describe "name"` block at `p` and its items.
pub open spec fn describe_at(cs: Seq<char>, p: int) -> Option<((Seq<char>, Seq<(Seq<char>, Seq<char>, int)>, Seq<(Seq<char>, Seq<char>)>, Seq<ItM>), int)> {
    let q = wc_end(cs, p);
    if !(0 <= p <= cs.len()) || !occurs_at(cs, "describe"@, q) {
        None
    } else {
        match delimited_at(cs, ms_end(cs, q + 8), '"') {
            None => None,
            Some((name, h)) => {
                let (v, m, t, f) = items_at(cs, wc_end(cs, h));
                Some(((name, v, m, t), f))
            },
        }
    }
}

/// Reads a `describe "name"` block: `let` bindings, mocks and tests in any
/// order, up to the first thing that is none of them.
#[verifier::rlimit(60)]
pub fn parse_describe(cs: &[char], p: usize) -> (r: Option<(Describe, usize)>)
    requires
        p <= cs@.len(),
    ensures
        match r {
            Some((d, e)) => describe_at(cs@, p as int) == Some((describe_m(d), e as int)) && p < e <= cs@.len(),
            None => describe_at(cs@, p as int) is None,
        },
{
    proof {
        reveal_strlit("describe");
        reveal_strlit("with");
        reveal_strlit("and");
        crate::grammar::lemma_wc_end(cs@, p as int);
    }
    let q = skip_ws_and_comments(cs, p);
    if !lit_at(cs, q, "describe") {
        return None;
    }
    let a = ms_skip(cs, q + 8);
    let (name, h) = match parse_delimited(cs, a, '"') {
        Some(x) => x,
        None => {
            return None;
        },
    };
    let start = skip_ws_and_comments(cs, h);
    let ghost all = items_at(cs@, start as int);
    let mut pos = start;
    let mut variables: Vec<(String, String, LetValueFormat)> = Vec::new();
    let mut mocks: Vec<Mock> = Vec::new();
    let mut tests: Vec<It> = Vec::new();
    proof { crate::grammar::lemma_wc_end(cs@, h as int); }
    assert(variables@.map_values(|b: (String, String, LetValueFormat)| binding_model(b)) + items_at(cs@, pos as int).0 =~= all.0);
    assert(mocks@.map_values(|m: Mock| mock_model(m)) + items_at(cs@, pos as int).1 =~= all.1);
    assert(tests@.map_values(|t: It| it_m(t)) + items_at(cs@, pos as int).2 =~= all.2);
    loop
        invariant
            start <= pos <= cs@.len(),
            all == items_at(cs@, start as int),
            variables@.map_values(|b: (String, String, LetValueFormat)| binding_model(b)) + items_at(cs@, pos as int).0 == all.0,
            mocks@.map_values(|m: Mock| mock_model(m)) + items_at(cs@, pos as int).1 == all.1,
            tests@.map_values(|t: It| it_m(t)) + items_at(cs@, pos as int).2 == all.2,
            items_at(cs@, pos as int).3 == all.3,
        ensures
            start <= pos <= cs@.len(),
            variables@.map_values(|b: (String, String, LetValueFormat)| binding_model(b)) == all.0,
            mocks@.map_values(|m: Mock| mock_model(m)) == all.1,
            tests@.map_values(|t: It| it_m(t)) == all.2,
            pos == all.3,
        decreases cs@.len() - pos,
    {
        let s = skip_ws_and_comments(cs, pos);
        proof { crate::grammar::lemma_wc_end(cs@, pos as int); }
        let ghost vs = variables@.map_values(|b: (String, String, LetValueFormat)| binding_model(b));
        let ghost ms = mocks@.map_values(|m: Mock| mock_model(m));
        let ghost ts = tests@.map_values(|t: It| it_m(t));
        match parse_let_binding(cs, s) {
            Some((b, e)) => {
                let ghost bm = binding_model(b);
                variables.push(b);
                proof {
                    assert(variables@.map_values(|b: (String, String, LetValueFormat)| binding_model(b)) =~= vs.push(bm));
                    assert(vs.push(bm) + items_at(cs@, e as int).0 =~= vs + (seq![bm] + items_at(cs@, e as int).0));
                }
                pos = e;
                continue;
            },
            None => {},
        }
        match parse_mock(cs, s) {
            Some((m, e)) => {
                let ghost mm = mock_model(m);
                mocks.push(m);
                proof {
                    assert(mocks@.map_values(|m: Mock| mock_model(m)) =~= ms.push(mm));
                    assert(ms.push(mm) + items_at(cs@, e as int).1 =~= ms + (seq![mm] + items_at(cs@, e as int).1));
                }
                pos = e;
                continue;
            },
            None => {},
        }
        match parse_and_mock(cs, s) {
            Some((m, e)) => {
                let ghost mm = mock_model(m);
                mocks.push(m);
                proof {
                    assert(mocks@.map_values(|m: Mock| mock_model(m)) =~= ms.push(mm));
                    assert(ms.push(mm) + items_at(cs@, e as int).1 =~= ms + (seq![mm] + items_at(cs@, e as int).1));
                }
                pos = e;
                continue;
            },
            None => {},
        }
        match parse_it(cs, s) {
            Some((t, e)) => {
                let ghost tm = it_m(t);
                tests.push(t);
                proof {
                    assert(tests@.map_values(|t: It| it_m(t)) =~= ts.push(tm));
                    assert(ts.push(tm) + items_at(cs@, e as int).2 =~= ts + (seq![tm] + items_at(cs@, e as int).2));
                }
                pos = e;
                continue;
            },
            None => {},
        }
        assert(vs + Seq::<(Seq<char>, Seq<char>, int)>::empty() =~= vs);
        assert(ms + Seq::<(Seq<char>, Seq<char>)>::empty() =~= ms);
        assert(ts + Seq::<ItM>::empty() =~= ts);
        break;
    }
    let d = Describe { name, variables, mocks, tests };
    Some((d, pos))
}
} // verus!
