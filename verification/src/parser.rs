//! The `.wp` parser: the text of a program read into its syntax tree.
//!
//! The grammar is recursive descent over characters. Every parser takes the
//! text and a position and answers with a [`Parsed`]: the value and the
//! position after it, a plain failure (the caller may try something else),
//! or a hard failure that callers pass on without trying alternatives.

use vstd::prelude::*;
use crate::ast::{Program, Config, ConfigProperty, ConfigValue, NamedPipeline, Variable, Route, PipelineRef,
    Pipeline, ConfigType, LetValueFormat, Tag, TagExpr, PipelineStep, DispatchBranch, ResultBranch, ResultBranchType,
    Describe, Mock, It, When, Condition, ConditionType, DomAssertType, SourceLocation, Import, GraphQLSchema,
    QueryResolver, MutationResolver, TypeResolver};
use crate::schema::{ident_continue, ident_end, digits_end, lemma_digits_end};
use crate::grammar::{StepM, BranchM, CaseM, Reading, step_m, steps_m, branches_m, cases_m, kind_m, kind_of_name,
    step_reading, branch_reading, case_reading, pipeline_at, step_at, result_at, branches_at, branch_at, if_at,
    after_end, else_part, cases_at, case_at, default_part, dispatch_at, foreach_at, step_head, lemma_wc_end,
    property_at, properties_at, config_m, config_at, named_block_at, type_resolver_at, feature_flags_at, schema_at,
    import_at, variable_at, route_at, route_steps};
use crate::text::digits_value;
use crate::text::{occurs_at, char_index, is_alnum, is_digit, is_ws, trim, chars_of, string_of, slice_chars,
    scan_to_char, starts_with_at, trim_chars, char_is_ws, append, seq_eq};

verus! {

broadcast use vstd::std_specs::vec::group_vec_axioms;

/// The outcome of a parser.
pub enum Parsed<T> {
    /// The value read and the position after it.
    Done(T, usize),
    /// Nothing matched here; an enclosing choice may try another parser.
    Error,
    /// The text matched a construct but is malformed; enclosing choices
    /// stop trying alternatives.
    Failure,
}

impl<T> Parsed<T> {
    /// The parse did not move backwards nor past the end of `cs`.
    pub open spec fn bounded(&self, cs: Seq<char>, p: int) -> bool {
        match self {
            Parsed::Done(_, e) => p <= *e <= cs.len(),
            _ => true,
        }
    }
}

/// A space, tab, line feed or carriage return (what `multispace0` skips).
pub open spec fn is_ms(c: char) -> bool {
    c == ' ' || c == '\t' || c == '\n' || c == '\r'
}

/// The first position at or after `p` that is not a space, tab or line break.
pub open spec fn ms_end(cs: Seq<char>, p: int) -> int
    decreases cs.len() - p,
{
    if 0 <= p < cs.len() && is_ms(cs[p]) {
        ms_end(cs, p + 1)
    } else {
        p
    }
}

/// The first position at or after `p` that is neither whitespace nor part
/// of a `#` comment (which runs to the end of its line).
pub open spec fn wc_end(cs: Seq<char>, p: int) -> int
    decreases cs.len() - p,
{
    let q = ms_end(cs, p);
    if p < 0 || p > cs.len() {
        p
    } else if q < cs.len() && q >= p && cs[q] == '#' {
        match char_index(cs.skip(q), '\n') {
            Some(k) => if k >= 0 {
                proof {
                    lemma_ms_end(cs, p);
                    crate::text::lemma_char_index(cs.skip(q), '\n');
                }
                wc_end(cs, q + k + 1)
            } else {
                q
            },
            None => cs.len() as int,
        }
    } else {
        q
    }
}

/// An identifier starts with an ASCII letter, digit or `_`.
pub open spec fn wp_ident_start(c: char) -> bool {
    is_alnum(c) || c == '_'
}

/// The identifier at `p`, and the position after it.
pub open spec fn ident_at(cs: Seq<char>, p: int) -> Option<(Seq<char>, int)> {
    if 0 <= p < cs.len() && wp_ident_start(cs[p]) {
        Some((cs.subrange(p, ident_end(cs, p + 1)), ident_end(cs, p + 1)))
    } else {
        None
    }
}

/// The text between the delimiter `d` at `p` and the next `d`, and the
/// position after the closing one.
pub open spec fn delimited_at(cs: Seq<char>, p: int, d: char) -> Option<(Seq<char>, int)> {
    if 0 <= p < cs.len() && cs[p] == d {
        match char_index(cs.skip(p + 1), d) {
            Some(k) => if k >= 0 {
                Some((cs.subrange(p + 1, p + 1 + k), p + 1 + k + 1))
            } else {
                None
            },
            None => None,
        }
    } else {
        None
    }
}

/// `ms_end` stays within `[p, len]` and stops at a non-space.
pub proof fn lemma_ms_end(cs: Seq<char>, p: int)
    requires
        0 <= p <= cs.len(),
    ensures
        p <= ms_end(cs, p) <= cs.len(),
        ms_end(cs, p) < cs.len() ==> !is_ms(cs[ms_end(cs, p)]),
    decreases cs.len() - p,
{
    if 0 <= p < cs.len() && is_ms(cs[p]) {
        lemma_ms_end(cs, p + 1);
    }
}

/// `ident_end` stays within `[p, len]`.
pub proof fn lemma_ident_end(cs: Seq<char>, p: int)
    requires
        0 <= p <= cs.len(),
    ensures
        p <= ident_end(cs, p) <= cs.len(),
    decreases cs.len() - p,
{
    if 0 <= p < cs.len() && ident_continue(cs[p]) {
        lemma_ident_end(cs, p + 1);
    }
}

/// Skips spaces, tabs and line breaks.
pub fn ms_skip(cs: &[char], p: usize) -> (r: usize)
    requires
        p <= cs@.len(),
    ensures
        r == ms_end(cs@, p as int),
        p <= r <= cs@.len(),
{
    let mut i = p;
    while i < cs.len() && (cs[i] == ' ' || cs[i] == '\t' || cs[i] == '\n' || cs[i] == '\r')
        invariant
            p <= i <= cs@.len(),
            ms_end(cs@, p as int) == ms_end(cs@, i as int),
        decreases cs@.len() - i,
    {
        i = i + 1;
    }
    i
}

/// Skips whitespace and `#` comments.
pub fn skip_ws_and_comments(cs: &[char], p: usize) -> (r: usize)
    requires
        p <= cs@.len(),
    ensures
        r == wc_end(cs@, p as int),
        p <= r <= cs@.len(),
{
    let mut i = p;
    loop
        invariant
            p <= i <= cs@.len(),
            wc_end(cs@, p as int) == wc_end(cs@, i as int),
        decreases cs@.len() - i,
    {
        let q = ms_skip(cs, i);
        if q < cs.len() && cs[q] == '#' {
            let nl = scan_to_char(cs, '\n', q);
            if nl < cs.len() {
                i = nl + 1;
            } else {
                return cs.len();
            }
        } else {
            return q;
        }
    }
}

/// Whether the literal `lit` occurs at `p`.
pub fn lit_at(cs: &[char], p: usize, lit: &str) -> (b: bool)
    requires
        p <= cs@.len(),
    ensures
        b == occurs_at(cs@, lit@, p as int),
        cs@.len() <= usize::MAX,
{
    let _n = cs.len();
    let l = chars_of(lit);
    starts_with_at(cs, p, l.as_slice())
}

/// Reads an identifier: an ASCII letter, digit or `_`, then letters,
/// digits, `_` and `-`.
pub fn parse_identifier(cs: &[char], p: usize) -> (r: Option<(String, usize)>)
    requires
        p <= cs@.len(),
    ensures
        match r {
            Some((s, e)) => ident_at(cs@, p as int) == Some((s@, e as int)),
            None => ident_at(cs@, p as int) is None,
        },
        match r {
            Some((_, e)) => p < e <= cs@.len(),
            None => true,
        },
{
    if p < cs.len() && (('a' <= cs[p] && cs[p] <= 'z') || ('A' <= cs[p] && cs[p] <= 'Z') || ('0' <= cs[p] && cs[p] <= '9') || cs[p] == '_') {
        let mut e = p + 1;
        proof { lemma_ident_end(cs@, p + 1); }
        while e < cs.len() && crate::schema::is_ident_continue(cs[e])
            invariant
                p < e <= cs@.len(),
                ident_end(cs@, p + 1) == ident_end(cs@, e as int),
            decreases cs@.len() - e,
        {
            e = e + 1;
        }
        let s = slice_chars(cs, p, e);
        Some((string_of(s.as_slice()), e))
    } else {
        None
    }
}

/// Reads text between two `d` delimiters.
pub fn parse_delimited(cs: &[char], p: usize, d: char) -> (r: Option<(String, usize)>)
    requires
        p <= cs@.len(),
    ensures
        match r {
            Some((s, e)) => delimited_at(cs@, p as int, d) == Some((s@, e as int)),
            None => delimited_at(cs@, p as int, d) is None,
        },
        match r {
            Some((_, e)) => p < e <= cs@.len(),
            None => true,
        },
{
    if p < cs.len() && cs[p] == d {
        let q = scan_to_char(cs, d, p + 1);
        if q < cs.len() {
            let s = slice_chars(cs, p + 1, q);
            Some((string_of(s.as_slice()), q + 1))
        } else {
            None
        }
    } else {
        None
    }
}

/// A bare configuration: an identifier, or `ns::name`.
pub open spec fn scoped_at(cs: Seq<char>, p: int) -> Option<(Seq<char>, int)> {
    match ident_at(cs, p) {
        None => None,
        Some((a, e)) => if occurs_at(cs, "::"@, e) && ident_at(cs, e + 2) is Some {
            let (b, f) = ident_at(cs, e + 2)->0;
            Some((a + "::"@ + b, f))
        } else {
            Some((a, e))
        },
    }
}

/// The view of a configuration kind: 0 for backticks, 1 for quotes, 2 for
/// a bare identifier.
pub open spec fn config_kind(t: ConfigType) -> int {
    match t {
        ConfigType::Backtick => 0,
        ConfigType::Quoted => 1,
        ConfigType::Identifier => 2,
    }
}

/// A step configuration at `p`: backtick text, quoted text, or a bare
/// (possibly scoped) identifier; with its kind and the position after it.
pub open spec fn step_config_at(cs: Seq<char>, p: int) -> Option<(Seq<char>, int, int)> {
    match delimited_at(cs, p, '`') {
        Some((s, e)) => Some((s, 0, e)),
        None => match delimited_at(cs, p, '"') {
            Some((s, e)) => Some((s, 1, e)),
            None => match scoped_at(cs, p) {
                Some((s, e)) => Some((s, 2, e)),
                None => None,
            },
        },
    }
}

/// Reads a bare configuration: an identifier, or `ns::name`.
pub fn parse_scoped_identifier_string(cs: &[char], p: usize) -> (r: Option<(String, usize)>)
    requires
        p <= cs@.len(),
    ensures
        match r {
            Some((s, e)) => scoped_at(cs@, p as int) == Some((s@, e as int)) && p < e <= cs@.len(),
            None => scoped_at(cs@, p as int) is None,
        },
{
    let (a, e) = match parse_identifier(cs, p) {
        Some(x) => x,
        None => {
            return None;
        },
    };
    if lit_at(cs, e, "::") {
        proof { reveal_strlit("::"); }
        match parse_identifier(cs, e + 2) {
            Some((b, f)) => {
                let mut v: Vec<char> = chars_of(a.as_str());
                crate::text::append_str(&mut v, "::");
                crate::text::append_str(&mut v, b.as_str());
                return Some((string_of(v.as_slice()), f));
            },
            None => {},
        }
    }
    Some((a, e))
}

/// Reads a step configuration.
pub fn parse_step_config(cs: &[char], p: usize) -> (r: Option<(String, ConfigType, usize)>)
    requires
        p <= cs@.len(),
    ensures
        match r {
            Some((s, t, e)) => step_config_at(cs@, p as int) == Some((s@, config_kind(t), e as int)) && p < e <= cs@.len(),
            None => step_config_at(cs@, p as int) is None,
        },
{
    match parse_delimited(cs, p, '`') {
        Some((s, e)) => {
            return Some((s, ConfigType::Backtick, e));
        },
        None => {},
    }
    match parse_delimited(cs, p, '"') {
        Some((s, e)) => {
            return Some((s, ConfigType::Quoted, e));
        },
        None => {},
    }
    match parse_scoped_identifier_string(cs, p) {
        Some((s, e)) => Some((s, ConfigType::Identifier, e)),
        None => None,
    }
}

/// The HTTP method at `p` (`GET`, `POST`, `PUT` or `DELETE`).
pub open spec fn method_at(cs: Seq<char>, p: int) -> Option<(Seq<char>, int)> {
    if occurs_at(cs, "GET"@, p) {
        Some(("GET"@, p + 3))
    } else if occurs_at(cs, "POST"@, p) {
        Some(("POST"@, p + 4))
    } else if occurs_at(cs, "PUT"@, p) {
        Some(("PUT"@, p + 3))
    } else if occurs_at(cs, "DELETE"@, p) {
        Some(("DELETE"@, p + 6))
    } else {
        None
    }
}

/// Reads an HTTP method.
pub fn parse_method(cs: &[char], p: usize) -> (r: Option<(String, usize)>)
    requires
        p <= cs@.len(),
    ensures
        match r {
            Some((s, e)) => method_at(cs@, p as int) == Some((s@, e as int)) && p < e <= cs@.len(),
            None => method_at(cs@, p as int) is None,
        },
{
    proof {
        reveal_strlit("GET");
        reveal_strlit("POST");
        reveal_strlit("PUT");
        reveal_strlit("DELETE");
    }
    if lit_at(cs, p, "GET") {
        Some((string_of(chars_of("GET").as_slice()), p + 3))
    } else if lit_at(cs, p, "POST") {
        Some((string_of(chars_of("POST").as_slice()), p + 4))
    } else if lit_at(cs, p, "PUT") {
        Some((string_of(chars_of("PUT").as_slice()), p + 3))
    } else if lit_at(cs, p, "DELETE") {
        Some((string_of(chars_of("DELETE").as_slice()), p + 6))
    } else {
        None
    }
}

/// The model of a config value.
pub enum ValueModel {
    Str(Seq<char>),
    Env(Seq<char>, Option<Seq<char>>),
    Bool(bool),
    Num(int),
}

/// The model of a config value.
pub open spec fn value_model(v: ConfigValue) -> ValueModel {
    match v {
        ConfigValue::String(s) => ValueModel::Str(s@),
        ConfigValue::EnvVar { var, default } => ValueModel::Env(var@, match default {
            Some(d) => Some(d@),
            None => None,
        }),
        ConfigValue::Boolean(b) => ValueModel::Bool(b),
        ConfigValue::Number(n) => ValueModel::Num(n as int),
    }
}

/// The `i64` a run of decimal digits reads as (`None` when out of range).
pub open spec fn digits_i64(s: Seq<char>) -> Option<int> {
    if s.len() > 0 && crate::text::all_digits(s) && crate::text::digits_value(s) <= i64::MAX {
        Some(crate::text::digits_value(s) as int)
    } else {
        None
    }
}

/// A config value at `p`: `$VAR || "default"`, `$VAR`, a quoted string,
/// `true`/`false`, or a number.
pub open spec fn config_value_at(cs: Seq<char>, p: int) -> Option<(ValueModel, int)> {
    if 0 <= p < cs.len() && cs[p] == '$' {
        match ident_at(cs, p + 1) {
            None => None,
            Some((var, e)) => {
                let a = ms_end(cs, e);
                if occurs_at(cs, "||"@, a) && delimited_at(cs, ms_end(cs, a + 2), '"') is Some {
                    let (d, f) = delimited_at(cs, ms_end(cs, a + 2), '"')->0;
                    Some((ValueModel::Env(var, Some(d)), f))
                } else {
                    Some((ValueModel::Env(var, None), e))
                }
            },
        }
    } else {
        match delimited_at(cs, p, '"') {
            Some((s, e)) => Some((ValueModel::Str(s), e)),
            None => if occurs_at(cs, "true"@, p) {
                Some((ValueModel::Bool(true), p + 4))
            } else if occurs_at(cs, "false"@, p) {
                Some((ValueModel::Bool(false), p + 5))
            } else if 0 <= p < cs.len() && is_digit(cs[p]) {
                match digits_i64(cs.subrange(p, crate::schema::digits_end(cs, p))) {
                    Some(n) => Some((ValueModel::Num(n), crate::schema::digits_end(cs, p))),
                    None => None,
                }
            } else {
                None
            },
        }
    }
}

/// Reads a run of digits as an `i64`.
fn digits_to_i64(d: &[char]) -> (r: Option<i64>)
    ensures
        match r {
            Some(n) => digits_i64(d@) == Some(n as int),
            None => digits_i64(d@) is None,
        },
{
    if d.len() == 0 || d[0] == '+' {
        proof {
            if d@.len() > 0 {
                assert(!crate::text::is_digit(d@[0]));
            }
        }
        return None;
    }
    match crate::text::parse_u64(d) {
        Some(n) => {
            assert(crate::text::strip_plus(d@) == d@);
            if n <= 9223372036854775807u64 {
                Some(n as i64)
            } else {
                None
            }
        },
        None => {
            assert(crate::text::strip_plus(d@) == d@);
            None
        },
    }
}

/// Reads a config value.
pub fn parse_config_value(cs: &[char], p: usize) -> (r: Option<(ConfigValue, usize)>)
    requires
        p <= cs@.len(),
    ensures
        match r {
            Some((v, e)) => config_value_at(cs@, p as int) == Some((value_model(v), e as int)) && p < e <= cs@.len(),
            None => config_value_at(cs@, p as int) is None,
        },
{
    proof {
        reveal_strlit("||");
        reveal_strlit("true");
        reveal_strlit("false");
    }
    if p < cs.len() && cs[p] == '$' {
        let (var, e) = match parse_identifier(cs, p + 1) {
            Some(x) => x,
            None => {
                return None;
            },
        };
        let a = ms_skip(cs, e);
        if lit_at(cs, a, "||") {
            let b = ms_skip(cs, a + 2);
            match parse_delimited(cs, b, '"') {
                Some((d, f)) => {
                    return Some((ConfigValue::EnvVar { var, default: Some(d) }, f));
                },
                None => {},
            }
        }
        return Some((ConfigValue::EnvVar { var, default: None }, e));
    }
    match parse_delimited(cs, p, '"') {
        Some((s, e)) => {
            return Some((ConfigValue::String(s), e));
        },
        None => {},
    }
    if lit_at(cs, p, "true") {
        return Some((ConfigValue::Boolean(true), p + 4));
    }
    if lit_at(cs, p, "false") {
        return Some((ConfigValue::Boolean(false), p + 5));
    }
    if p < cs.len() && '0' <= cs[p] && cs[p] <= '9' {
        let mut e = p;
        proof { crate::schema::lemma_digits_end(cs@, p as int); }
        while e < cs.len() && '0' <= cs[e] && cs[e] <= '9'
            invariant
                p <= e <= cs@.len(),
                crate::schema::digits_end(cs@, p as int) == crate::schema::digits_end(cs@, e as int),
            decreases cs@.len() - e,
        {
            e = e + 1;
        }
        let d = slice_chars(cs, p, e);
        match digits_to_i64(d.as_slice()) {
            Some(n) => Some((ConfigValue::Number(n), e)),
            None => None,
        }
    } else {
        None
    }
}

/// The model of a tag: name, negation and arguments.
pub open spec fn tag_model(t: Tag) -> (Seq<char>, bool, Seq<Seq<char>>) {
    (t.name@, t.negated, t.args@.map_values(|a: String| a@))
}

/// The model of a tag expression.
pub enum ExprModel {
    T(Seq<char>, bool, Seq<Seq<char>>),
    And(Box<ExprModel>, Box<ExprModel>),
    Or(Box<ExprModel>, Box<ExprModel>),
}

/// The model of a tag expression.
pub open spec fn expr_model(e: TagExpr) -> ExprModel
    decreases e,
{
    match e {
        TagExpr::Tag(t) => ExprModel::T(t.name@, t.negated, t.args@.map_values(|a: String| a@)),
        TagExpr::And(l, r) => ExprModel::And(Box::new(expr_model(*l)), Box::new(expr_model(*r))),
        TagExpr::Or(l, r) => ExprModel::Or(Box::new(expr_model(*l)), Box::new(expr_model(*r))),
    }
}

/// The character at `p`, if any.
pub open spec fn char_at(cs: Seq<char>, p: int) -> Option<char> {
    if 0 <= p < cs.len() {
        Some(cs[p])
    } else {
        None
    }
}

/// A tag argument: backtick text or an identifier.
pub open spec fn arg_at(cs: Seq<char>, p: int) -> Option<(Seq<char>, int)> {
    match delimited_at(cs, p, '`') {
        Some(x) => Some(x),
        None => ident_at(cs, p),
    }
}

/// The arguments after the first: each `,`, spaces, argument.
pub open spec fn args_rest(cs: Seq<char>, p: int) -> (Seq<Seq<char>>, int)
    decreases cs.len() - p,
{
    if char_at(cs, p) == Some(',') {
        match arg_at(cs, ms_end(cs, p + 1)) {
            Some((a, e)) => if p < e <= cs.len() {
                let (m, f) = args_rest(cs, e);
                (seq![a] + m, f)
            } else {
                (Seq::empty(), p)
            },
            None => (Seq::empty(), p),
        }
    } else {
        (Seq::empty(), p)
    }
}

/// A tag's argument list `(a, b, ...)`.
pub open spec fn tag_args_at(cs: Seq<char>, p: int) -> Option<(Seq<Seq<char>>, int)> {
    if char_at(cs, p) == Some('(') {
        match arg_at(cs, ms_end(cs, p + 1)) {
            Some((a, e)) => {
                let (m, f) = args_rest(cs, e);
                if char_at(cs, f) == Some(')') {
                    Some((seq![a] + m, f + 1))
                } else {
                    None
                }
            },
            None => None,
        }
    } else {
        None
    }
}

/// A tag `@name`, `@!name`, optionally with arguments.
pub open spec fn tag_at(cs: Seq<char>, p: int) -> Option<((Seq<char>, bool, Seq<Seq<char>>), int)> {
    if char_at(cs, p) == Some('@') {
        let neg = char_at(cs, p + 1) == Some('!');
        let q = if neg { p + 2 } else { p + 1 };
        match ident_at(cs, q) {
            Some((n, e)) => match tag_args_at(cs, e) {
                Some((a, f)) => Some(((n, neg, a), f)),
                None => Some(((n, neg, Seq::empty()), e)),
            },
            None => None,
        }
    } else {
        None
    }
}

/// Reads a tag argument.
fn parse_tag_argument(cs: &[char], p: usize) -> (r: Option<(String, usize)>)
    requires
        p <= cs@.len(),
    ensures
        match r {
            Some((s, e)) => arg_at(cs@, p as int) == Some((s@, e as int)) && p < e <= cs@.len(),
            None => arg_at(cs@, p as int) is None,
        },
{
    match parse_delimited(cs, p, '`') {
        Some(x) => Some(x),
        None => parse_identifier(cs, p),
    }
}

/// Reads a tag's argument list.
pub fn parse_tag_args(cs: &[char], p: usize) -> (r: Option<(Vec<String>, usize)>)
    requires
        p <= cs@.len(),
    ensures
        match r {
            Some((a, e)) => tag_args_at(cs@, p as int) == Some((a@.map_values(|x: String| x@), e as int)) && p < e <= cs@.len(),
            None => tag_args_at(cs@, p as int) is None,
        },
{
    if !(p < cs.len() && cs[p] == '(') {
        return None;
    }
    let q = ms_skip(cs, p + 1);
    let (first, e) = match parse_tag_argument(cs, q) {
        Some(x) => x,
        None => {
            return None;
        },
    };
    let mut args: Vec<String> = Vec::new();
    args.push(first);
    let mut pos = e;
    let ghost a0 = args@.map_values(|x: String| x@);
    loop
        invariant
            p < e <= pos <= cs@.len(),
            args@.len() >= 1,
            args_rest(cs@, e as int) == {
                let (m, f) = args_rest(cs@, pos as int);
                (args@.map_values(|x: String| x@).skip(1) + m, f)
            },
            args@.map_values(|x: String| x@)[0] == a0[0],
            a0.len() == 1,
        ensures
            p < e <= pos <= cs@.len(),
            args@.len() >= 1,
            args_rest(cs@, e as int) == {
                let (m, f) = args_rest(cs@, pos as int);
                (args@.map_values(|x: String| x@).skip(1) + m, f)
            },
            args@.map_values(|x: String| x@)[0] == a0[0],
            args_rest(cs@, pos as int) == (Seq::<Seq<char>>::empty(), pos as int),
        decreases cs@.len() - pos,
    {
        if !(pos < cs.len() && cs[pos] == ',') {
            break;
        }
        let r = ms_skip(cs, pos + 1);
        match parse_tag_argument(cs, r) {
            Some((a, f)) => {
                let ghost before = args@.map_values(|x: String| x@);
                args.push(a);
                proof {
                    let (m, g) = args_rest(cs@, f as int);
                    assert(args_rest(cs@, pos as int) == (seq![a@] + m, g));
                    assert(before.skip(1) + (seq![a@] + m) =~= args@.map_values(|x: String| x@).skip(1) + m);
                }
                pos = f;
            },
            None => {
                break;
            },
        }
    }
    proof {
        assert(args@.map_values(|x: String| x@).skip(1) + Seq::<Seq<char>>::empty() =~= args@.map_values(|x: String| x@).skip(1));
        assert(seq![a0[0]] + args@.map_values(|x: String| x@).skip(1) =~= args@.map_values(|x: String| x@));
    }
    if pos < cs.len() && cs[pos] == ')' {
        Some((args, pos + 1))
    } else {
        None
    }
}

/// Reads a tag.
pub fn parse_tag(cs: &[char], p: usize) -> (r: Option<(Tag, usize)>)
    requires
        p <= cs@.len(),
    ensures
        match r {
            Some((t, e)) => tag_at(cs@, p as int) == Some((tag_model(t), e as int)) && p < e <= cs@.len(),
            None => tag_at(cs@, p as int) is None,
        },
{
    if !(p < cs.len() && cs[p] == '@') {
        return None;
    }
    let neg = p + 1 < cs.len() && cs[p + 1] == '!';
    let q = if neg { p + 2 } else { p + 1 };
    let (name, e) = match parse_identifier(cs, q) {
        Some(x) => x,
        None => {
            return None;
        },
    };
    match parse_tag_args(cs, e) {
        Some((args, f)) => Some((Tag { name, negated: neg, args }, f)),
        None => {
            let t = Tag { name, negated: neg, args: Vec::new() };
            assert(t.args@.map_values(|a: String| a@) =~= Seq::<Seq<char>>::empty());
            Some((t, e))
        },
    }
}

/// A primary tag expression: `( expr )` or a tag.
pub open spec fn primary_at(cs: Seq<char>, p: int) -> Option<(ExprModel, int)>
    decreases cs.len() - p, 0int,
{
    if char_at(cs, p) == Some('(') {
        let q = ms_end(cs, p + 1);
        if p < q <= cs.len() {
            match or_at(cs, q) {
                Some((x, f)) => if char_at(cs, ms_end(cs, f)) == Some(')') {
                    Some((x, ms_end(cs, f) + 1))
                } else {
                    None
                },
                None => None,
            }
        } else {
            None
        }
    } else {
        match tag_at(cs, p) {
            Some((t, e)) => Some((ExprModel::T(t.0, t.1, t.2), e)),
            None => None,
        }
    }
}

/// Further `and` operands after `acc`, folded to the left.
pub open spec fn and_rest(cs: Seq<char>, acc: ExprModel, e: int) -> (ExprModel, int)
    decreases cs.len() - e, 1int,
{
    let q = ms_end(cs, e);
    if 0 <= e <= cs.len() && occurs_at(cs, "and"@, q) {
        let r = ms_end(cs, q + 3);
        if e < r <= cs.len() {
            match primary_at(cs, r) {
                Some((y, f)) => if e < f <= cs.len() {
                    and_rest(cs, ExprModel::And(Box::new(acc), Box::new(y)), f)
                } else {
                    (acc, e)
                },
                None => (acc, e),
            }
        } else {
            (acc, e)
        }
    } else {
        (acc, e)
    }
}

/// Operands joined by `and`.
pub open spec fn and_at(cs: Seq<char>, p: int) -> Option<(ExprModel, int)>
    decreases cs.len() - p, 2int,
{
    match primary_at(cs, p) {
        Some((x, e)) => if p < e <= cs.len() {
            Some(and_rest(cs, x, e))
        } else {
            Some((x, e))
        },
        None => None,
    }
}

/// Further `or` operands after `acc`, folded to the left.
pub open spec fn or_rest(cs: Seq<char>, acc: ExprModel, e: int) -> (ExprModel, int)
    decreases cs.len() - e, 2int,
{
    let q = ms_end(cs, e);
    if 0 <= e <= cs.len() && occurs_at(cs, "or"@, q) {
        let r = ms_end(cs, q + 2);
        if e < r <= cs.len() {
            match and_at(cs, r) {
                Some((y, f)) => if e < f <= cs.len() {
                    or_rest(cs, ExprModel::Or(Box::new(acc), Box::new(y)), f)
                } else {
                    (acc, e)
                },
                None => (acc, e),
            }
        } else {
            (acc, e)
        }
    } else {
        (acc, e)
    }
}

/// A tag expression: `and` binds tighter than `or`.
pub open spec fn or_at(cs: Seq<char>, p: int) -> Option<(ExprModel, int)>
    decreases cs.len() - p, 3int,
{
    match and_at(cs, p) {
        Some((x, e)) => if p < e <= cs.len() {
            Some(or_rest(cs, x, e))
        } else {
            Some((x, e))
        },
        None => None,
    }
}

/// Reads a primary tag expression.
pub fn parse_tag_primary(cs: &[char], p: usize) -> (r: Option<(TagExpr, usize)>)
    requires
        p <= cs@.len(),
    ensures
        match r {
            Some((x, e)) => primary_at(cs@, p as int) == Some((expr_model(x), e as int)) && p < e <= cs@.len(),
            None => primary_at(cs@, p as int) is None,
        },
    decreases cs@.len() - p, 0int,
{
    if p < cs.len() && cs[p] == '(' {
        let q = ms_skip(cs, p + 1);
        match parse_tag_expr(cs, q) {
            Some((x, f)) => {
                let g = ms_skip(cs, f);
                if g < cs.len() && cs[g] == ')' {
                    Some((x, g + 1))
                } else {
                    None
                }
            },
            None => None,
        }
    } else {
        match parse_tag(cs, p) {
            Some((t, e)) => Some((TagExpr::Tag(t), e)),
            None => None,
        }
    }
}

/// Reads operands joined by `and`.
pub fn parse_and_expr(cs: &[char], p: usize) -> (r: Option<(TagExpr, usize)>)
    requires
        p <= cs@.len(),
    ensures
        match r {
            Some((x, e)) => and_at(cs@, p as int) == Some((expr_model(x), e as int)) && p < e <= cs@.len(),
            None => and_at(cs@, p as int) is None,
        },
    decreases cs@.len() - p, 2int,
{
    let (first, e) = match parse_tag_primary(cs, p) {
        Some(x) => x,
        None => {
            return None;
        },
    };
    let ghost x0 = expr_model(first);
    let mut acc = first;
    let mut pos = e;
    proof { reveal_strlit("and"); }
    loop
        invariant
            p < e <= pos <= cs@.len(),
            and_rest(cs@, x0, e as int) == and_rest(cs@, expr_model(acc), pos as int),
        ensures
            p < e <= pos <= cs@.len(),
            and_rest(cs@, x0, e as int) == (expr_model(acc), pos as int),
        decreases cs@.len() - pos,
    {
        proof { reveal_strlit("and"); }
        let q = ms_skip(cs, pos);
        if !lit_at(cs, q, "and") {
            break;
        }
        let r = ms_skip(cs, q + 3);
        match parse_tag_primary(cs, r) {
            Some((y, f)) => {
                let ghost am = expr_model(acc);
                acc = TagExpr::And(Box::new(acc), Box::new(y));
                assert(expr_model(acc) == ExprModel::And(Box::new(am), Box::new(expr_model(y))));
                pos = f;
            },
            None => {
                break;
            },
        }
    }
    Some((acc, pos))
}

/// Reads a tag expression (operands joined by `or`).
pub fn parse_tag_expr(cs: &[char], p: usize) -> (r: Option<(TagExpr, usize)>)
    requires
        p <= cs@.len(),
    ensures
        match r {
            Some((x, e)) => or_at(cs@, p as int) == Some((expr_model(x), e as int)) && p < e <= cs@.len(),
            None => or_at(cs@, p as int) is None,
        },
    decreases cs@.len() - p, 3int,
{
    let (first, e) = match parse_and_expr(cs, p) {
        Some(x) => x,
        None => {
            return None;
        },
    };
    let ghost x0 = expr_model(first);
    let mut acc = first;
    let mut pos = e;
    proof { reveal_strlit("or"); }
    loop
        invariant
            p < e <= pos <= cs@.len(),
            or_rest(cs@, x0, e as int) == or_rest(cs@, expr_model(acc), pos as int),
        ensures
            p < e <= pos <= cs@.len(),
            or_rest(cs@, x0, e as int) == (expr_model(acc), pos as int),
        decreases cs@.len() - pos,
    {
        proof { reveal_strlit("or"); }
        let q = ms_skip(cs, pos);
        if !lit_at(cs, q, "or") {
            break;
        }
        let r = ms_skip(cs, q + 2);
        match parse_and_expr(cs, r) {
            Some((y, f)) => {
                let ghost am = expr_model(acc);
                acc = TagExpr::Or(Box::new(acc), Box::new(y));
                assert(expr_model(acc) == ExprModel::Or(Box::new(am), Box::new(expr_model(y))));
                pos = f;
            },
            None => {
                break;
            },
        }
    }
    Some((acc, pos))
}

/// The first position at or after `p` that is not a space or tab.
pub open spec fn inline_ws_end(cs: Seq<char>, p: int) -> int
    decreases cs.len() - p,
{
    if 0 <= p < cs.len() && (cs[p] == ' ' || cs[p] == '\t') {
        inline_ws_end(cs, p + 1)
    } else {
        p
    }
}

/// More tags after a step condition, each joined with `and`; `None` when a
/// `@` does not start a tag.
pub open spec fn cond_rest(cs: Seq<char>, acc: ExprModel, p: int) -> Option<(ExprModel, int)>
    decreases cs.len() - p,
{
    let q = inline_ws_end(cs, p);
    if 0 <= p <= cs.len() && char_at(cs, q) == Some('@') {
        match tag_at(cs, q) {
            Some((t, e)) => if p < e <= cs.len() {
                cond_rest(cs, ExprModel::And(Box::new(acc), Box::new(ExprModel::T(t.0, t.1, t.2))), e)
            } else {
                Some((acc, p))
            },
            None => None,
        }
    } else {
        Some((acc, p))
    }
}

/// The condition after a step's configuration: a tag expression, then
/// more space-separated tags; no condition when the line goes on with
/// something else. `None` when a condition starts but does not parse.
pub open spec fn step_condition_at(cs: Seq<char>, p: int) -> Option<(Option<ExprModel>, int)> {
    let q = inline_ws_end(cs, p);
    if char_at(cs, q) != Some('@') && char_at(cs, q) != Some('(') {
        Some((None, q))
    } else {
        match or_at(cs, q) {
            Some((x, e)) => match cond_rest(cs, x, e) {
                Some((y, f)) => Some((Some(y), f)),
                None => None,
            },
            None => None,
        }
    }
}

/// The model of an optional tag expression.
pub open spec fn opt_expr_model(c: Option<TagExpr>) -> Option<ExprModel> {
    match c {
        Some(e) => Some(expr_model(e)),
        None => None,
    }
}

/// Skips spaces and tabs.
fn inline_ws_skip(cs: &[char], p: usize) -> (r: usize)
    requires
        p <= cs@.len(),
    ensures
        r == inline_ws_end(cs@, p as int),
        p <= r <= cs@.len(),
{
    let mut i = p;
    while i < cs.len() && (cs[i] == ' ' || cs[i] == '\t')
        invariant
            p <= i <= cs@.len(),
            inline_ws_end(cs@, p as int) == inline_ws_end(cs@, i as int),
        decreases cs@.len() - i,
    {
        i = i + 1;
    }
    i
}

/// Reads a step's condition.
pub fn parse_step_condition(cs: &[char], p: usize) -> (r: Option<(Option<TagExpr>, usize)>)
    requires
        p <= cs@.len(),
    ensures
        match r {
            Some((c, e)) => step_condition_at(cs@, p as int) == Some((opt_expr_model(c), e as int)) && p <= e <= cs@.len(),
            None => step_condition_at(cs@, p as int) is None,
        },
{
    let q = inline_ws_skip(cs, p);
    if !(q < cs.len() && (cs[q] == '@' || cs[q] == '(')) {
        return Some((None, q));
    }
    let (first, e) = match parse_tag_expr(cs, q) {
        Some(x) => x,
        None => {
            return None;
        },
    };
    let ghost x0 = expr_model(first);
    let mut acc = first;
    let mut pos = e;
    loop
        invariant
            q < e <= pos <= cs@.len(),
            q == inline_ws_end(cs@, p as int),
            char_at(cs@, q as int) == Some('@') || char_at(cs@, q as int) == Some('('),
            or_at(cs@, q as int) == Some((x0, e as int)),
            cond_rest(cs@, x0, e as int) == cond_rest(cs@, expr_model(acc), pos as int),
        ensures
            q < e <= pos <= cs@.len(),
            cond_rest(cs@, x0, e as int) == Some((expr_model(acc), pos as int)),
        decreases cs@.len() - pos,
    {
        let t = inline_ws_skip(cs, pos);
        if !(t < cs.len() && cs[t] == '@') {
            break;
        }
        match parse_tag(cs, t) {
            Some((tg, f)) => {
                let ghost am = expr_model(acc);
                let ghost tm = tag_model(tg);
                let te = TagExpr::Tag(tg);
                assert(expr_model(te) == ExprModel::T(tm.0, tm.1, tm.2));
                acc = TagExpr::And(Box::new(acc), Box::new(te));
                assert(expr_model(acc) == ExprModel::And(Box::new(am), Box::new(ExprModel::T(tm.0, tm.1, tm.2))));
                pos = f;
            },
            None => {
                return None;
            },
        }
    }
    Some((Some(acc), pos))
}

/// The state of splitting an argument list: finished arguments, the
/// current one, bracket depth, and whether inside a string or after an
/// escape in it.
pub struct SplitState {
    pub args: Seq<Seq<char>>,
    pub cur: Seq<char>,
    pub depth: int,
    pub in_str: bool,
    pub esc: bool,
}

/// One character of an argument list.
pub open spec fn split_step(st: SplitState, ch: char) -> SplitState {
    if st.esc {
        SplitState { cur: st.cur.push(ch), esc: false, ..st }
    } else if ch == '\\' && st.in_str {
        SplitState { cur: st.cur.push(ch), esc: true, ..st }
    } else if ch == '"' {
        SplitState { cur: st.cur.push(ch), in_str: !st.in_str, ..st }
    } else if (ch == '(' || ch == '[' || ch == '{') && !st.in_str {
        SplitState { cur: st.cur.push(ch), depth: st.depth + 1, ..st }
    } else if (ch == ')' || ch == ']' || ch == '}') && !st.in_str {
        SplitState { cur: st.cur.push(ch), depth: st.depth - 1, ..st }
    } else if ch == ',' && st.depth == 0 && !st.in_str {
        SplitState { args: st.args.push(trim(st.cur)), cur: Seq::empty(), ..st }
    } else {
        SplitState { cur: st.cur.push(ch), ..st }
    }
}

/// The state after the characters of `s`.
pub open spec fn split_run(s: Seq<char>) -> SplitState
    decreases s.len(),
{
    if s.len() == 0 {
        SplitState { args: Seq::empty(), cur: Seq::empty(), depth: 0, in_str: false, esc: false }
    } else {
        split_step(split_run(s.drop_last()), s.last())
    }
}

/// The arguments of an argument list: split at top-level commas outside
/// strings, each trimmed; a blank list has none, and a blank last piece is
/// dropped.
pub open spec fn split_args(s: Seq<char>) -> Seq<Seq<char>> {
    if trim(s).len() == 0 {
        Seq::empty()
    } else {
        let st = split_run(s);
        if trim(st.cur).len() > 0 {
            st.args.push(trim(st.cur))
        } else {
            st.args
        }
    }
}

/// Splits an argument list at top-level commas.
pub fn split_balanced_args(content: &str) -> (r: Vec<String>)
    ensures
        r@.map_values(|x: String| x@) == split_args(content@),
{
    let cs = chars_of(content);
    let t = trim_chars(cs.as_slice());
    if t.len() == 0 {
        return Vec::new();
    }
    let mut args: Vec<String> = Vec::new();
    let mut cur: Vec<char> = Vec::new();
    let mut depth: i128 = 0;
    let mut in_string = false;
    let mut escape_next = false;
    let mut i: usize = 0;
    while i < cs.len()
        invariant
            i <= cs@.len(),
            cs@ == content@,
            -(i as int) <= depth <= i as int,
            ({
                let st = split_run(cs@.take(i as int));
                &&& st.args == args@.map_values(|x: String| x@)
                &&& st.cur == cur@
                &&& st.depth == depth as int
                &&& st.in_str == in_string
                &&& st.esc == escape_next
            }),
        decreases cs@.len() - i,
    {
        let ch = cs[i];
        proof {
            assert(cs@.take(i + 1).drop_last() =~= cs@.take(i as int));
            assert(cs@.take(i + 1).last() == ch);
        }
        if escape_next {
            cur.push(ch);
            escape_next = false;
        } else if ch == '\\' && in_string {
            cur.push(ch);
            escape_next = true;
        } else if ch == '"' {
            cur.push(ch);
            in_string = !in_string;
        } else if (ch == '(' || ch == '[' || ch == '{') && !in_string {
            cur.push(ch);
            depth = depth + 1;
        } else if (ch == ')' || ch == ']' || ch == '}') && !in_string {
            cur.push(ch);
            depth = depth - 1;
        } else if ch == ',' && depth == 0 && !in_string {
            let piece = trim_chars(cur.as_slice());
            let ghost before = args@.map_values(|x: String| x@);
            args.push(string_of(piece.as_slice()));
            assert(args@.map_values(|x: String| x@) =~= before.push(piece@));
            cur = Vec::new();
        } else {
            cur.push(ch);
        }
        i = i + 1;
    }
    assert(cs@.take(cs@.len() as int) =~= cs@);
    let last = trim_chars(cur.as_slice());
    if last.len() > 0 {
        let ghost before = args@.map_values(|x: String| x@);
        args.push(string_of(last.as_slice()));
        assert(args@.map_values(|x: String| x@) =~= before.push(last@));
    }
    args
}

/// Where the bracket opened before `i` closes: the first closing bracket
/// at depth zero outside strings (a backslash in a string escapes the next
/// character).
pub open spec fn close_scan(cs: Seq<char>, i: int, open: char, close: char, depth: int, in_str: bool, esc: bool) -> Option<int>
    decreases cs.len() - i,
{
    if i < 0 || i >= cs.len() {
        None
    } else if esc {
        close_scan(cs, i + 1, open, close, depth, in_str, false)
    } else if cs[i] == '\\' && in_str {
        close_scan(cs, i + 1, open, close, depth, in_str, true)
    } else if cs[i] == '"' {
        close_scan(cs, i + 1, open, close, depth, !in_str, false)
    } else if cs[i] == open && !in_str {
        close_scan(cs, i + 1, open, close, depth + 1, in_str, false)
    } else if cs[i] == close && !in_str {
        if depth == 0 {
            Some(i)
        } else {
            close_scan(cs, i + 1, open, close, depth - 1, in_str, false)
        }
    } else {
        close_scan(cs, i + 1, open, close, depth, in_str, false)
    }
}

/// The first position at or after `p` that is not Unicode whitespace.
pub open spec fn uws_end(cs: Seq<char>, p: int) -> int
    decreases cs.len() - p,
{
    if 0 <= p < cs.len() && is_ws(cs[p]) {
        uws_end(cs, p + 1)
    } else {
        p
    }
}

/// A step's inline argument list `(a, b)` or `[a, b]` at `p`; none when
/// the text (after whitespace) opens no list; `None` when it opens one
/// after whitespace, or does not close it.
pub open spec fn inline_args_at(cs: Seq<char>, p: int) -> Option<(Seq<Seq<char>>, int)> {
    let q = uws_end(cs, p);
    if char_at(cs, q) != Some('(') && char_at(cs, q) != Some('[') {
        Some((Seq::empty(), p))
    } else {
        let open = cs[q];
        let close = if open == '(' { ')' } else { ']' };
        if char_at(cs, p) != Some(open) {
            None
        } else {
            match close_scan(cs, p + 1, open, close, 0, false, false) {
                Some(end) => Some((split_args(cs.subrange(p + 1, end)), end + 1)),
                None => None,
            }
        }
    }
}

/// `close_scan` finds a position after `i` and inside the text.
pub proof fn lemma_close_scan(cs: Seq<char>, i: int, open: char, close: char, depth: int, in_str: bool, esc: bool)
    ensures
        close_scan(cs, i, open, close, depth, in_str, esc) matches Some(e) ==> i <= e < cs.len(),
    decreases cs.len() - i,
{
    if 0 <= i < cs.len() {
        lemma_close_scan(cs, i + 1, open, close, depth, in_str, false);
        lemma_close_scan(cs, i + 1, open, close, depth, in_str, true);
        lemma_close_scan(cs, i + 1, open, close, depth, !in_str, false);
        lemma_close_scan(cs, i + 1, open, close, depth + 1, in_str, false);
        lemma_close_scan(cs, i + 1, open, close, depth - 1, in_str, false);
    }
}

/// Reads a step's inline argument list.
pub fn parse_inline_args(cs: &[char], p: usize) -> (r: Option<(Vec<String>, usize)>)
    requires
        p <= cs@.len(),
    ensures
        match r {
            Some((a, e)) => inline_args_at(cs@, p as int) == Some((a@.map_values(|x: String| x@), e as int)) && p <= e <= cs@.len(),
            None => inline_args_at(cs@, p as int) is None,
        },
{
    let mut q = p;
    while q < cs.len() && char_is_ws(cs[q])
        invariant
            p <= q <= cs@.len(),
            uws_end(cs@, p as int) == uws_end(cs@, q as int),
        decreases cs@.len() - q,
    {
        q = q + 1;
    }
    if !(q < cs.len() && (cs[q] == '(' || cs[q] == '[')) {
        let v: Vec<String> = Vec::new();
        assert(v@.map_values(|x: String| x@) =~= Seq::<Seq<char>>::empty());
        return Some((v, p));
    }
    let open = cs[q];
    let close = if open == '(' { ')' } else { ']' };
    if !(p < cs.len() && cs[p] == open) {
        return None;
    }
    let mut depth: usize = 0;
    let mut in_string = false;
    let mut escape_next = false;
    let mut i = p + 1;
    let mut end: Option<usize> = None;
    while i < cs.len()
        invariant_except_break
            end is None,
        invariant
            p < i <= cs@.len(),
            depth <= i,
            close_scan(cs@, p + 1, open, close, 0, false, false) == close_scan(cs@, i as int, open, close, depth as int, in_string, escape_next),
        ensures
            match end {
                Some(e) => close_scan(cs@, p + 1, open, close, 0, false, false) == Some(e as int) && p < e < cs@.len(),
                None => close_scan(cs@, p + 1, open, close, 0, false, false) is None,
            },
        decreases cs@.len() - i,
    {
        let ch = cs[i];
        if escape_next {
            escape_next = false;
        } else if ch == '\\' && in_string {
            escape_next = true;
        } else if ch == '"' {
            in_string = !in_string;
        } else if ch == open && !in_string {
            depth = depth + 1;
        } else if ch == close && !in_string {
            if depth == 0 {
                end = Some(i);
                break;
            }
            depth = depth - 1;
        }
        i = i + 1;
    }
    let e = match end {
        Some(e) => e,
        None => {
            return None;
        },
    };
    let inner = slice_chars(cs, p + 1, e);
    let content = string_of(inner.as_slice());
    let args = split_balanced_args(content.as_str());
    Some((args, e + 1))
}

/// The number of UTF-8 bytes of a character.
pub open spec fn utf8_len(c: char) -> nat {
    if (c as u32) < 0x80 {
        1
    } else if (c as u32) < 0x800 {
        2
    } else if (c as u32) < 0x10000 {
        3
    } else {
        4
    }
}

/// The number of UTF-8 bytes of a text.
pub open spec fn byte_len(s: Seq<char>) -> nat
    decreases s.len(),
{
    if s.len() == 0 {
        0
    } else {
        byte_len(s.drop_last()) + utf8_len(s.last())
    }
}

/// The number of line feeds in a text.
pub open spec fn line_breaks(s: Seq<char>) -> nat
    decreases s.len(),
{
    if s.len() == 0 {
        0
    } else {
        line_breaks(s.drop_last()) + if s.last() == '\n' { 1nat } else { 0nat }
    }
}

/// The number of bytes after the last line feed of a text.
pub open spec fn last_line_bytes(s: Seq<char>) -> nat
    decreases s.len(),
{
    if s.len() == 0 {
        0
    } else if s.last() == '\n' {
        0
    } else {
        last_line_bytes(s.drop_last()) + utf8_len(s.last())
    }
}

/// The source location of position `q`: its line and byte column (both
/// counted from 1) and byte offset.
pub open spec fn location_spec(cs: Seq<char>, q: int) -> SourceLocation {
    let t = cs.take(q);
    SourceLocation {
        line: (1 + line_breaks(t)) as usize,
        column: (1 + last_line_bytes(t)) as usize,
        offset: byte_len(t) as usize,
        file_path: None,
        module_id: None,
    }
}

/// The text's UTF-8 size fits `usize` (true of every `str`).
pub open spec fn text_fits(cs: Seq<char>) -> bool {
    byte_len(cs) < usize::MAX
}

/// Prefixes are no larger than the text, and line counts and last-line
/// sizes are bounded by the size.
pub proof fn lemma_byte_len_prefix(s: Seq<char>, i: int)
    requires
        0 <= i <= s.len(),
    ensures
        byte_len(s.take(i)) <= byte_len(s),
        line_breaks(s.take(i)) <= byte_len(s.take(i)),
        last_line_bytes(s.take(i)) <= byte_len(s.take(i)),
    decreases s.len() - i,
{
    if i < s.len() {
        lemma_byte_len_prefix(s, i + 1);
        assert(s.take(i + 1).drop_last() =~= s.take(i));
    } else {
        assert(s.take(i) =~= s);
    }
    lemma_counts(s.take(i));
}

/// Line counts and last-line sizes are bounded by the size.
pub proof fn lemma_counts(s: Seq<char>)
    ensures
        line_breaks(s) <= byte_len(s),
        last_line_bytes(s) <= byte_len(s),
    decreases s.len(),
{
    if s.len() > 0 {
        lemma_counts(s.drop_last());
    }
}

/// The source location of position `q`.
pub fn location_at(cs: &[char], q: usize) -> (r: SourceLocation)
    requires
        q <= cs@.len(),
        text_fits(cs@),
    ensures
        r == location_spec(cs@, q as int),
{
    let mut line: usize = 1;
    let mut col: usize = 1;
    let mut off: usize = 0;
    let mut i: usize = 0;
    proof { lemma_byte_len_prefix(cs@, q as int); }
    while i < q
        invariant
            i <= q <= cs@.len(),
            text_fits(cs@),
            byte_len(cs@.take(q as int)) <= byte_len(cs@),
            line == 1 + line_breaks(cs@.take(i as int)),
            col == 1 + last_line_bytes(cs@.take(i as int)),
            off == byte_len(cs@.take(i as int)),
        decreases q - i,
    {
        let c = cs[i];
        proof {
            assert(cs@.take(i + 1).drop_last() =~= cs@.take(i as int));
            lemma_byte_len_prefix(cs@, i + 1);
            lemma_byte_len_prefix(cs@, i as int);
        }
        let w: usize = if (c as u32) < 0x80 {
            1
        } else if (c as u32) < 0x800 {
            2
        } else if (c as u32) < 0x10000 {
            3
        } else {
            4
        };
        off = off + w;
        if c == '\n' {
            line = line + 1;
            col = 1;
        } else {
            col = col + w;
        }
        i = i + 1;
    }
    SourceLocation { line, column: col, offset: off, file_path: None, module_id: None }
}

/// The task names of a `join` step, when its configuration gives any.
pub open spec fn join_targets(config: Seq<char>) -> Option<Seq<Seq<char>>> {
    match crate::join::join_names(config) {
        Ok(v) => Some(v),
        Err(_) => None,
    }
}

/// The model of a regular step: name, arguments, configuration and its
/// kind, condition, parsed join targets, location.
pub open spec fn regular_model(step: PipelineStep) -> Option<(Seq<char>, Seq<Seq<char>>, Seq<char>, int, Option<ExprModel>, Option<Seq<Seq<char>>>, SourceLocation)> {
    match step {
        PipelineStep::Regular { name, args, config, config_type, condition, parsed_join_targets, location } =>
            Some((name@, args@.map_values(|x: String| x@), config@, config_kind(config_type), opt_expr_model(condition),
                match parsed_join_targets {
                    Some(v) => Some(v@.map_values(|x: String| x@)),
                    None => None,
                }, location)),
        _ => None,
    }
}

/// A regular step at `p`: `|> name(args): config @condition`, after
/// whitespace and comments; its model and the position after it and the
/// spaces that follow.
pub open spec fn regular_at(cs: Seq<char>, p: int) -> Option<((Seq<char>, Seq<Seq<char>>, Seq<char>, int, Option<ExprModel>, Option<Seq<Seq<char>>>, SourceLocation), int)> {
    let q = wc_end(cs, p);
    if !occurs_at(cs, "|>"@, q) {
        None
    } else {
        match ident_at(cs, ms_end(cs, q + 2)) {
            None => None,
            Some((name, e1)) => match inline_args_at(cs, e1) {
                None => None,
                Some((args, e2)) => {
                    let e3 = ms_end(cs, e2);
                    let cfg = if char_at(cs, e3) == Some(':') && step_config_at(cs, ms_end(cs, e3 + 1)) is Some {
                        step_config_at(cs, ms_end(cs, e3 + 1))->0
                    } else {
                        (Seq::empty(), 1int, e3)
                    };
                    match step_condition_at(cs, cfg.2) {
                        None => None,
                        Some((cond, e5)) => Some((
                            (name, args, cfg.0, cfg.1, cond,
                                if name == "join"@ { join_targets(cfg.0) } else { None },
                                location_spec(cs, q)),
                            ms_end(cs, e5),
                        )),
                    }
                },
            },
        }
    }
}

/// Reads a regular step.
pub fn parse_regular_step(cs: &[char], p: usize) -> (r: Parsed<PipelineStep>)
    requires
        p <= cs@.len(),
        text_fits(cs@),
    ensures
        match r {
            Parsed::Done(step, e) => regular_at(cs@, p as int) == Some((regular_model(step)->0, e as int))
                && regular_model(step) is Some && p < e <= cs@.len(),
            Parsed::Error => regular_at(cs@, p as int) is None,
            Parsed::Failure => false,
        },
{
    let q = skip_ws_and_comments(cs, p);
    if !lit_at(cs, q, "|>") {
        return Parsed::Error;
    }
    proof { reveal_strlit("|>"); }
    let n0 = ms_skip(cs, q + 2);
    let (name, e1) = match parse_identifier(cs, n0) {
        Some(x) => x,
        None => {
            return Parsed::Error;
        },
    };
    let (args, e2) = match parse_inline_args(cs, e1) {
        Some(x) => x,
        None => {
            return Parsed::Error;
        },
    };
    let e3 = ms_skip(cs, e2);
    let (config, config_type, e4) = if e3 < cs.len() && cs[e3] == ':' {
        let c0 = ms_skip(cs, e3 + 1);
        match parse_step_config(cs, c0) {
            Some(x) => x,
            None => (String::new(), ConfigType::Quoted, e3),
        }
    } else {
        (String::new(), ConfigType::Quoted, e3)
    };
    let (condition, e5) = match parse_step_condition(cs, e4) {
        Some(x) => x,
        None => {
            return Parsed::Error;
        },
    };
    let joins = if crate::text::str_eq(name.as_str(), "join") {
        match crate::join::parse_join_task_names(config.as_str()) {
            Ok(v) => Some(v),
            Err(_) => None,
        }
    } else {
        None
    };
    let e = ms_skip(cs, e5);
    let location = location_at(cs, q);
    Parsed::Done(PipelineStep::Regular { name, args, config, config_type, condition, parsed_join_targets: joins, location }, e)
}

/// Reads the status code of a result branch: at least one digit, as a
/// `u16` (a larger number is a hard failure).
fn parse_status(cs: &[char], p: usize) -> (r: Parsed<u16>)
    requires
        p <= cs@.len(),
    ensures
        match r {
            Parsed::Done(v, e) => e == digits_end(cs@, p as int) && p < e
                && digits_value(cs@.subrange(p as int, e as int)) == v as nat,
            Parsed::Error => digits_end(cs@, p as int) == p,
            Parsed::Failure => digits_end(cs@, p as int) > p
                && digits_value(cs@.subrange(p as int, digits_end(cs@, p as int))) > 65535,
        },
{
    let mut e = p;
    let mut v: u32 = 0;
    let mut big = false;
    proof { lemma_digits_end(cs@, p as int); }
    assert(cs@.subrange(p as int, p as int) =~= Seq::<char>::empty());
    while e < cs.len() && '0' <= cs[e] && cs[e] <= '9'
        invariant
            p <= e <= cs@.len(),
            v <= 65535,
            digits_end(cs@, p as int) == digits_end(cs@, e as int),
            !big ==> digits_value(cs@.subrange(p as int, e as int)) == v as nat,
            big ==> digits_value(cs@.subrange(p as int, e as int)) > 65535,
        decreases cs@.len() - e,
    {
        let d = (cs[e] as u32) - ('0' as u32);
        let ghost prev = cs@.subrange(p as int, e as int);
        assert(cs@.subrange(p as int, e + 1).drop_last() =~= prev);
        assert(cs@.subrange(p as int, e + 1).last() == cs@[e as int]);
        if !big {
            let nv = v * 10 + d;
            if nv > 65535 {
                big = true;
            } else {
                v = nv;
            }
        }
        e = e + 1;
    }
    if e == p {
        Parsed::Error
    } else if big {
        Parsed::Failure
    } else {
        Parsed::Done(v as u16, e)
    }
}

/// Reads one branch of a result step: `kind(status): <pipeline>`.
pub fn parse_result_branch(cs: &[char], p: usize) -> (r: Parsed<ResultBranch>)
    requires
        p <= cs@.len(),
        text_fits(cs@),
    ensures
        branch_reading(r) == branch_at(cs@, p as int),
        r.bounded(cs@, p as int),
        r matches Parsed::Done(_, e) ==> p < e,
    decreases cs@.len() - p, 0int,
{
    proof {
        reveal_strlit("ok");
        reveal_strlit("default");
        lemma_wc_end(cs@, p as int);
    }
    let q = skip_ws_and_comments(cs, p);
    let (name, e1) = match parse_identifier(cs, q) {
        Some(x) => x,
        None => {
            return Parsed::Error;
        },
    };
    let ghost name_v = name@;
    let branch_type = if crate::text::str_eq(name.as_str(), "ok") {
        ResultBranchType::Success
    } else if crate::text::str_eq(name.as_str(), "default") {
        ResultBranchType::Default
    } else {
        ResultBranchType::Custom(name)
    };
    assert(kind_m(branch_type) == kind_of_name(name_v));
    if !(e1 < cs.len() && cs[e1] == '(') {
        return Parsed::Error;
    }
    let (status_code, e2) = match parse_status(cs, e1 + 1) {
        Parsed::Done(v, e) => (v, e),
        Parsed::Error => {
            return Parsed::Error;
        },
        Parsed::Failure => {
            return Parsed::Failure;
        },
    };
    if !(e2 < cs.len() && cs[e2] == ')' && e2 + 1 < cs.len() && cs[e2 + 1] == ':') {
        return Parsed::Error;
    }
    let x = ms_skip(cs, e2 + 2);
    let (pipeline, e) = parse_pipeline(cs, x);
    let location = location_at(cs, q);
    Parsed::Done(ResultBranch { branch_type, status_code, pipeline, location }, e)
}

/// A reading of branches with `pre` read before them.
pub open spec fn after_branches(pre: Seq<BranchM>, r: Reading<Seq<BranchM>>) -> Reading<Seq<BranchM>> {
    match r {
        Reading::Read(bs, f) => Reading::Read(pre + bs, f),
        Reading::No => Reading::No,
        Reading::Fail => Reading::Fail,
    }
}

/// Reads a result step: `|> result` and its branches.
pub fn parse_result_step(cs: &[char], p: usize) -> (r: Parsed<PipelineStep>)
    requires
        p <= cs@.len(),
        text_fits(cs@),
    ensures
        step_reading(r) == result_at(cs@, p as int),
        r.bounded(cs@, p as int),
        r matches Parsed::Done(_, e) ==> p < e,
    decreases cs@.len() - p, 0int,
{
    proof {
        reveal_strlit("|>");
        reveal_strlit("result");
        lemma_wc_end(cs@, p as int);
    }
    let q = skip_ws_and_comments(cs, p);
    if !lit_at(cs, q, "|>") {
        return Parsed::Error;
    }
    let x = ms_skip(cs, q + 2);
    if !lit_at(cs, x, "result") {
        return Parsed::Error;
    }
    assert(step_head(cs@, q as int, "result"@) == Some(x + 6));
    let start = skip_ws_and_comments(cs, x + 6);
    let ghost all = branches_at(cs@, start as int);
    let ghost whole = result_at(cs@, p as int);
    assert(whole == match all {
        Reading::Read(bs, e) => Reading::Read(StepM::Result(bs, location_spec(cs@, q as int)), e),
        Reading::No => Reading::No,
        Reading::Fail => Reading::Fail,
    });
    let mut pos = start;
    let mut branches: Vec<ResultBranch> = Vec::new();
    assert(branches_m(branches@) =~= Seq::<BranchM>::empty());
    assert(after_branches(Seq::empty(), branches_at(cs@, pos as int)) =~= all) by {
        match branches_at(cs@, pos as int) {
            Reading::Read(bs, f) => { assert(Seq::<BranchM>::empty() + bs =~= bs); },
            _ => {},
        }
    }
    loop
        invariant
            p < start <= pos <= cs@.len(),
            text_fits(cs@),
            all == branches_at(cs@, start as int),
            whole == result_at(cs@, p as int),
            whole == match all {
                Reading::Read(bs, e) => Reading::Read(StepM::Result(bs, location_spec(cs@, q as int)), e),
                Reading::No => Reading::No,
                Reading::Fail => Reading::Fail,
            },
            after_branches(branches_m(branches@), branches_at(cs@, pos as int)) == all,
        ensures
            p < start <= pos <= cs@.len(),
            after_branches(branches_m(branches@), branches_at(cs@, pos as int)) == all,
            branches_at(cs@, pos as int) == Reading::Read(Seq::<BranchM>::empty(), pos as int),
        decreases cs@.len() - pos,
    {
        let got = parse_result_branch(cs, pos);
        match got {
            Parsed::Done(b, e) => {
                let ghost bm = BranchM {
                    kind: kind_m(b.branch_type),
                    status: b.status_code as int,
                    steps: steps_m(b.pipeline.steps@),
                    location: b.location,
                };
                let ghost pre = branches_m(branches@);
                let ghost before = branches@;
                branches.push(b);
                proof {
                    assert(branches@.drop_last() =~= before);
                    assert(branches_m(branches@) == pre.push(bm));
                    match branches_at(cs@, e as int) {
                        Reading::Read(bs, f) => {
                            assert(pre.push(bm) + bs =~= pre + (seq![bm] + bs));
                        },
                        _ => {},
                    }
                }
                pos = e;
            },
            Parsed::Error => {
                break;
            },
            Parsed::Failure => {
                assert(branches_at(cs@, pos as int) == Reading::<Seq<BranchM>>::Fail);
                assert(all == Reading::<Seq<BranchM>>::Fail);
                assert(branches_at(cs@, start as int) == Reading::<Seq<BranchM>>::Fail);
                assert(result_at(cs@, p as int) == Reading::<StepM>::Fail);
                return Parsed::Failure;
            },
        }
    }
    assert(branches_m(branches@) + Seq::<BranchM>::empty() =~= branches_m(branches@));
    let location = location_at(cs, q);
    Parsed::Done(PipelineStep::Result { branches, location }, pos)
}

/// Reads an if step: `|> if <pipeline> then: <pipeline> [else: <pipeline>] [end]`.
pub fn parse_if_step(cs: &[char], p: usize) -> (r: Parsed<PipelineStep>)
    requires
        p <= cs@.len(),
        text_fits(cs@),
    ensures
        step_reading(r) == if_at(cs@, p as int),
        r.bounded(cs@, p as int),
        r matches Parsed::Done(_, e) ==> p < e,
        !(r is Failure),
    decreases cs@.len() - p, 0int,
{
    proof {
        reveal_strlit("|>");
        reveal_strlit("if");
        reveal_strlit("then:");
        reveal_strlit("else:");
        reveal_strlit("end");
        lemma_wc_end(cs@, p as int);
    }
    let q = skip_ws_and_comments(cs, p);
    if !lit_at(cs, q, "|>") {
        return Parsed::Error;
    }
    let x = ms_skip(cs, q + 2);
    if !lit_at(cs, x, "if") {
        return Parsed::Error;
    }
    assert(step_head(cs@, q as int, "if"@) == Some(x + 2));
    let c0 = skip_ws_and_comments(cs, x + 2);
    let (condition, e1) = parse_pipeline(cs, c0);
    let t0 = skip_ws_and_comments(cs, e1);
    if !lit_at(cs, t0, "then:") {
        return Parsed::Error;
    }
    let t1 = skip_ws_and_comments(cs, t0 + 5);
    let (then_branch, e2) = parse_pipeline(cs, t1);
    let mut pos = skip_ws_and_comments(cs, e2);
    let else_branch = if lit_at(cs, pos, "else:") {
        let l1 = skip_ws_and_comments(cs, pos + 5);
        let (pl, e3) = parse_pipeline(cs, l1);
        pos = e3;
        Some(pl)
    } else {
        None
    };
    let ghost e3 = pos;
    pos = skip_ws_and_comments(cs, pos);
    if lit_at(cs, pos, "end") {
        pos = pos + 3;
    }
    assert(pos == after_end(cs@, e3 as int));
    let location = location_at(cs, q);
    Parsed::Done(PipelineStep::If { condition, then_branch, else_branch, location }, pos)
}

/// Reads one case of a dispatch step: `case <tag expression>: <pipeline>`.
pub fn parse_dispatch_branch(cs: &[char], p: usize) -> (r: Parsed<DispatchBranch>)
    requires
        p <= cs@.len(),
        text_fits(cs@),
    ensures
        case_reading(r) == case_at(cs@, p as int),
        r.bounded(cs@, p as int),
        r matches Parsed::Done(_, e) ==> p < e,
        !(r is Failure),
    decreases cs@.len() - p, 0int,
{
    proof {
        reveal_strlit("case");
        lemma_wc_end(cs@, p as int);
    }
    let q = skip_ws_and_comments(cs, p);
    if !lit_at(cs, q, "case") {
        return Parsed::Error;
    }
    let x = ms_skip(cs, q + 4);
    let (condition, e1) = match parse_tag_expr(cs, x) {
        Some(v) => v,
        None => {
            return Parsed::Error;
        },
    };
    let c = ms_skip(cs, e1);
    if !(c < cs.len() && cs[c] == ':') {
        return Parsed::Error;
    }
    let y = skip_ws_and_comments(cs, c + 1);
    let (pipeline, e) = parse_pipeline(cs, y);
    let location = location_at(cs, q);
    Parsed::Done(DispatchBranch { condition, pipeline, location }, e)
}

/// Reads a dispatch step: cases, an optional `default:` and an optional `end`.
pub fn parse_dispatch_step(cs: &[char], p: usize) -> (r: Parsed<PipelineStep>)
    requires
        p <= cs@.len(),
        text_fits(cs@),
    ensures
        step_reading(r) == dispatch_at(cs@, p as int),
        r.bounded(cs@, p as int),
        r matches Parsed::Done(_, e) ==> p < e,
        !(r is Failure),
    decreases cs@.len() - p, 0int,
{
    proof {
        reveal_strlit("|>");
        reveal_strlit("dispatch");
        reveal_strlit("default:");
        reveal_strlit("end");
        lemma_wc_end(cs@, p as int);
    }
    let q = skip_ws_and_comments(cs, p);
    if !lit_at(cs, q, "|>") {
        return Parsed::Error;
    }
    let x = ms_skip(cs, q + 2);
    if !lit_at(cs, x, "dispatch") {
        return Parsed::Error;
    }
    assert(step_head(cs@, q as int, "dispatch"@) == Some(x + 8));
    let start = skip_ws_and_comments(cs, x + 8);
    let ghost all = cases_at(cs@, start as int);
    let mut pos = start;
    let mut branches: Vec<DispatchBranch> = Vec::new();
    assert(cases_m(branches@) + cases_at(cs@, pos as int).0 =~= all.0);
    loop
        invariant
            p < start <= pos <= cs@.len(),
            text_fits(cs@),
            all == cases_at(cs@, start as int),
            cases_m(branches@) + cases_at(cs@, pos as int).0 == all.0,
            cases_at(cs@, pos as int).1 == all.1,
        ensures
            p < start <= pos <= cs@.len(),
            cases_m(branches@) + cases_at(cs@, pos as int).0 == all.0,
            cases_at(cs@, pos as int).1 == all.1,
            cases_at(cs@, pos as int).0 == Seq::<CaseM>::empty(),
        decreases cs@.len() - pos,
    {
        match parse_dispatch_branch(cs, pos) {
            Parsed::Done(b, e) => {
                let ghost cm = CaseM {
                    cond: expr_model(b.condition),
                    steps: steps_m(b.pipeline.steps@),
                    location: b.location,
                };
                let ghost pre = cases_m(branches@);
                let ghost before = branches@;
                branches.push(b);
                proof {
                    assert(branches@.drop_last() =~= before);
                    assert(cases_m(branches@) == pre.push(cm));
                    assert(pre.push(cm) + cases_at(cs@, e as int).0 =~= pre + (seq![cm] + cases_at(cs@, e as int).0));
                }
                pos = e;
            },
            _ => {
                break;
            },
        }
    }
    assert(cases_m(branches@) =~= all.0);
    let d0 = skip_ws_and_comments(cs, pos);
    let default = if lit_at(cs, d0, "default:") {
        let d1 = skip_ws_and_comments(cs, d0 + 8);
        let (pl, e) = parse_pipeline(cs, d1);
        pos = e;
        Some(pl)
    } else {
        None
    };
    let ghost e4 = pos;
    pos = skip_ws_and_comments(cs, pos);
    if lit_at(cs, pos, "end") {
        pos = pos + 3;
    }
    assert(pos == after_end(cs@, e4 as int));
    let location = location_at(cs, q);
    Parsed::Done(PipelineStep::Dispatch { branches, default, location }, pos)
}

/// Reads a foreach step: `|> foreach <selector>`, a pipeline and `end`.
pub fn parse_foreach_step(cs: &[char], p: usize) -> (r: Parsed<PipelineStep>)
    requires
        p <= cs@.len(),
        text_fits(cs@),
    ensures
        step_reading(r) == foreach_at(cs@, p as int),
        r.bounded(cs@, p as int),
        r matches Parsed::Done(_, e) ==> p < e,
        !(r is Failure),
    decreases cs@.len() - p, 0int,
{
    proof {
        reveal_strlit("|>");
        reveal_strlit("foreach");
        reveal_strlit("end");
        lemma_wc_end(cs@, p as int);
    }
    let q = skip_ws_and_comments(cs, p);
    if !lit_at(cs, q, "|>") {
        return Parsed::Error;
    }
    let x = ms_skip(cs, q + 2);
    if !lit_at(cs, x, "foreach") {
        return Parsed::Error;
    }
    assert(step_head(cs@, q as int, "foreach"@) == Some(x + 7));
    let s0 = x + 7;
    let s1 = ms_skip(cs, s0);
    if s1 == s0 {
        return Parsed::Error;
    }
    let mut s2 = s1;
    proof { lemma_till_end(cs@, s1 as int, '\n', '#'); }
    while s2 < cs.len() && cs[s2] != '\n' && cs[s2] != '#'
        invariant
            s1 <= s2 <= cs@.len(),
            till_end(cs@, s1 as int, '\n', '#') == till_end(cs@, s2 as int, '\n', '#'),
        decreases cs@.len() - s2,
    {
        s2 = s2 + 1;
    }
    if s2 == s1 {
        return Parsed::Error;
    }
    let raw = slice_chars(cs, s1, s2);
    let selector = string_of(trim_chars(raw.as_slice()).as_slice());
    let y = skip_ws_and_comments(cs, s2);
    let (pipeline, e1) = parse_pipeline(cs, y);
    let z = skip_ws_and_comments(cs, e1);
    if !lit_at(cs, z, "end") {
        return Parsed::Error;
    }
    let location = location_at(cs, q);
    Parsed::Done(PipelineStep::Foreach { selector, pipeline, location }, z + 3)
}

/// Reads one step: a result, if, dispatch or foreach step, or else a
/// regular step.
pub fn parse_pipeline_step(cs: &[char], p: usize) -> (r: Parsed<PipelineStep>)
    requires
        p <= cs@.len(),
        text_fits(cs@),
    ensures
        step_reading(r) == step_at(cs@, p as int),
        r.bounded(cs@, p as int),
        r matches Parsed::Done(_, e) ==> p < e,
    decreases cs@.len() - p, 1int,
{
    match parse_result_step(cs, p) {
        Parsed::Error => {},
        other => {
            return other;
        },
    }
    match parse_if_step(cs, p) {
        Parsed::Error => {},
        other => {
            return other;
        },
    }
    match parse_dispatch_step(cs, p) {
        Parsed::Error => {},
        other => {
            return other;
        },
    }
    match parse_foreach_step(cs, p) {
        Parsed::Error => {},
        other => {
            return other;
        },
    }
    let r = parse_regular_step(cs, p);
    proof {
        if r is Done {
            let step = r->Done_0;
            assert(step_m(step) == StepM::Regular(regular_model(step)->0));
        }
    }
    r
}

/// Reads the steps of a pipeline, as many as follow; the position after
/// the last one (before any whitespace or comments after it).
pub fn parse_pipeline(cs: &[char], p: usize) -> (r: (Pipeline, usize))
    requires
        p <= cs@.len(),
        text_fits(cs@),
    ensures
        (steps_m(r.0.steps@), r.1 as int) == pipeline_at(cs@, p as int),
        p <= r.1 <= cs@.len(),
    decreases cs@.len() - p, 2int,
{
    let ghost all = pipeline_at(cs@, p as int);
    let mut steps: Vec<PipelineStep> = Vec::new();
    let mut pos = p;
    assert(steps_m(steps@) + pipeline_at(cs@, pos as int).0 =~= all.0);
    loop
        invariant
            p <= pos <= cs@.len(),
            text_fits(cs@),
            all == pipeline_at(cs@, p as int),
            steps_m(steps@) + pipeline_at(cs@, pos as int).0 == all.0,
            pipeline_at(cs@, pos as int).1 == all.1,
        decreases cs@.len() - pos,
    {
        let q = skip_ws_and_comments(cs, pos);
        proof { lemma_wc_end(cs@, pos as int); }
        match parse_pipeline_step(cs, q) {
            Parsed::Done(step, e) => {
                let ghost sm = step_m(step);
                let ghost pre = steps_m(steps@);
                let ghost before = steps@;
                steps.push(step);
                proof {
                    assert(steps@.drop_last() =~= before);
                    assert(steps_m(steps@) == pre.push(sm));
                    assert(pre.push(sm) + pipeline_at(cs@, e as int).0 =~= pre + (seq![sm] + pipeline_at(cs@, e as int).0));
                }
                pos = e;
            },
            _ => {
                assert(steps_m(steps@) + Seq::<StepM>::empty() =~= steps_m(steps@));
                return (Pipeline { steps }, pos);
            },
        }
    }
}

/// The first position at or after `p` holding `s1` or `s2` (or the end).
pub open spec fn till_end(cs: Seq<char>, p: int, s1: char, s2: char) -> int
    decreases cs.len() - p,
{
    if 0 <= p < cs.len() && cs[p] != s1 && cs[p] != s2 {
        till_end(cs, p + 1, s1, s2)
    } else {
        p
    }
}

/// The non-empty run of characters at `p` that are neither `s1` nor `s2`.
pub open spec fn till1_at(cs: Seq<char>, p: int, s1: char, s2: char) -> Option<(Seq<char>, int)> {
    if p < till_end(cs, p, s1, s2) {
        Some((cs.subrange(p, till_end(cs, p, s1, s2)), till_end(cs, p, s1, s2)))
    } else {
        None
    }
}

/// Backtick text, else quoted text.
pub open spec fn text_lit_at(cs: Seq<char>, p: int) -> Option<(Seq<char>, int)> {
    match delimited_at(cs, p, '`') {
        Some(x) => Some(x),
        None => delimited_at(cs, p, '"'),
    }
}

/// Backtick text, quoted text, or else the rest of the line.
pub open spec fn value_at(cs: Seq<char>, p: int) -> Option<(Seq<char>, int)> {
    match text_lit_at(cs, p) {
        Some(x) => Some(x),
        None => till1_at(cs, p, '\n', '\n'),
    }
}

/// `till_end` stays within `[p, len]`.
pub proof fn lemma_till_end(cs: Seq<char>, p: int, s1: char, s2: char)
    requires
        0 <= p <= cs.len(),
    ensures
        p <= till_end(cs, p, s1, s2) <= cs.len(),
    decreases cs.len() - p,
{
    if 0 <= p < cs.len() && cs[p] != s1 && cs[p] != s2 {
        lemma_till_end(cs, p + 1, s1, s2);
    }
}

/// `till_end` stops at the first `s1` or `s2` (or the end).
pub proof fn lemma_till_end_at(cs: Seq<char>, p: int, q: int, s1: char, s2: char)
    requires
        0 <= p <= q <= cs.len(),
        forall|i: int| p <= i < q ==> cs[i] != s1 && cs[i] != s2,
        q == cs.len() || cs[q] == s1 || cs[q] == s2,
    ensures
        till_end(cs, p, s1, s2) == q,
    decreases q - p,
{
    if p < q {
        lemma_till_end_at(cs, p + 1, q, s1, s2);
    }
}

/// `ms_end` stops at the first character that is not whitespace (or the end).
pub proof fn lemma_ms_end_at(cs: Seq<char>, p: int, q: int)
    requires
        0 <= p <= q <= cs.len(),
        forall|i: int| p <= i < q ==> is_ms(cs[i]),
        q == cs.len() || !is_ms(cs[q]),
    ensures
        ms_end(cs, p) == q,
    decreases q - p,
{
    if p < q {
        lemma_ms_end_at(cs, p + 1, q);
    }
}

/// Reads the characters from `p` up to (not including) the first `s1` or
/// `s2`; at least one.
pub fn take_till1(cs: &[char], p: usize, s1: char, s2: char) -> (r: Option<(String, usize)>)
    requires
        p <= cs@.len(),
    ensures
        match r {
            Some((s, e)) => till1_at(cs@, p as int, s1, s2) == Some((s@, e as int)) && p < e <= cs@.len(),
            None => till1_at(cs@, p as int, s1, s2) is None,
        },
{
    let mut e = p;
    proof { lemma_till_end(cs@, p as int, s1, s2); }
    while e < cs.len() && cs[e] != s1 && cs[e] != s2
        invariant
            p <= e <= cs@.len(),
            till_end(cs@, p as int, s1, s2) == till_end(cs@, e as int, s1, s2),
        decreases cs@.len() - e,
    {
        e = e + 1;
    }
    if e == p {
        None
    } else {
        Some((string_of(slice_chars(cs, p, e).as_slice()), e))
    }
}

/// Reads backtick or quoted text.
pub fn parse_text_literal(cs: &[char], p: usize) -> (r: Option<(String, usize)>)
    requires
        p <= cs@.len(),
    ensures
        match r {
            Some((s, e)) => text_lit_at(cs@, p as int) == Some((s@, e as int)) && p < e <= cs@.len(),
            None => text_lit_at(cs@, p as int) is None,
        },
{
    match parse_delimited(cs, p, '`') {
        Some(x) => Some(x),
        None => parse_delimited(cs, p, '"'),
    }
}

/// Reads backtick text, quoted text, or the rest of the line.
pub fn parse_value_text(cs: &[char], p: usize) -> (r: Option<(String, usize)>)
    requires
        p <= cs@.len(),
    ensures
        match r {
            Some((s, e)) => value_at(cs@, p as int) == Some((s@, e as int)) && p < e <= cs@.len(),
            None => value_at(cs@, p as int) is None,
        },
{
    match parse_text_literal(cs, p) {
        Some(x) => Some(x),
        None => take_till1(cs, p, '\n', '\n'),
    }
}

/// Reads one property of a config block: `key: value`.
pub fn parse_config_property(cs: &[char], p: usize) -> (r: Option<(ConfigProperty, usize)>)
    requires
        p <= cs@.len(),
    ensures
        match r {
            Some((pr, e)) => property_at(cs@, p as int) == Some(((pr.key@, value_model(pr.value)), e as int))
                && p < e <= cs@.len(),
            None => property_at(cs@, p as int) is None,
        },
{
    let q = ms_skip(cs, p);
    let (key, e1) = match parse_identifier(cs, q) {
        Some(x) => x,
        None => {
            return None;
        },
    };
    let c = ms_skip(cs, e1);
    if !(c < cs.len() && cs[c] == ':') {
        return None;
    }
    let v = ms_skip(cs, c + 1);
    match parse_config_value(cs, v) {
        Some((value, e)) => Some((ConfigProperty { key, value }, e)),
        None => None,
    }
}

/// Reads a config block: `config name { key: value ... }`.
pub fn parse_config(cs: &[char], p: usize) -> (r: Option<(Config, usize)>)
    requires
        p <= cs@.len(),
    ensures
        match r {
            Some((c, e)) => config_at(cs@, p as int) == Some((config_m(c), e as int)) && p < e <= cs@.len(),
            None => config_at(cs@, p as int) is None,
        },
{
    proof { reveal_strlit("config"); }
    if !lit_at(cs, p, "config") {
        return None;
    }
    let a = ms_skip(cs, p + 6);
    let (name, e1) = match parse_identifier(cs, a) {
        Some(x) => x,
        None => {
            return None;
        },
    };
    let b = ms_skip(cs, e1);
    if !(b < cs.len() && cs[b] == '{') {
        return None;
    }
    let start = ms_skip(cs, b + 1);
    let ghost all = properties_at(cs@, start as int);
    let mut pos = start;
    let mut properties: Vec<ConfigProperty> = Vec::new();
    let ghost mv = |pr: ConfigProperty| (pr.key@, value_model(pr.value));
    assert(properties@.map_values(mv) + properties_at(cs@, pos as int).0 =~= all.0);
    loop
        invariant
            p < start <= pos <= cs@.len(),
            all == properties_at(cs@, start as int),
            mv == (|pr: ConfigProperty| (pr.key@, value_model(pr.value))),
            properties@.map_values(mv) + properties_at(cs@, pos as int).0 == all.0,
            properties_at(cs@, pos as int).1 == all.1,
        ensures
            p < start <= pos <= cs@.len(),
            properties@.map_values(mv) + properties_at(cs@, pos as int).0 == all.0,
            properties_at(cs@, pos as int).1 == all.1,
            properties_at(cs@, pos as int).0 == Seq::<(Seq<char>, ValueModel)>::empty(),
            properties_at(cs@, pos as int).1 == pos,
        decreases cs@.len() - pos,
    {
        match parse_config_property(cs, pos) {
            Some((prop, e)) => {
                let ghost pre = properties@.map_values(mv);
                let ghost pm = mv(prop);
                properties.push(prop);
                proof {
                    assert(properties@.map_values(mv) =~= pre.push(pm));
                    assert(pre.push(pm) + properties_at(cs@, e as int).0 =~= pre + (seq![pm] + properties_at(cs@, e as int).0));
                }
                pos = e;
            },
            None => {
                break;
            },
        }
    }
    assert(properties@.map_values(mv) =~= all.0);
    let c = ms_skip(cs, pos);
    if !(c < cs.len() && cs[c] == '}') {
        return None;
    }
    let e = ms_skip(cs, c + 1);
    let cfg = Config { name, properties };
    assert(config_m(cfg).1 =~= properties@.map_values(mv));
    Some((cfg, e))
}

/// Reads `keyword name = <pipeline>` (a named pipeline or a resolver).
fn parse_named_block(cs: &[char], p: usize, keyword: &str) -> (r: Option<(String, Pipeline, usize)>)
    requires
        p <= cs@.len(),
        text_fits(cs@),
        keyword@.len() > 0,
    ensures
        match r {
            Some((n, pl, e)) => named_block_at(cs@, p as int, keyword@) == Some(((n@, steps_m(pl.steps@)), e as int))
                && p < e <= cs@.len(),
            None => named_block_at(cs@, p as int, keyword@) is None,
        },
{
    if !lit_at(cs, p, keyword) {
        return None;
    }
    let k = chars_of(keyword);
    let a = ms_skip(cs, p + k.len());
    let (name, e1) = match parse_identifier(cs, a) {
        Some(x) => x,
        None => {
            return None;
        },
    };
    let b = ms_skip(cs, e1);
    if !(b < cs.len() && cs[b] == '=') {
        return None;
    }
    let c = ms_skip(cs, b + 1);
    let (pipeline, e2) = parse_pipeline(cs, c);
    let e = ms_skip(cs, e2);
    Some((name, pipeline, e))
}

/// Reads `pipeline name = <pipeline>`.
pub fn parse_named_pipeline(cs: &[char], p: usize) -> (r: Option<(NamedPipeline, usize)>)
    requires
        p <= cs@.len(),
        text_fits(cs@),
    ensures
        match r {
            Some((np, e)) => named_block_at(cs@, p as int, "pipeline"@) == Some(((np.name@, steps_m(np.pipeline.steps@)), e as int))
                && p < e <= cs@.len(),
            None => named_block_at(cs@, p as int, "pipeline"@) is None,
        },
{
    proof { reveal_strlit("pipeline"); }
    match parse_named_block(cs, p, "pipeline") {
        Some((name, pipeline, e)) => Some((NamedPipeline { name, pipeline }, e)),
        None => None,
    }
}

/// Reads `query name = <pipeline>`.
pub fn parse_query_resolver(cs: &[char], p: usize) -> (r: Option<(QueryResolver, usize)>)
    requires
        p <= cs@.len(),
        text_fits(cs@),
    ensures
        match r {
            Some((q, e)) => named_block_at(cs@, p as int, "query"@) == Some(((q.name@, steps_m(q.pipeline.steps@)), e as int))
                && p < e <= cs@.len(),
            None => named_block_at(cs@, p as int, "query"@) is None,
        },
{
    proof { reveal_strlit("query"); }
    match parse_named_block(cs, p, "query") {
        Some((name, pipeline, e)) => Some((QueryResolver { name, pipeline }, e)),
        None => None,
    }
}

/// Reads `mutation name = <pipeline>`.
pub fn parse_mutation_resolver(cs: &[char], p: usize) -> (r: Option<(MutationResolver, usize)>)
    requires
        p <= cs@.len(),
        text_fits(cs@),
    ensures
        match r {
            Some((m, e)) => named_block_at(cs@, p as int, "mutation"@) == Some(((m.name@, steps_m(m.pipeline.steps@)), e as int))
                && p < e <= cs@.len(),
            None => named_block_at(cs@, p as int, "mutation"@) is None,
        },
{
    proof { reveal_strlit("mutation"); }
    match parse_named_block(cs, p, "mutation") {
        Some((name, pipeline, e)) => Some((MutationResolver { name, pipeline }, e)),
        None => None,
    }
}

/// Reads `resolver Type.field = <pipeline>`.
pub fn parse_type_resolver(cs: &[char], p: usize) -> (r: Option<(TypeResolver, usize)>)
    requires
        p <= cs@.len(),
        text_fits(cs@),
    ensures
        match r {
            Some((t, e)) => type_resolver_at(cs@, p as int) == Some(((t.object_type@, t.field_name@, steps_m(t.pipeline.steps@)), e as int))
                && p < e <= cs@.len(),
            None => type_resolver_at(cs@, p as int) is None,
        },
{
    proof { reveal_strlit("resolver"); }
    if !lit_at(cs, p, "resolver") {
        return None;
    }
    let a = ms_skip(cs, p + 8);
    let (object_type, e1) = match parse_identifier(cs, a) {
        Some(x) => x,
        None => {
            return None;
        },
    };
    if !(e1 < cs.len() && cs[e1] == '.') {
        return None;
    }
    let (field_name, e2) = match parse_identifier(cs, e1 + 1) {
        Some(x) => x,
        None => {
            return None;
        },
    };
    let b = ms_skip(cs, e2);
    if !(b < cs.len() && cs[b] == '=') {
        return None;
    }
    let c = ms_skip(cs, b + 1);
    let (pipeline, e3) = parse_pipeline(cs, c);
    let e = ms_skip(cs, e3);
    Some((TypeResolver { object_type, field_name, pipeline }, e))
}

/// Reads `featureFlags = <pipeline>`.
pub fn parse_feature_flags(cs: &[char], p: usize) -> (r: Option<(Pipeline, usize)>)
    requires
        p <= cs@.len(),
        text_fits(cs@),
    ensures
        match r {
            Some((pl, e)) => feature_flags_at(cs@, p as int) == Some((steps_m(pl.steps@), e as int)) && p < e <= cs@.len(),
            None => feature_flags_at(cs@, p as int) is None,
        },
{
    proof { reveal_strlit("featureFlags"); }
    if !lit_at(cs, p, "featureFlags") {
        return None;
    }
    let b = ms_skip(cs, p + 12);
    if !(b < cs.len() && cs[b] == '=') {
        return None;
    }
    let c = ms_skip(cs, b + 1);
    let (pipeline, e2) = parse_pipeline(cs, c);
    let e = ms_skip(cs, e2);
    Some((pipeline, e))
}

/// Reads `graphqlSchema = `...``.
pub fn parse_graphql_schema(cs: &[char], p: usize) -> (r: Option<(GraphQLSchema, usize)>)
    requires
        p <= cs@.len(),
    ensures
        match r {
            Some((g, e)) => schema_at(cs@, p as int) == Some((g.sdl@, e as int)) && p < e <= cs@.len(),
            None => schema_at(cs@, p as int) is None,
        },
{
    proof { reveal_strlit("graphqlSchema"); }
    if !lit_at(cs, p, "graphqlSchema") {
        return None;
    }
    let b = ms_skip(cs, p + 13);
    if !(b < cs.len() && cs[b] == '=') {
        return None;
    }
    let c = ms_skip(cs, b + 1);
    match parse_delimited(cs, c, '`') {
        Some((sdl, e1)) => Some((GraphQLSchema { sdl }, ms_skip(cs, e1))),
        None => None,
    }
}

/// Reads `import "path" as alias`, located at its first character.
pub fn parse_import(cs: &[char], p: usize) -> (r: Option<(Import, usize)>)
    requires
        p <= cs@.len(),
        text_fits(cs@),
    ensures
        match r {
            Some((i, e)) => import_at(cs@, p as int) == Some(((i.path@, i.alias@, i.location), e as int)) && p < e <= cs@.len(),
            None => import_at(cs@, p as int) is None,
        },
{
    proof {
        reveal_strlit("import");
        reveal_strlit("as");
    }
    if !lit_at(cs, p, "import") {
        return None;
    }
    let a = ms_skip(cs, p + 6);
    let (path, e1) = match parse_delimited(cs, a, '"') {
        Some(x) => x,
        None => {
            return None;
        },
    };
    let b = ms_skip(cs, e1);
    if !lit_at(cs, b, "as") {
        return None;
    }
    let c = ms_skip(cs, b + 2);
    let (alias, e2) = match parse_identifier(cs, c) {
        Some(x) => x,
        None => {
            return None;
        },
    };
    let e = ms_skip(cs, e2);
    let location = location_at(cs, p);
    Some((Import { path, alias, location }, e))
}

/// Reads a variable: `kind name = `value``.
pub fn parse_variable(cs: &[char], p: usize) -> (r: Option<(Variable, usize)>)
    requires
        p <= cs@.len(),
    ensures
        match r {
            Some((v, e)) => variable_at(cs@, p as int) == Some(((v.var_type@, v.name@, v.value@), e as int)) && p < e <= cs@.len(),
            None => variable_at(cs@, p as int) is None,
        },
{
    let (var_type, e1) = match parse_identifier(cs, p) {
        Some(x) => x,
        None => {
            return None;
        },
    };
    let a = ms_skip(cs, e1);
    let (name, e2) = match parse_identifier(cs, a) {
        Some(x) => x,
        None => {
            return None;
        },
    };
    let b = ms_skip(cs, e2);
    if !(b < cs.len() && cs[b] == '=') {
        return None;
    }
    let c = ms_skip(cs, b + 1);
    match parse_delimited(cs, c, '`') {
        Some((value, e3)) => Some((Variable { var_type, name, value }, ms_skip(cs, e3))),
        None => None,
    }
}

/// Reads a route: `METHOD /path` and its pipeline.
pub fn parse_route(cs: &[char], p: usize) -> (r: Option<(Route, usize)>)
    requires
        p <= cs@.len(),
        text_fits(cs@),
    ensures
        match r {
            Some((rt, e)) => route_at(cs@, p as int) matches Some((m, f)) && m.0 == rt.method@ && m.1 == rt.path@
                && route_steps(rt.pipeline) == Some(m.2) && f == e && p < e <= cs@.len(),
            None => route_at(cs@, p as int) is None,
        },
{
    let (method, e1) = match parse_method(cs, p) {
        Some(x) => x,
        None => {
            return None;
        },
    };
    let a = ms_skip(cs, e1);
    let (path, e2) = match take_till1(cs, a, ' ', '\n') {
        Some(x) => x,
        None => {
            return None;
        },
    };
    let b = ms_skip(cs, e2);
    let (pipeline, e3) = parse_pipeline(cs, b);
    let e = ms_skip(cs, e3);
    Some((Route { method, path, pipeline: PipelineRef::Inline(pipeline) }, e))
}

} // verus!
