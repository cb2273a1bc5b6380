//! The grammar of pipelines and their control-flow steps, as spec
//! functions over the text: what the step parsers read at each position.

use vstd::prelude::*;
use crate::ast::{PipelineStep, Pipeline, ResultBranch, ResultBranchType, DispatchBranch, SourceLocation, TagExpr};
use crate::parser::{Parsed, ms_end, wc_end, ident_at, or_at, regular_at, regular_model, location_spec, ExprModel,
    expr_model, lemma_ms_end, char_at, till_end, lemma_till_end, config_value_at, ValueModel, value_model,
    delimited_at, method_at, till1_at};
use crate::ast::{Config, ConfigProperty, Import, Variable, Route, PipelineRef, NamedPipeline, QueryResolver,
    MutationResolver, TypeResolver, GraphQLSchema};
use crate::schema::{digits_end, lemma_digits_end};
use crate::text::{occurs_at, trim, digits_value, char_index};

verus! {

/// The model of a regular step: name, arguments, configuration and its
/// kind, condition, join targets, location.
pub type RegularM = (Seq<char>, Seq<Seq<char>>, Seq<char>, int, Option<ExprModel>, Option<Seq<Seq<char>>>, SourceLocation);

/// The kind of a result branch.
pub enum KindM {
    Success,
    Default,
    Custom(Seq<char>),
}

/// The model of a step.
pub enum StepM {
    Regular(RegularM),
    Result(Seq<BranchM>, SourceLocation),
    If(Seq<StepM>, Seq<StepM>, Option<Seq<StepM>>, SourceLocation),
    Dispatch(Seq<CaseM>, Option<Seq<StepM>>, SourceLocation),
    Foreach(Seq<char>, Seq<StepM>, SourceLocation),
}

/// The model of a result branch: kind, status, steps, location.
pub struct BranchM {
    pub kind: KindM,
    pub status: int,
    pub steps: Seq<StepM>,
    pub location: SourceLocation,
}

/// The model of a dispatch case: condition, steps, location.
pub struct CaseM {
    pub cond: ExprModel,
    pub steps: Seq<StepM>,
    pub location: SourceLocation,
}

/// What reading a construct at a position gives.
pub enum Reading<T> {
    /// The construct and the position after it.
    Read(T, int),
    /// Nothing of the kind here.
    No,
    /// The construct is there but malformed.
    Fail,
}

/// The model of a branch kind.
pub open spec fn kind_m(t: ResultBranchType) -> KindM {
    match t {
        ResultBranchType::Success => KindM::Success,
        ResultBranchType::Default => KindM::Default,
        ResultBranchType::Custom(c) => KindM::Custom(c@),
    }
}

/// The model of a step.
pub open spec fn step_m(s: PipelineStep) -> StepM
    decreases s,
{
    match s {
        PipelineStep::Regular { .. } => StepM::Regular(regular_model(s)->0),
        PipelineStep::Result { branches, location } => StepM::Result(branches_m(branches@), location),
        PipelineStep::If { condition, then_branch, else_branch, location } => StepM::If(
            steps_m(condition.steps@),
            steps_m(then_branch.steps@),
            match else_branch {
                Some(e) => Some(steps_m(e.steps@)),
                None => None,
            },
            location,
        ),
        PipelineStep::Dispatch { branches, default, location } => StepM::Dispatch(
            cases_m(branches@),
            match default {
                Some(d) => Some(steps_m(d.steps@)),
                None => None,
            },
            location,
        ),
        PipelineStep::Foreach { selector, pipeline, location } => StepM::Foreach(
            selector@,
            steps_m(pipeline.steps@),
            location,
        ),
    }
}

/// The models of a sequence of steps.
pub open spec fn steps_m(v: Seq<PipelineStep>) -> Seq<StepM>
    decreases v,
{
    if v.len() == 0 {
        Seq::empty()
    } else {
        steps_m(v.drop_last()).push(step_m(v.last()))
    }
}

/// The models of result branches.
pub open spec fn branches_m(v: Seq<ResultBranch>) -> Seq<BranchM>
    decreases v,
{
    if v.len() == 0 {
        Seq::empty()
    } else {
        branches_m(v.drop_last()).push(BranchM {
            kind: kind_m(v.last().branch_type),
            status: v.last().status_code as int,
            steps: steps_m(v.last().pipeline.steps@),
            location: v.last().location,
        })
    }
}

/// The models of dispatch cases.
pub open spec fn cases_m(v: Seq<DispatchBranch>) -> Seq<CaseM>
    decreases v,
{
    if v.len() == 0 {
        Seq::empty()
    } else {
        cases_m(v.drop_last()).push(CaseM {
            cond: expr_model(v.last().condition),
            steps: steps_m(v.last().pipeline.steps@),
            location: v.last().location,
        })
    }
}

/// `wc_end` stays within `[p, len]`.
pub proof fn lemma_wc_end(cs: Seq<char>, p: int)
    requires
        0 <= p <= cs.len(),
    ensures
        p <= wc_end(cs, p) <= cs.len(),
    decreases cs.len() - p,
{
    lemma_ms_end(cs, p);
    let q = ms_end(cs, p);
    if q < cs.len() && q >= p && cs[q] == '#' {
        crate::text::lemma_char_index(cs.skip(q), '\n');
        match char_index(cs.skip(q), '\n') {
            Some(k) => {
                if k >= 0 {
                    lemma_wc_end(cs, q + k + 1);
                }
            },
            None => {},
        }
    }
}

/// The kind of a result branch named `name`.
pub open spec fn kind_of_name(name: Seq<char>) -> KindM {
    if name == "ok"@ {
        KindM::Success
    } else if name == "default"@ {
        KindM::Default
    } else {
        KindM::Custom(name)
    }
}

/// The steps of a pipeline at `p`, as many as follow, and the position
/// after the last (before the whitespace after it).
pub open spec fn pipeline_at(cs: Seq<char>, p: int) -> (Seq<StepM>, int)
    decreases cs.len() - p, 2int,
{
    if p < 0 || p > cs.len() {
        (Seq::empty(), p)
    } else {
        let q = wc_end(cs, p);
        proof { lemma_wc_end(cs, p); }
        match step_at(cs, q) {
            Reading::Read(s, e) => if q < e <= cs.len() {
                let (rest, f) = pipeline_at(cs, e);
                (seq![s] + rest, f)
            } else {
                (Seq::empty(), p)
            },
            _ => (Seq::empty(), p),
        }
    }
}

/// A step at `p`: a result, if, dispatch or foreach step, else a regular
/// step.
pub open spec fn step_at(cs: Seq<char>, p: int) -> Reading<StepM>
    decreases cs.len() - p, 1int,
{
    if p < 0 || p > cs.len() {
        Reading::No
    } else {
        match result_at(cs, p) {
            Reading::No => match if_at(cs, p) {
                Reading::No => match dispatch_at(cs, p) {
                    Reading::No => match foreach_at(cs, p) {
                        Reading::No => match regular_at(cs, p) {
                            Some((m, e)) => Reading::Read(StepM::Regular(m), e),
                            None => Reading::No,
                        },
                        other => other,
                    },
                    other => other,
                },
                other => other,
            },
            other => other,
        }
    }
}

/// The keyword of a step after `|>` at position `q`: the position after
/// the keyword when `|>`, spaces and `kw` are there.
pub open spec fn step_head(cs: Seq<char>, q: int, kw: Seq<char>) -> Option<int> {
    if occurs_at(cs, "|>"@, q) && occurs_at(cs, kw, ms_end(cs, q + 2)) {
        Some(ms_end(cs, q + 2) + kw.len())
    } else {
        None
    }
}

/// `|> result` and its branches.
pub open spec fn result_at(cs: Seq<char>, p: int) -> Reading<StepM>
    decreases cs.len() - p, 0int,
{
    if p < 0 || p > cs.len() {
        Reading::No
    } else {
        let q = wc_end(cs, p);
        proof {
            reveal_strlit("|>");
            reveal_strlit("result");
            reveal_strlit("if");
            reveal_strlit("dispatch");
            reveal_strlit("foreach");
            lemma_wc_end(cs, p);
            if occurs_at(cs, "|>"@, q) {
                lemma_ms_end(cs, q + 2);
            }
        }
        match step_head(cs, q, "result"@) {
            None => Reading::No,
            Some(x) => {
                proof { lemma_wc_end(cs, x); }
                match branches_at(cs, wc_end(cs, x)) {
                    Reading::Read(bs, e) => Reading::Read(StepM::Result(bs, location_spec(cs, q)), e),
                    Reading::No => Reading::No,
                    Reading::Fail => Reading::Fail,
                }
            },
        }
    }
}

/// Result branches from `p`: as many as follow; a malformed one fails.
pub open spec fn branches_at(cs: Seq<char>, p: int) -> Reading<Seq<BranchM>>
    decreases cs.len() - p, 1int,
{
    if p < 0 || p > cs.len() {
        Reading::Read(Seq::empty(), p)
    } else {
        match branch_at(cs, p) {
            Reading::Read(b, e) => if p < e <= cs.len() {
                match branches_at(cs, e) {
                    Reading::Read(bs, f) => Reading::Read(seq![b] + bs, f),
                    Reading::No => Reading::No,
                    Reading::Fail => Reading::Fail,
                }
            } else {
                Reading::Read(Seq::empty(), p)
            },
            Reading::No => Reading::Read(Seq::empty(), p),
            Reading::Fail => Reading::Fail,
        }
    }
}

/// A result branch at `p`: `kind(status): <pipeline>`; a status that
/// does not fit 16 bits fails.
pub open spec fn branch_at(cs: Seq<char>, p: int) -> Reading<BranchM>
    decreases cs.len() - p, 0int,
{
    if p < 0 || p > cs.len() {
        Reading::No
    } else {
        let q = wc_end(cs, p);
        proof { lemma_wc_end(cs, p); }
        match ident_at(cs, q) {
            None => Reading::No,
            Some((name, e1)) => if char_at(cs, e1) != Some('(') {
                Reading::No
            } else {
                let e2 = digits_end(cs, e1 + 1);
                if e2 == e1 + 1 {
                    Reading::No
                } else if digits_value(cs.subrange(e1 + 1, e2)) > 65535 {
                    Reading::Fail
                } else if char_at(cs, e2) != Some(')') || char_at(cs, e2 + 1) != Some(':') {
                    Reading::No
                } else {
                    proof {
                        crate::parser::lemma_ident_end(cs, q + 1);
                        lemma_digits_end(cs, e1 + 1);
                        lemma_ms_end(cs, e2 + 2);
                    }
                    let (steps, e) = pipeline_at(cs, ms_end(cs, e2 + 2));
                    Reading::Read(BranchM {
                        kind: kind_of_name(name),
                        status: digits_value(cs.subrange(e1 + 1, e2)) as int,
                        steps,
                        location: location_spec(cs, q),
                    }, e)
                }
            },
        }
    }
}

/// The end of an optional `else:` part at `pos`, and its steps.
pub open spec fn else_part(cs: Seq<char>, pos: int) -> (Option<Seq<StepM>>, int)
    decreases cs.len() - pos, 3int,
{
    if 0 <= pos <= cs.len() && occurs_at(cs, "else:"@, pos) {
        proof {
            reveal_strlit("else:");
            lemma_wc_end(cs, pos + 5);
        }
        let (pl, e) = pipeline_at(cs, wc_end(cs, pos + 5));
        (Some(pl), e)
    } else {
        (None, pos)
    }
}

/// After an optional `end` keyword (following whitespace and comments).
pub open spec fn after_end(cs: Seq<char>, pos: int) -> int {
    if occurs_at(cs, "end"@, wc_end(cs, pos)) {
        wc_end(cs, pos) + 3
    } else {
        wc_end(cs, pos)
    }
}

/// `|> if <pipeline> then: <pipeline> [else: <pipeline>] [end]`.
pub open spec fn if_at(cs: Seq<char>, p: int) -> Reading<StepM>
    decreases cs.len() - p, 0int,
{
    if p < 0 || p > cs.len() {
        Reading::No
    } else {
        let q = wc_end(cs, p);
        proof {
            reveal_strlit("|>");
            reveal_strlit("result");
            reveal_strlit("if");
            reveal_strlit("dispatch");
            reveal_strlit("foreach");
            lemma_wc_end(cs, p);
            if occurs_at(cs, "|>"@, q) {
                lemma_ms_end(cs, q + 2);
            }
        }
        match step_head(cs, q, "if"@) {
            None => Reading::No,
            Some(x) => {
                proof { lemma_wc_end(cs, x); }
                let (cond, e1) = pipeline_at(cs, wc_end(cs, x));
                let t0 = wc_end(cs, e1);
                if !(wc_end(cs, x) <= e1 <= cs.len()) || !occurs_at(cs, "then:"@, t0) {
                    Reading::No
                } else {
                    proof {
                        reveal_strlit("then:");
                        lemma_wc_end(cs, e1);
                        lemma_wc_end(cs, t0 + 5);
                    }
                    let (then_steps, e2) = pipeline_at(cs, wc_end(cs, t0 + 5));
                    if !(wc_end(cs, t0 + 5) <= e2 <= cs.len()) {
                        Reading::No
                    } else {
                        proof { lemma_wc_end(cs, e2); }
                        let (els, e3) = else_part(cs, wc_end(cs, e2));
                        Reading::Read(StepM::If(cond, then_steps, els, location_spec(cs, q)), after_end(cs, e3))
                    }
                }
            },
        }
    }
}

/// Dispatch cases from `p`, as many as follow.
pub open spec fn cases_at(cs: Seq<char>, p: int) -> (Seq<CaseM>, int)
    decreases cs.len() - p, 1int,
{
    if p < 0 || p > cs.len() {
        (Seq::empty(), p)
    } else {
        match case_at(cs, p) {
            Reading::Read(c, e) => if p < e <= cs.len() {
                let (cs2, f) = cases_at(cs, e);
                (seq![c] + cs2, f)
            } else {
                (Seq::empty(), p)
            },
            _ => (Seq::empty(), p),
        }
    }
}

/// A dispatch case at `p`: `case <tag expression>: <pipeline>`.
pub open spec fn case_at(cs: Seq<char>, p: int) -> Reading<CaseM>
    decreases cs.len() - p, 0int,
{
    if p < 0 || p > cs.len() {
        Reading::No
    } else {
        let q = wc_end(cs, p);
        proof { lemma_wc_end(cs, p); }
        if !occurs_at(cs, "case"@, q) {
            Reading::No
        } else {
            proof {
                reveal_strlit("case");
                lemma_ms_end(cs, q + 4);
            }
            match or_at(cs, ms_end(cs, q + 4)) {
                None => Reading::No,
                Some((cond, e1)) => {
                    let c = ms_end(cs, e1);
                    if !(0 <= e1 <= cs.len()) || char_at(cs, c) != Some(':') {
                        Reading::No
                    } else {
                        proof {
                            lemma_ms_end(cs, e1);
                            lemma_wc_end(cs, c + 1);
                        }
                        if c + 1 <= p {
                            Reading::No
                        } else {
                            let (steps, e) = pipeline_at(cs, wc_end(cs, c + 1));
                            Reading::Read(CaseM { cond, steps, location: location_spec(cs, q) }, e)
                        }
                    }
                },
            }
        }
    }
}

/// An optional `default:` part at `d0`; the end position is `pos` when
/// there is none.
pub open spec fn default_part(cs: Seq<char>, d0: int, pos: int) -> (Option<Seq<StepM>>, int)
    decreases cs.len() - d0, 3int,
{
    if 0 <= d0 <= cs.len() && occurs_at(cs, "default:"@, d0) {
        proof {
            reveal_strlit("default:");
            lemma_wc_end(cs, d0 + 8);
        }
        let (pl, e) = pipeline_at(cs, wc_end(cs, d0 + 8));
        (Some(pl), e)
    } else {
        (None, pos)
    }
}

/// `|> dispatch`, its cases, an optional `default:` and an optional `end`.
pub open spec fn dispatch_at(cs: Seq<char>, p: int) -> Reading<StepM>
    decreases cs.len() - p, 0int,
{
    if p < 0 || p > cs.len() {
        Reading::No
    } else {
        let q = wc_end(cs, p);
        proof {
            reveal_strlit("|>");
            reveal_strlit("result");
            reveal_strlit("if");
            reveal_strlit("dispatch");
            reveal_strlit("foreach");
            lemma_wc_end(cs, p);
            if occurs_at(cs, "|>"@, q) {
                lemma_ms_end(cs, q + 2);
            }
        }
        match step_head(cs, q, "dispatch"@) {
            None => Reading::No,
            Some(x) => {
                proof { lemma_wc_end(cs, x); }
                let (cases, pos) = cases_at(cs, wc_end(cs, x));
                if !(wc_end(cs, x) <= pos <= cs.len()) {
                    Reading::No
                } else {
                    proof { lemma_wc_end(cs, pos); }
                    let (dflt, e) = default_part(cs, wc_end(cs, pos), pos);
                    Reading::Read(StepM::Dispatch(cases, dflt, location_spec(cs, q)), after_end(cs, e))
                }
            },
        }
    }
}

/// `|> foreach <selector>`, its pipeline and `end`; the selector is the
/// trimmed rest of the line up to a comment.
pub open spec fn foreach_at(cs: Seq<char>, p: int) -> Reading<StepM>
    decreases cs.len() - p, 0int,
{
    if p < 0 || p > cs.len() {
        Reading::No
    } else {
        let q = wc_end(cs, p);
        proof {
            reveal_strlit("|>");
            reveal_strlit("result");
            reveal_strlit("if");
            reveal_strlit("dispatch");
            reveal_strlit("foreach");
            lemma_wc_end(cs, p);
            if occurs_at(cs, "|>"@, q) {
                lemma_ms_end(cs, q + 2);
            }
        }
        match step_head(cs, q, "foreach"@) {
            None => Reading::No,
            Some(s0) => {
                let s1 = ms_end(cs, s0);
                proof {
                    lemma_ms_end(cs, s0);
                    lemma_till_end(cs, s1, '\n', '#');
                }
                let s2 = till_end(cs, s1, '\n', '#');
                if s1 == s0 || s2 == s1 {
                    Reading::No
                } else {
                    proof { lemma_wc_end(cs, s2); }
                    let (steps, e1) = pipeline_at(cs, wc_end(cs, s2));
                    let z = wc_end(cs, e1);
                    if !(0 <= e1 <= cs.len()) || !occurs_at(cs, "end"@, z) {
                        Reading::No
                    } else {
                        Reading::Read(StepM::Foreach(trim(cs.subrange(s1, s2)), steps, location_spec(cs, q)), z + 3)
                    }
                }
            },
        }
    }
}

/// The reading a step parser's result stands for.
pub open spec fn step_reading(r: Parsed<PipelineStep>) -> Reading<StepM> {
    match r {
        Parsed::Done(s, e) => Reading::Read(step_m(s), e as int),
        Parsed::Error => Reading::No,
        Parsed::Failure => Reading::Fail,
    }
}

/// The reading a result branch parser's result stands for.
pub open spec fn branch_reading(r: Parsed<ResultBranch>) -> Reading<BranchM> {
    match r {
        Parsed::Done(b, e) => Reading::Read(BranchM {
            kind: kind_m(b.branch_type),
            status: b.status_code as int,
            steps: steps_m(b.pipeline.steps@),
            location: b.location,
        }, e as int),
        Parsed::Error => Reading::No,
        Parsed::Failure => Reading::Fail,
    }
}

/// The reading a dispatch case parser's result stands for.
pub open spec fn case_reading(r: Parsed<DispatchBranch>) -> Reading<CaseM> {
    match r {
        Parsed::Done(b, e) => Reading::Read(CaseM {
            cond: expr_model(b.condition),
            steps: steps_m(b.pipeline.steps@),
            location: b.location,
        }, e as int),
        Parsed::Error => Reading::No,
        Parsed::Failure => Reading::Fail,
    }
}


/// A config property at `p`: `key: value` (leading whitespace allowed).
pub open spec fn property_at(cs: Seq<char>, p: int) -> Option<((Seq<char>, ValueModel), int)> {
    match ident_at(cs, ms_end(cs, p)) {
        None => None,
        Some((key, e1)) => {
            let c = ms_end(cs, e1);
            if char_at(cs, c) == Some(':') {
                match config_value_at(cs, ms_end(cs, c + 1)) {
                    Some((v, e)) => Some(((key, v), e)),
                    None => None,
                }
            } else {
                None
            }
        },
    }
}

/// Config properties from `p`, as many as follow.
pub open spec fn properties_at(cs: Seq<char>, p: int) -> (Seq<(Seq<char>, ValueModel)>, int)
    decreases cs.len() - p,
{
    if p < 0 || p > cs.len() {
        (Seq::empty(), p)
    } else {
        match property_at(cs, p) {
            Some((pr, e)) => if p < e <= cs.len() {
                let (rest, f) = properties_at(cs, e);
                (seq![pr] + rest, f)
            } else {
                (Seq::empty(), p)
            },
            None => (Seq::empty(), p),
        }
    }
}

/// The model of a config block: its name and properties.
pub open spec fn config_m(c: Config) -> (Seq<char>, Seq<(Seq<char>, ValueModel)>) {
    (c.name@, c.properties@.map_values(|pr: ConfigProperty| (pr.key@, value_model(pr.value))))
}

/// `config name { key: value ... }` at `p`, and the position after the
/// whitespace that follows.
pub open spec fn config_at(cs: Seq<char>, p: int) -> Option<((Seq<char>, Seq<(Seq<char>, ValueModel)>), int)> {
    if !occurs_at(cs, "config"@, p) {
        None
    } else {
        match ident_at(cs, ms_end(cs, p + 6)) {
            None => None,
            Some((name, e1)) => {
                let b = ms_end(cs, e1);
                if char_at(cs, b) != Some('{') {
                    None
                } else {
                    let (props, pos) = properties_at(cs, ms_end(cs, b + 1));
                    let c = ms_end(cs, pos);
                    if char_at(cs, c) == Some('}') {
                        Some(((name, props), ms_end(cs, c + 1)))
                    } else {
                        None
                    }
                }
            },
        }
    }
}

/// `kw name = <pipeline>` at `p`: the name, the steps, and the position
/// after the whitespace that follows.
pub open spec fn named_block_at(cs: Seq<char>, p: int, kw: Seq<char>) -> Option<((Seq<char>, Seq<StepM>), int)> {
    if !occurs_at(cs, kw, p) {
        None
    } else {
        match ident_at(cs, ms_end(cs, p + kw.len())) {
            None => None,
            Some((name, e1)) => {
                let b = ms_end(cs, e1);
                if char_at(cs, b) != Some('=') {
                    None
                } else {
                    let (steps, e2) = pipeline_at(cs, ms_end(cs, b + 1));
                    Some(((name, steps), ms_end(cs, e2)))
                }
            },
        }
    }
}

/// `resolver Type.field = <pipeline>` at `p`.
pub open spec fn type_resolver_at(cs: Seq<char>, p: int) -> Option<((Seq<char>, Seq<char>, Seq<StepM>), int)> {
    if !occurs_at(cs, "resolver"@, p) {
        None
    } else {
        match ident_at(cs, ms_end(cs, p + 8)) {
            None => None,
            Some((t, e1)) => if char_at(cs, e1) != Some('.') {
                None
            } else {
                match ident_at(cs, e1 + 1) {
                    None => None,
                    Some((f, e2)) => {
                        let b = ms_end(cs, e2);
                        if char_at(cs, b) != Some('=') {
                            None
                        } else {
                            let (steps, e3) = pipeline_at(cs, ms_end(cs, b + 1));
                            Some(((t, f, steps), ms_end(cs, e3)))
                        }
                    },
                }
            },
        }
    }
}

/// `featureFlags = <pipeline>` at `p`.
pub open spec fn feature_flags_at(cs: Seq<char>, p: int) -> Option<(Seq<StepM>, int)> {
    if !occurs_at(cs, "featureFlags"@, p) {
        None
    } else {
        let b = ms_end(cs, p + 12);
        if char_at(cs, b) != Some('=') {
            None
        } else {
            let (steps, e) = pipeline_at(cs, ms_end(cs, b + 1));
            Some((steps, ms_end(cs, e)))
        }
    }
}

/// `graphqlSchema = `...`` at `p`.
pub open spec fn schema_at(cs: Seq<char>, p: int) -> Option<(Seq<char>, int)> {
    if !occurs_at(cs, "graphqlSchema"@, p) {
        None
    } else {
        let b = ms_end(cs, p + 13);
        if char_at(cs, b) != Some('=') {
            None
        } else {
            match delimited_at(cs, ms_end(cs, b + 1), '`') {
                Some((sdl, e)) => Some((sdl, ms_end(cs, e))),
                None => None,
            }
        }
    }
}

/// `import "path" as alias` at `p`: path, alias, and the location of `p`.
pub open spec fn import_at(cs: Seq<char>, p: int) -> Option<((Seq<char>, Seq<char>, SourceLocation), int)> {
    if !occurs_at(cs, "import"@, p) {
        None
    } else {
        match delimited_at(cs, ms_end(cs, p + 6), '"') {
            None => None,
            Some((path, e1)) => {
                let b = ms_end(cs, e1);
                if !occurs_at(cs, "as"@, b) {
                    None
                } else {
                    match ident_at(cs, ms_end(cs, b + 2)) {
                        Some((alias, e2)) => Some(((path, alias, location_spec(cs, p)), ms_end(cs, e2))),
                        None => None,
                    }
                }
            },
        }
    }
}

/// `kind name = `value`` at `p`.
pub open spec fn variable_at(cs: Seq<char>, p: int) -> Option<((Seq<char>, Seq<char>, Seq<char>), int)> {
    match ident_at(cs, p) {
        None => None,
        Some((t, e1)) => match ident_at(cs, ms_end(cs, e1)) {
            None => None,
            Some((name, e2)) => {
                let b = ms_end(cs, e2);
                if char_at(cs, b) != Some('=') {
                    None
                } else {
                    match delimited_at(cs, ms_end(cs, b + 1), '`') {
                        Some((v, e3)) => Some(((t, name, v), ms_end(cs, e3))),
                        None => None,
                    }
                }
            },
        },
    }
}

/// `METHOD path` and an inline pipeline at `p`.
pub open spec fn route_at(cs: Seq<char>, p: int) -> Option<((Seq<char>, Seq<char>, Seq<StepM>), int)> {
    match method_at(cs, p) {
        None => None,
        Some((m, e1)) => match till1_at(cs, ms_end(cs, e1), ' ', '\n') {
            None => None,
            Some((path, e2)) => {
                let (steps, e3) = pipeline_at(cs, ms_end(cs, e2));
                Some(((m, path, steps), ms_end(cs, e3)))
            },
        },
    }
}

/// The model of a route's pipeline (`None` for a named reference).
pub open spec fn route_steps(r: PipelineRef) -> Option<Seq<StepM>> {
    match r {
        PipelineRef::Inline(p) => Some(steps_m(p.steps@)),
        PipelineRef::Named(_) => None,
    }
}

} // verus!
