//! Reading a whole program: its top-level declarations in any order.

use vstd::prelude::*;
use crate::ast::{Program, Config, Import, NamedPipeline, Variable, Route, Describe, GraphQLSchema, QueryResolver,
    MutationResolver, TypeResolver, Pipeline};
use crate::parser::{ms_skip, text_fits, take_till1, parse_config, parse_import, parse_feature_flags,
    parse_graphql_schema, parse_query_resolver, parse_mutation_resolver, parse_type_resolver, parse_named_pipeline,
    parse_variable, parse_route};
use crate::describe::{parse_describe, describe_at, describe_m, ItM};
use crate::grammar::{StepM, steps_m, config_m, config_at, named_block_at, type_resolver_at, feature_flags_at, schema_at,
    import_at, variable_at, route_at, route_steps};
use crate::parser::{ms_end, till1_at, lemma_ms_end, ValueModel};
use crate::ast::SourceLocation;
use crate::text::{chars_of, string_of, slice_chars, str_eq};

verus! {

broadcast use vstd::std_specs::vec::group_vec_axioms;

/// No two imports share an alias.
pub open spec fn aliases_distinct(imports: Seq<Import>) -> bool {
    forall|i: int, j: int| 0 <= i < j < imports.len() ==> imports[i].alias@ != imports[j].alias@
}

/// `rest` is what is left of `text` after some prefix.
pub open spec fn is_rest_of(rest: Seq<char>, text: Seq<char>) -> bool {
    rest.len() <= text.len() && rest == text.skip(text.len() - rest.len())
}

/// Whether some import in `imports` has the alias `alias`.
fn alias_taken(imports: &Vec<Import>, alias: &String) -> (b: bool)
    ensures
        b == exists|i: int| 0 <= i < imports@.len() && #[trigger] imports@[i].alias@ == alias@,
{
    let mut k: usize = 0;
    while k < imports.len()
        invariant
            k <= imports@.len(),
            forall|i: int| 0 <= i < k ==> #[trigger] imports@[i].alias@ != alias@,
        decreases imports@.len() - k,
    {
        if str_eq(imports[k].alias.as_str(), alias.as_str()) {
            return true;
        }
        k = k + 1;
    }
    false
}

/// The model of a program: each kind of declaration in source order.
#[verifier::ext_equal]
pub struct ProgM {
    pub configs: Seq<(Seq<char>, Seq<(Seq<char>, ValueModel)>)>,
    pub imports: Seq<(Seq<char>, Seq<char>, SourceLocation)>,
    pub pipelines: Seq<(Seq<char>, Seq<StepM>)>,
    pub variables: Seq<(Seq<char>, Seq<char>, Seq<char>)>,
    pub routes: Seq<(Seq<char>, Seq<char>, Option<Seq<StepM>>)>,
    pub describes: Seq<(Seq<char>, Seq<(Seq<char>, Seq<char>, int)>, Seq<(Seq<char>, Seq<char>)>, Seq<ItM>)>,
    pub schema: Option<Seq<char>>,
    pub queries: Seq<(Seq<char>, Seq<StepM>)>,
    pub mutations: Seq<(Seq<char>, Seq<StepM>)>,
    pub resolvers: Seq<(Seq<char>, Seq<char>, Seq<StepM>)>,
    pub flags: Option<Seq<StepM>>,
}

/// The model of a `Program`.
pub open spec fn program_m(p: Program) -> ProgM {
    ProgM {
        configs: p.configs@.map_values(|c: Config| config_m(c)),
        imports: p.imports@.map_values(|i: Import| (i.path@, i.alias@, i.location)),
        pipelines: p.pipelines@.map_values(|n: NamedPipeline| (n.name@, steps_m(n.pipeline.steps@))),
        variables: p.variables@.map_values(|v: Variable| (v.var_type@, v.name@, v.value@)),
        routes: p.routes@.map_values(|r: Route| (r.method@, r.path@, route_steps(r.pipeline))),
        describes: p.describes@.map_values(|d: Describe| describe_m(d)),
        schema: match p.graphql_schema {
            Some(g) => Some(g.sdl@),
            None => None,
        },
        queries: p.queries@.map_values(|q: QueryResolver| (q.name@, steps_m(q.pipeline.steps@))),
        mutations: p.mutations@.map_values(|m: MutationResolver| (m.name@, steps_m(m.pipeline.steps@))),
        resolvers: p.resolvers@.map_values(|t: TypeResolver| (t.object_type@, t.field_name@, steps_m(t.pipeline.steps@))),
        flags: match p.feature_flags {
            Some(f) => Some(steps_m(f.steps@)),
            None => None,
        },
    }
}

/// A program with no declarations.
pub open spec fn empty_m() -> ProgM {
    ProgM {
        configs: Seq::empty(),
        imports: Seq::empty(),
        pipelines: Seq::empty(),
        variables: Seq::empty(),
        routes: Seq::empty(),
        describes: Seq::empty(),
        schema: None,
        queries: Seq::empty(),
        mutations: Seq::empty(),
        resolvers: Seq::empty(),
        flags: None,
    }
}

/// One top-level declaration, or a skipped line.
pub enum TopM {
    Config((Seq<char>, Seq<(Seq<char>, ValueModel)>)),
    Import((Seq<char>, Seq<char>, SourceLocation)),
    Flags(Seq<StepM>),
    Schema(Seq<char>),
    Query((Seq<char>, Seq<StepM>)),
    Mutation((Seq<char>, Seq<StepM>)),
    Resolver((Seq<char>, Seq<char>, Seq<StepM>)),
    Pipeline((Seq<char>, Seq<StepM>)),
    Variable((Seq<char>, Seq<char>, Seq<char>)),
    Route((Seq<char>, Seq<char>, Seq<StepM>)),
    Describe((Seq<char>, Seq<(Seq<char>, Seq<char>, int)>, Seq<(Seq<char>, Seq<char>)>, Seq<ItM>)),
    Skip,
}

/// What stands at `s`: the first kind of declaration that reads there, in
/// the order config, import, feature flags, schema, query, mutation,
/// resolver, pipeline, variable, route, test block; else the rest of the
/// line, skipped; `None` at a line break.
#[verifier::opaque]
pub open spec fn top_at(cs: Seq<char>, s: int) -> Option<(TopM, int)> {
    match config_at(cs, s) {
        Some((c, e)) => Some((TopM::Config(c), e)),
        None => match import_at(cs, s) {
            Some((i, e)) => Some((TopM::Import(i), e)),
            None => match feature_flags_at(cs, s) {
                Some((f, e)) => Some((TopM::Flags(f), e)),
                None => match schema_at(cs, s) {
                    Some((g, e)) => Some((TopM::Schema(g), e)),
                    None => match named_block_at(cs, s, "query"@) {
                        Some((q, e)) => Some((TopM::Query(q), e)),
                        None => match named_block_at(cs, s, "mutation"@) {
                            Some((m, e)) => Some((TopM::Mutation(m), e)),
                            None => match type_resolver_at(cs, s) {
                                Some((t, e)) => Some((TopM::Resolver(t), e)),
                                None => match named_block_at(cs, s, "pipeline"@) {
                                    Some((n, e)) => Some((TopM::Pipeline(n), e)),
                                    None => match variable_at(cs, s) {
                                        Some((v, e)) => Some((TopM::Variable(v), e)),
                                        None => match route_at(cs, s) {
                                            Some((r, e)) => Some((TopM::Route(r), e)),
                                            None => match describe_at(cs, s) {
                                                Some((d, e)) => Some((TopM::Describe(d), e)),
                                                None => match till1_at(cs, s, '\n', '\n') {
                                                    Some((_, e)) => Some((TopM::Skip, e)),
                                                    None => None,
                                                },
                                            },
                                        },
                                    },
                                },
                            },
                        },
                    },
                },
            },
        },
    }
}

/// Whether some import in `imports` has the alias `alias`.
pub open spec fn alias_in(imports: Seq<(Seq<char>, Seq<char>, SourceLocation)>, alias: Seq<char>) -> bool {
    exists|i: int| 0 <= i < imports.len() && #[trigger] imports[i].1 == alias
}

/// The program `st` with one more declaration.
pub open spec fn add_top(st: ProgM, t: TopM) -> ProgM {
    match t {
        TopM::Config(c) => ProgM { configs: st.configs.push(c), ..st },
        TopM::Import(i) => ProgM { imports: st.imports.push(i), ..st },
        TopM::Flags(f) => ProgM { flags: Some(f), ..st },
        TopM::Schema(g) => ProgM { schema: Some(g), ..st },
        TopM::Query(q) => ProgM { queries: st.queries.push(q), ..st },
        TopM::Mutation(m) => ProgM { mutations: st.mutations.push(m), ..st },
        TopM::Resolver(r) => ProgM { resolvers: st.resolvers.push(r), ..st },
        TopM::Pipeline(n) => ProgM { pipelines: st.pipelines.push(n), ..st },
        TopM::Variable(v) => ProgM { variables: st.variables.push(v), ..st },
        TopM::Route(r) => ProgM { routes: st.routes.push((r.0, r.1, Some(r.2))), ..st },
        TopM::Describe(d) => ProgM { describes: st.describes.push(d), ..st },
        TopM::Skip => st,
    }
}

/// Reading declarations from `pos` on, onto `st`: at each point whitespace
/// is skipped and what stands there is added. Reading ends at the end of
/// the text (the position before the trailing whitespace is kept) or where
/// nothing reads. An import whose alias `st` already holds ends it with an
/// error at the position after that import.
pub open spec fn program_from(cs: Seq<char>, pos: int, st: ProgM) -> Result<(ProgM, int), int>
    decreases cs.len() - pos,
{
    let s = ms_end(cs, pos);
    if pos < 0 || pos >= cs.len() || s >= cs.len() {
        Ok((st, pos))
    } else {
        match top_at(cs, s) {
            None => Ok((st, s)),
            Some((t, e)) => if !(pos < e <= cs.len()) {
                Ok((st, pos))
            } else if t matches TopM::Import(i) && alias_in(st.imports, i.1) {
                Err(e)
            } else {
                program_from(cs, e, add_top(st, t))
            },
        }
    }
}

/// The program that `text` holds, read from its first non-whitespace
/// character: the declarations and the position where reading stopped, or
/// the position after a repeated import alias.
pub open spec fn program_at(text: Seq<char>) -> Result<(ProgM, int), int> {
    program_from(text, ms_end(text, 0), empty_m())
}

/// One top-level declaration as read.
enum Top {
    Config(Config),
    Import(Import),
    Flags(Pipeline),
    Schema(GraphQLSchema),
    Query(QueryResolver),
    Mutation(MutationResolver),
    Resolver(TypeResolver),
    Pipeline(NamedPipeline),
    Variable(Variable),
    Route(Route),
    Describe(Describe),
    Skip,
}

/// The model of a declaration as read.
spec fn top_m(t: Top) -> TopM {
    match t {
        Top::Config(c) => TopM::Config(config_m(c)),
        Top::Import(i) => TopM::Import((i.path@, i.alias@, i.location)),
        Top::Flags(f) => TopM::Flags(steps_m(f.steps@)),
        Top::Schema(g) => TopM::Schema(g.sdl@),
        Top::Query(q) => TopM::Query((q.name@, steps_m(q.pipeline.steps@))),
        Top::Mutation(m) => TopM::Mutation((m.name@, steps_m(m.pipeline.steps@))),
        Top::Resolver(t) => TopM::Resolver((t.object_type@, t.field_name@, steps_m(t.pipeline.steps@))),
        Top::Pipeline(n) => TopM::Pipeline((n.name@, steps_m(n.pipeline.steps@))),
        Top::Variable(v) => TopM::Variable((v.var_type@, v.name@, v.value@)),
        Top::Route(rt) => TopM::Route((rt.method@, rt.path@, route_steps(rt.pipeline).unwrap())),
        Top::Describe(d) => TopM::Describe(describe_m(d)),
        Top::Skip => TopM::Skip,
    }
}

/// A route read from text holds its pipeline inline.
spec fn top_ok(t: Top) -> bool {
    t matches Top::Route(rt) ==> route_steps(rt.pipeline) is Some
}

/// Reads what stands at `s`.
fn parse_top(cs: &[char], s: usize) -> (r: Option<(Top, usize)>)
    requires
        s <= cs@.len(),
        text_fits(cs@),
    ensures
        match r {
            None => top_at(cs@, s as int) is None,
            Some((t, e)) => s < e <= cs@.len() && top_ok(t) && top_at(cs@, s as int) == Some((top_m(t), e as int)),
        },
{
    reveal(top_at);
    if let Some((c, e)) = parse_config(cs, s) {
        return Some((Top::Config(c), e));
    }
    if let Some((i, e)) = parse_import(cs, s) {
        return Some((Top::Import(i), e));
    }
    if let Some((f, e)) = parse_feature_flags(cs, s) {
        return Some((Top::Flags(f), e));
    }
    if let Some((g, e)) = parse_graphql_schema(cs, s) {
        return Some((Top::Schema(g), e));
    }
    if let Some((q, e)) = parse_query_resolver(cs, s) {
        return Some((Top::Query(q), e));
    }
    if let Some((m, e)) = parse_mutation_resolver(cs, s) {
        return Some((Top::Mutation(m), e));
    }
    if let Some((t, e)) = parse_type_resolver(cs, s) {
        return Some((Top::Resolver(t), e));
    }
    if let Some((n, e)) = parse_named_pipeline(cs, s) {
        return Some((Top::Pipeline(n), e));
    }
    if let Some((v, e)) = parse_variable(cs, s) {
        return Some((Top::Variable(v), e));
    }
    if let Some((rt, e)) = parse_route(cs, s) {
        return Some((Top::Route(rt), e));
    }
    if let Some((d, e)) = parse_describe(cs, s) {
        return Some((Top::Describe(d), e));
    }
    match take_till1(cs, s, '\n', '\n') {
        Some((_, e)) => Some((Top::Skip, e)),
        None => None,
    }
}

/// One step of reading: a declaration that is not a repeated import is
/// added and reading goes on after it.
proof fn lemma_program_step(cs: Seq<char>, pos: int, st: ProgM, t: TopM, e: int)
    requires
        0 <= pos < cs.len(),
        ms_end(cs, pos) < cs.len(),
        top_at(cs, ms_end(cs, pos)) == Some((t, e)),
        ms_end(cs, pos) < e <= cs.len(),
    ensures
        t matches TopM::Import(i) && alias_in(st.imports, i.1) ==> program_from(cs, pos, st) == Err::<(ProgM, int), int>(e),
        !(t matches TopM::Import(i) && alias_in(st.imports, i.1)) ==> program_from(cs, pos, st) == program_from(cs, e, add_top(st, t)),
{
    lemma_ms_end(cs, pos);
}

/// Adds a declaration to `prog`.
fn add_decl(prog: &mut Program, t: Top)
    requires
        top_ok(t),
    ensures
        program_m(*final(prog)) == add_top(program_m(*old(prog)), top_m(t)),
        t matches Top::Import(i) ==> final(prog).imports@ == old(prog).imports@.push(i),
        t !is Import ==> final(prog).imports@ == old(prog).imports@,
{
    let ghost before = program_m(*prog);
    match t {
        Top::Config(c) => {
            prog.configs.push(c);
            assert(program_m(*prog) =~= add_top(before, top_m(Top::Config(c))));
        },
        Top::Import(i) => {
            let ghost ti = top_m(Top::Import(i));
            prog.imports.push(i);
            assert(program_m(*prog) =~= add_top(before, ti));
        },
        Top::Flags(f) => {
            let ghost tf = top_m(Top::Flags(f));
            prog.feature_flags = Some(f);
            assert(program_m(*prog) =~= add_top(before, tf));
        },
        Top::Schema(g) => {
            let ghost tg = top_m(Top::Schema(g));
            prog.graphql_schema = Some(g);
            assert(program_m(*prog) =~= add_top(before, tg));
        },
        Top::Query(q) => {
            let ghost tq = top_m(Top::Query(q));
            prog.queries.push(q);
            assert(program_m(*prog) =~= add_top(before, tq));
        },
        Top::Mutation(m) => {
            let ghost tm = top_m(Top::Mutation(m));
            prog.mutations.push(m);
            assert(program_m(*prog) =~= add_top(before, tm));
        },
        Top::Resolver(r) => {
            let ghost tr = top_m(Top::Resolver(r));
            prog.resolvers.push(r);
            assert(program_m(*prog) =~= add_top(before, tr));
        },
        Top::Pipeline(np) => {
            let ghost tn = top_m(Top::Pipeline(np));
            prog.pipelines.push(np);
            assert(program_m(*prog) =~= add_top(before, tn));
        },
        Top::Variable(v) => {
            let ghost tv = top_m(Top::Variable(v));
            prog.variables.push(v);
            assert(program_m(*prog) =~= add_top(before, tv));
        },
        Top::Route(rt) => {
            let ghost tr = top_m(Top::Route(rt));
            prog.routes.push(rt);
            assert(program_m(*prog) =~= add_top(before, tr));
        },
        Top::Describe(d) => {
            let ghost td = top_m(Top::Describe(d));
            prog.describes.push(d);
            assert(program_m(*prog) =~= add_top(before, td));
        },
        Top::Skip => {
            assert(program_m(*prog) =~= add_top(before, top_m(Top::Skip)));
        },
    }
}

/// Reads a program. Configs, imports, feature flags, the GraphQL schema,
/// resolvers, pipelines, variables, routes and test blocks may come in any
/// order; a line that is none of them is skipped. The result carries the
/// text left unread. An import whose alias an earlier import already took
/// is an error, which carries the text after that import.
pub fn parse_program(input: &str) -> (r: Result<(String, Program), String>)
    requires
        text_fits(input@),
    ensures
        match r {
            Ok((rest, prog)) => program_at(input@) == Ok::<(ProgM, int), int>((program_m(prog), input@.len() - rest@.len()))
                && is_rest_of(rest@, input@) && aliases_distinct(prog.imports@),
            Err(rest) => program_at(input@) == Err::<(ProgM, int), int>(input@.len() - rest@.len()) && is_rest_of(rest@, input@),
        },
{
    let cs = chars_of(input);
    let n = cs.len();
    let mut prog = Program {
        configs: Vec::new(),
        imports: Vec::new(),
        pipelines: Vec::new(),
        variables: Vec::new(),
        routes: Vec::new(),
        describes: Vec::new(),
        graphql_schema: None,
        queries: Vec::new(),
        mutations: Vec::new(),
        resolvers: Vec::new(),
        feature_flags: None,
    };
    let mut pos = ms_skip(cs.as_slice(), 0);
    assert(program_m(prog) =~= empty_m());
    while pos < n
        invariant_except_break
            program_at(cs@) == program_from(cs@, pos as int, program_m(prog)),
        invariant
            n == cs@.len(),
            cs@ == input@,
            text_fits(cs@),
            pos <= n,
            aliases_distinct(prog.imports@),
        ensures
            program_at(cs@) == Ok::<(ProgM, int), int>((program_m(prog), pos as int)),
        decreases n - pos,
    {
        let s = ms_skip(cs.as_slice(), pos);
        if s == n {
            break;
        }
        match parse_top(cs.as_slice(), s) {
            None => {
                pos = s;
                break;
            },
            Some((t, e)) => {
                let ghost st = program_m(prog);
                let ghost tm = top_m(t);
                proof { lemma_program_step(cs@, pos as int, st, tm, e as int); }
                if let Top::Import(i) = &t {
                    let taken = alias_taken(&prog.imports, &i.alias);
                    proof {
                        if taken {
                            let k = choose|k: int| 0 <= k < prog.imports@.len() && #[trigger] prog.imports@[k].alias@ == i.alias@;
                            assert(st.imports[k].1 == i.alias@);
                        } else {
                            assert forall|k: int| 0 <= k < st.imports.len() implies #[trigger] st.imports[k].1 != i.alias@ by {
                                assert(prog.imports@[k].alias@ != i.alias@);
                            }
                        }
                    }
                    if taken {
                        let rest = string_of(slice_chars(cs.as_slice(), e, n).as_slice());
                        proof {
                            assert(rest@ =~= input@.skip(input@.len() - rest@.len()));
                        }
                        return Err(rest);
                    }
                }
                add_decl(&mut prog, t);
                pos = e;
            },
        }
    }
    let rest = string_of(slice_chars(cs.as_slice(), pos, n).as_slice());
    proof {
        assert(rest@ =~= input@.skip(input@.len() - rest@.len()));
    }
    Ok((rest, prog))
}

} // verus!
