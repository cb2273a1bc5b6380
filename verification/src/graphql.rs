//! The GraphQL resolver registry: which pipeline answers a field.
//!
//! A query `q` answers `Query.q`, a mutation `m` answers `Mutation.m`, and a
//! resolver `T.f` answers `T.f`. They are registered in that order, so a
//! later declaration with the same key takes the field over.

use vstd::prelude::*;
use crate::ast::{Program, QueryResolver, MutationResolver, TypeResolver, Pipeline, PipelineStep};
use crate::text::{chars_of, string_of, append_str, str_eq};
use crate::json::{JsonValue, Json, jv, get, json_text, write_json, jv_seq, jv_entries, lemma_jv_seq, lemma_jv_entries, lookup};

verus! {

broadcast use vstd::std_specs::vec::group_vec_axioms;

/// The `graphql` middleware; its connections and stores live with the server.
#[derive(Debug)]
pub struct GraphQLMiddleware;

impl GraphQLMiddleware {
    /// The middleware.
    pub fn new() -> (r: Self) {
        GraphQLMiddleware
    }
}

/// Which declaration of a program a registry entry comes from.
#[derive(Debug, Clone, Copy, PartialEq, Eq, Structural)]
pub enum ResolverSource {
    Query(usize),
    Mutation(usize),
    Field(usize),
}

/// The registry key `prefix.name`.
pub open spec fn key_of(prefix: Seq<char>, name: Seq<char>) -> Seq<char> {
    prefix + "."@ + name
}

/// The registry's entries in registration order: queries, mutations, then
/// type resolvers.
pub open spec fn registry_entries(p: Program) -> Seq<(Seq<char>, ResolverSource)> {
    Seq::new(p.queries@.len(), |i: int| (key_of("Query"@, p.queries@[i].name@), ResolverSource::Query(i as usize)))
        + Seq::new(
        p.mutations@.len(),
        |i: int| (key_of("Mutation"@, p.mutations@[i].name@), ResolverSource::Mutation(i as usize)),
    ) + Seq::new(
        p.resolvers@.len(),
        |i: int| (key_of(p.resolvers@[i].object_type@, p.resolvers@[i].field_name@), ResolverSource::Field(i as usize)),
    )
}

/// The source of the last entry with `key` among the first `n` entries.
pub open spec fn last_with_key(entries: Seq<(Seq<char>, ResolverSource)>, n: int, key: Seq<char>) -> Option<ResolverSource>
    decreases n,
{
    if n <= 0 || n > entries.len() {
        None
    } else if entries[n - 1].0 == key {
        Some(entries[n - 1].1)
    } else {
        last_with_key(entries, n - 1, key)
    }
}

/// The key `prefix.name`.
pub fn resolver_key(prefix: &str, name: &str) -> (r: String)
    ensures
        r@ == key_of(prefix@, name@),
{
    proof { reveal_strlit("."); }
    let mut v: Vec<char> = chars_of(prefix);
    append_str(&mut v, ".");
    append_str(&mut v, name);
    string_of(v.as_slice())
}

/// The registry's entries, in registration order.
pub fn pipeline_registry(program: &Program) -> (r: Vec<(String, ResolverSource)>)
    ensures
        r@.map_values(|e: (String, ResolverSource)| (e.0@, e.1)) == registry_entries(*program),
{
    proof {
        reveal_strlit("Query");
        reveal_strlit("Mutation");
    }
    let ghost want = registry_entries(*program);
    let ghost nq = program.queries@.len();
    let ghost nm = program.mutations@.len();
    let mut out: Vec<(String, ResolverSource)> = Vec::new();
    let mut i: usize = 0;
    while i < program.queries.len()
        invariant
            want == registry_entries(*program),
            nq == program.queries@.len(),
            i <= nq,
            out@.map_values(|e: (String, ResolverSource)| (e.0@, e.1)) == want.take(i as int),
        decreases nq - i,
    {
        let ghost before = out@.map_values(|e: (String, ResolverSource)| (e.0@, e.1));
        let key = resolver_key("Query", program.queries[i].name.as_str());
        assert(want[i as int] == (key@, ResolverSource::Query(i)));
        out.push((key, ResolverSource::Query(i)));
        assert(out@.map_values(|e: (String, ResolverSource)| (e.0@, e.1)) =~= before.push(want[i as int]));
        assert(want.take(i + 1) =~= want.take(i as int).push(want[i as int]));
        i = i + 1;
        assert(out@.map_values(|e: (String, ResolverSource)| (e.0@, e.1)) =~= want.take(i as int));
    }
    let mut i: usize = 0;
    while i < program.mutations.len()
        invariant
            want == registry_entries(*program),
            nq == program.queries@.len(),
            nm == program.mutations@.len(),
            i <= nm,
            out@.map_values(|e: (String, ResolverSource)| (e.0@, e.1)) == want.take(nq + i),
        decreases nm - i,
    {
        let ghost before = out@.map_values(|e: (String, ResolverSource)| (e.0@, e.1));
        let key = resolver_key("Mutation", program.mutations[i].name.as_str());
        assert(want[nq + i] == (key@, ResolverSource::Mutation(i)));
        out.push((key, ResolverSource::Mutation(i)));
        assert(out@.map_values(|e: (String, ResolverSource)| (e.0@, e.1)) =~= before.push(want[nq + i]));
        assert(want.take(nq + i + 1) =~= want.take(nq + i).push(want[nq + i]));
        i = i + 1;
        assert(out@.map_values(|e: (String, ResolverSource)| (e.0@, e.1)) =~= want.take(nq + i));
    }
    let mut i: usize = 0;
    while i < program.resolvers.len()
        invariant
            want == registry_entries(*program),
            nq == program.queries@.len(),
            nm == program.mutations@.len(),
            i <= program.resolvers@.len(),
            out@.map_values(|e: (String, ResolverSource)| (e.0@, e.1)) == want.take(nq + nm + i),
        decreases program.resolvers@.len() - i,
    {
        let r = &program.resolvers[i];
        let ghost before = out@.map_values(|e: (String, ResolverSource)| (e.0@, e.1));
        let key = resolver_key(r.object_type.as_str(), r.field_name.as_str());
        assert(want[nq + nm + i] == (key@, ResolverSource::Field(i)));
        out.push((key, ResolverSource::Field(i)));
        assert(out@.map_values(|e: (String, ResolverSource)| (e.0@, e.1)) =~= before.push(want[nq + nm + i]));
        assert(want.take(nq + nm + i + 1) =~= want.take(nq + nm + i).push(want[nq + nm + i]));
        i = i + 1;
        assert(out@.map_values(|e: (String, ResolverSource)| (e.0@, e.1)) =~= want.take(nq + nm + i));
    }
    assert(want.take(want.len() as int) =~= want);
    out
}

/// The declaration that answers `key`: the last one registered under it.
pub fn find_resolver(program: &Program, key: &str) -> (r: Option<ResolverSource>)
    ensures
        r == last_with_key(registry_entries(*program), registry_entries(*program).len() as int, key@),
{
    let entries = pipeline_registry(program);
    let ghost es = registry_entries(*program);
    let mut k = entries.len();
    while k > 0
        invariant
            k <= entries@.len(),
            entries@.map_values(|e: (String, ResolverSource)| (e.0@, e.1)) == es,
            es == registry_entries(*program),
            last_with_key(es, es.len() as int, key@) == last_with_key(es, k as int, key@),
        decreases k,
    {
        assert(es[k - 1] == (entries@[k - 1].0@, entries@[k - 1].1));
        if str_eq(entries[k - 1].0.as_str(), key) {
            return Some(entries[k - 1].1);
        }
        k = k - 1;
    }
    None
}

/// Entries with other keys at the end do not change the lookup.
proof fn lemma_skip_other_keys(es: Seq<(Seq<char>, ResolverSource)>, n: int, m: int, key: Seq<char>)
    requires
        0 <= m <= n <= es.len(),
        forall|j: int| m <= j < n ==> es[j].0 != key,
    ensures
        last_with_key(es, n, key) == last_with_key(es, m, key),
    decreases n,
{
    if n > m {
        lemma_skip_other_keys(es, n - 1, m, key);
    }
}

/// Law: a later declaration takes a field over. When a type resolver is
/// registered under `key`, the last such resolver answers `key`, whatever
/// queries or mutations share the key.
pub proof fn law_last_declaration_wins(p: Program, i: int, key: Seq<char>)
    requires
        0 <= i < p.resolvers@.len(),
        key_of(p.resolvers@[i].object_type@, p.resolvers@[i].field_name@) == key,
        forall|j: int| i < j < p.resolvers@.len() ==> key_of(p.resolvers@[j].object_type@, p.resolvers@[j].field_name@) != key,
    ensures
        last_with_key(registry_entries(p), registry_entries(p).len() as int, key) == Some(ResolverSource::Field(i as usize)),
{
    let es = registry_entries(p);
    let off = p.queries@.len() + p.mutations@.len();
    assert(es.len() == off + p.resolvers@.len());
    assert forall|j: int| off + i + 1 <= j < es.len() implies es[j].0 != key by {
        let jj = j - off;
        assert(es[j] == (key_of(p.resolvers@[jj].object_type@, p.resolvers@[jj].field_name@), ResolverSource::Field(jj as usize)));
    }
    lemma_skip_other_keys(es, es.len() as int, off + i + 1, key);
    assert(es[off + i] == (key, ResolverSource::Field(i as usize)));
}


/// A batched field lookup: the loader pipeline, the key to load, and the
/// resolver's `{parent, args, context}`.
#[derive(Debug)]
pub struct LoaderKey {
    pub pipeline_name: String,
    pub key: JsonValue,
    pub context: JsonValue,
}

/// The positions before `n` whose key names the pipeline `name`, in order.
pub open spec fn group_members(keys: Seq<LoaderKey>, name: Seq<char>, n: int) -> Seq<usize>
    decreases n,
{
    if n <= 0 {
        Seq::empty()
    } else {
        let p = group_members(keys, name, n - 1);
        if keys[n - 1].pipeline_name@ == name { p.push((n - 1) as usize) } else { p }
    }
}

/// No key before `n` names `name`: its group is empty.
proof fn lemma_group_absent(keys: Seq<LoaderKey>, name: Seq<char>, n: int)
    requires
        forall|j: int| 0 <= j < n ==> (#[trigger] keys[j]).pipeline_name@ != name,
    ensures
        group_members(keys, name, n) == Seq::<usize>::empty(),
    decreases n,
{
    if n > 0 {
        lemma_group_absent(keys, name, n - 1);
    }
}

/// `groups` batches the first `n` keys by pipeline: one group per pipeline
/// named, in the order the pipelines first appear, each holding the
/// positions of that pipeline's keys in order.
pub open spec fn batches(keys: Seq<LoaderKey>, groups: Seq<(String, Vec<usize>)>, n: int) -> bool {
    &&& forall|g: int| 0 <= g < groups.len() ==> (#[trigger] groups[g]).1@ == group_members(keys, groups[g].0@, n)
        && groups[g].1@.len() > 0
    &&& forall|g: int, h: int| 0 <= g < h < groups.len() ==> (#[trigger] groups[g]).0@ != (#[trigger] groups[h]).0@
        && groups[g].1@[0] < groups[h].1@[0]
    &&& forall|j: int| 0 <= j < n ==> exists|g: int| 0 <= g < groups.len() && (#[trigger] groups[g]).0@ == (#[trigger] keys[j]).pipeline_name@
}

/// Batches loader keys by the pipeline that loads them.
pub fn group_loader_keys(keys: &Vec<LoaderKey>) -> (r: Vec<(String, Vec<usize>)>)
    ensures
        batches(keys@, r@, keys@.len() as int),
{
    let mut groups: Vec<(String, Vec<usize>)> = Vec::new();
    let mut i: usize = 0;
    while i < keys.len()
        invariant
            i <= keys@.len(),
            batches(keys@, groups@, i as int),
        decreases keys@.len() - i,
    {
        let name = &keys[i].pipeline_name;
        let mut g: usize = 0;
        while g < groups.len() && !str_eq(groups[g].0.as_str(), name.as_str())
            invariant
                g <= groups@.len(),
                forall|h: int| 0 <= h < g ==> (#[trigger] groups@[h]).0@ != name@,
            decreases groups@.len() - g,
        {
            g = g + 1;
        }
        let ghost before = groups@;
        if g < groups.len() {
            let mut entry = groups.remove(g);
            entry.1.push(i);
            groups.insert(g, entry);
            proof {
                assert forall|h: int| 0 <= h < groups@.len() implies (#[trigger] groups@[h]).1@ == group_members(keys@, groups@[h].0@, i + 1)
                    && groups@[h].1@.len() > 0 by {
                    if h == g {
                        assert(groups@[h].0@ == before[h].0@);
                    } else {
                        assert(groups@[h] == before[h]);
                    }
                }
                assert forall|a: int, b: int| 0 <= a < b < groups@.len() implies (#[trigger] groups@[a]).0@ != (#[trigger] groups@[b]).0@
                    && groups@[a].1@[0] < groups@[b].1@[0] by {
                    assert(groups@[a].0@ == before[a].0@ && groups@[b].0@ == before[b].0@);
                    assert(groups@[a].1@[0] == before[a].1@[0] && groups@[b].1@[0] == before[b].1@[0]);
                }
                assert forall|j: int| 0 <= j < i + 1 implies exists|h: int| 0 <= h < groups@.len() && (#[trigger] groups@[h]).0@ == (#[trigger] keys@[j]).pipeline_name@ by {
                    if j == i {
                        assert(groups@[g as int].0@ == keys@[j].pipeline_name@);
                    } else {
                        let h0 = choose|h: int| 0 <= h < before.len() && (#[trigger] before[h]).0@ == keys@[j].pipeline_name@;
                        assert(groups@[h0].0@ == before[h0].0@);
                    }
                }
            }
        } else {
            let mut members: Vec<usize> = Vec::new();
            members.push(i);
            groups.push((name.clone(), members));
            proof {
                assert forall|j: int| 0 <= j < i implies (#[trigger] keys@[j]).pipeline_name@ != name@ by {
                    let h0 = choose|h: int| 0 <= h < before.len() && (#[trigger] before[h]).0@ == keys@[j].pipeline_name@;
                }
                lemma_group_absent(keys@, name@, i as int);
                assert forall|h: int| 0 <= h < groups@.len() implies (#[trigger] groups@[h]).1@ == group_members(keys@, groups@[h].0@, i + 1)
                    && groups@[h].1@.len() > 0 by {
                    if h == before.len() {
                        assert(groups@[h].1@ =~= Seq::<usize>::empty().push(i));
                    } else {
                        assert(groups@[h] == before[h]);
                        assert(before[h].0@ != name@);
                    }
                }
                assert forall|a: int, b: int| 0 <= a < b < groups@.len() implies (#[trigger] groups@[a]).0@ != (#[trigger] groups@[b]).0@
                    && groups@[a].1@[0] < groups@[b].1@[0] by {
                    if b == before.len() {
                        assert(groups@[a] == before[a]);
                        let m = before[a].1@;
                        assert(m == group_members(keys@, before[a].0@, i as int));
                        lemma_group_bound(keys@, before[a].0@, i as int);
                    } else {
                        assert(groups@[a] == before[a] && groups@[b] == before[b]);
                    }
                }
                assert forall|j: int| 0 <= j < i + 1 implies exists|h: int| 0 <= h < groups@.len() && (#[trigger] groups@[h]).0@ == (#[trigger] keys@[j]).pipeline_name@ by {
                    if j == i {
                        assert(groups@[before.len() as int].0@ == keys@[j].pipeline_name@);
                    } else {
                        let h0 = choose|h: int| 0 <= h < before.len() && (#[trigger] before[h]).0@ == keys@[j].pipeline_name@;
                        assert(groups@[h0] == before[h0]);
                    }
                }
            }
        }
        i = i + 1;
    }
    groups
}

/// Positions in a group lie before `n`.
proof fn lemma_group_bound(keys: Seq<LoaderKey>, name: Seq<char>, n: int)
    ensures
        forall|m: int| 0 <= m < group_members(keys, name, n).len() ==> #[trigger] group_members(keys, name, n)[m] < n,
    decreases n,
{
    if n > 0 {
        lemma_group_bound(keys, name, n - 1);
        let p = group_members(keys, name, n - 1);
        let q = group_members(keys, name, n);
        assert forall|m: int| 0 <= m < q.len() implies #[trigger] q[m] < n by {
            if m < p.len() {
                assert(q[m] == p[m]);
            }
        }
    }
}

/// The text a key is looked up by in a loader's result: a string as
/// itself, any other value as its JSON text.
pub open spec fn key_text(k: Json) -> Seq<char> {
    match k {
        Json::Str(s) => s,
        _ => json_text(k),
    }
}

/// Writes the lookup text of a key.
pub fn key_string(key: &JsonValue) -> (r: String)
    ensures
        r@ == key_text(jv(*key)),
{
    match key {
        JsonValue::Str(s) => s.clone(),
        _ => {
            let mut out: Vec<char> = Vec::new();
            write_json(key, &mut out);
            string_of(out.as_slice())
        },
    }
}


/// A member of a resolver context, or `null`.
pub open spec fn member_or_null(ctx: Json, k: Seq<char>) -> Json {
    match get(ctx, k) {
        Some(v) => v,
        None => Json::Null,
    }
}

/// The input of a loader pipeline for one batch: the batch's keys in
/// order, and the `args` and `context` of its first key's resolver context
/// (`null` when missing).
pub open spec fn loader_input_json(keys: Seq<LoaderKey>, members: Seq<usize>) -> Json {
    let ctx = jv(keys[members[0] as int].context);
    Json::Object(seq![
        ("args"@, member_or_null(ctx, "args"@)),
        ("context"@, member_or_null(ctx, "context"@)),
        ("keys"@, Json::Array(members.map_values(|i: usize| jv(keys[i as int].key)))),
    ])
}

/// A copy of a context member, or `null`.
fn member_copy(ctx: &JsonValue, k: &str) -> (r: JsonValue)
    ensures
        jv(r) == member_or_null(jv(*ctx), k@),
{
    match ctx.get(k) {
        Some(v) => v.copy(),
        None => JsonValue::Null,
    }
}

/// Builds the input of a loader pipeline for one batch.
pub fn loader_input(keys: &Vec<LoaderKey>, members: &Vec<usize>) -> (r: JsonValue)
    requires
        members@.len() > 0,
        forall|m: int| 0 <= m < members@.len() ==> #[trigger] members@[m] < keys@.len(),
    ensures
        jv(r) == loader_input_json(keys@, members@),
{
    let first = &keys[members[0]].context;
    let args = member_copy(first, "args");
    let context = member_copy(first, "context");
    let mut ks: Vec<JsonValue> = Vec::new();
    let mut m: usize = 0;
    while m < members.len()
        invariant
            m <= members@.len(),
            forall|x: int| 0 <= x < members@.len() ==> #[trigger] members@[x] < keys@.len(),
            ks@.len() == m,
            forall|x: int| 0 <= x < m ==> jv(#[trigger] ks@[x]) == jv(keys@[members@[x] as int].key),
        decreases members@.len() - m,
    {
        ks.push(keys[members[m]].key.copy());
        m = m + 1;
    }
    proof { lemma_jv_seq(ks@); }
    assert(jv_seq(ks@) =~= members@.map_values(|i: usize| jv(keys@[i as int].key)));
    let ghost aj = jv(args);
    let ghost cj = jv(context);
    let kv = JsonValue::Array(ks);
    let ghost kj = jv(kv);
    let mut e: Vec<(String, JsonValue)> = Vec::new();
    e.push((string_of(chars_of("args").as_slice()), args));
    e.push((string_of(chars_of("context").as_slice()), context));
    e.push((string_of(chars_of("keys").as_slice()), kv));
    proof { lemma_jv_entries(e@); }
    assert(jv_entries(e@) =~= seq![("args"@, aj), ("context"@, cj), ("keys"@, kj)]);
    JsonValue::Object(e)
}

/// The value a loader's result gives a key: the member named by the key's
/// text, or `null`.
pub open spec fn loaded_value(result: Seq<(Seq<char>, Json)>, key: Json) -> Json {
    match lookup(result, key_text(key)) {
        Some(v) => v,
        None => Json::Null,
    }
}

/// The values a loader pipeline's result gives the keys of its batch, in
/// batch order; `None` when the result is not an object (an error).
pub fn loader_values(result: &JsonValue, keys: &Vec<LoaderKey>, members: &Vec<usize>) -> (r: Option<Vec<JsonValue>>)
    requires
        forall|m: int| 0 <= m < members@.len() ==> #[trigger] members@[m] < keys@.len(),
    ensures
        match jv(*result) {
            Json::Object(e) => r matches Some(vs) && vs@.len() == members@.len()
                && forall|m: int| 0 <= m < members@.len() ==> jv(#[trigger] vs@[m]) == loaded_value(e, jv(keys@[members@[m] as int].key)),
            _ => r is None,
        },
{
    match result {
        JsonValue::Object(entries) => {
            let mut vs: Vec<JsonValue> = Vec::new();
            let mut m: usize = 0;
            while m < members.len()
                invariant
                    m <= members@.len(),
                    *result == JsonValue::Object(*entries),
                    forall|x: int| 0 <= x < members@.len() ==> #[trigger] members@[x] < keys@.len(),
                    vs@.len() == m,
                    forall|x: int| 0 <= x < m ==> jv(#[trigger] vs@[x]) == loaded_value(jv_entries(entries@), jv(keys@[members@[x] as int].key)),
                decreases members@.len() - m,
            {
                let t = key_string(&keys[members[m]].key);
                let v = match result.get(t.as_str()) {
                    Some(v) => v.copy(),
                    None => JsonValue::Null,
                };
                vs.push(v);
                m = m + 1;
            }
            Some(vs)
        },
        _ => None,
    }
}


/// Whether a step is a regular `loader` step.
pub open spec fn is_loader_step(s: PipelineStep) -> bool {
    s matches PipelineStep::Regular { name, .. } && name@ == "loader"@
}

/// The index of the first `loader` step at or after `from`.
pub open spec fn first_loader(steps: Seq<PipelineStep>, from: int) -> Option<int>
    decreases steps.len() - from,
{
    if from < 0 || from >= steps.len() {
        None
    } else if is_loader_step(steps[from]) {
        Some(from)
    } else {
        first_loader(steps, from + 1)
    }
}

/// The arguments of a regular step (none for other steps).
pub open spec fn step_args(s: PipelineStep) -> Seq<String> {
    match s {
        PipelineStep::Regular { args, .. } => args@,
        _ => Seq::empty(),
    }
}

/// The configuration of a regular step (empty for other steps).
pub open spec fn step_config(s: PipelineStep) -> Seq<char> {
    match s {
        PipelineStep::Regular { config, .. } => config@,
        _ => Seq::empty(),
    }
}

/// How a field with a registered pipeline is resolved.
pub enum FieldPlan {
    /// The whole pipeline runs on the field's input.
    Pipeline,
    /// The steps before the loader step run on `{parent}`, the key
    /// expression picks the key from their result, the named pipeline loads
    /// it in a batch, and the steps after the loader step run on what it
    /// loaded.
    Loader { index: usize, pipeline_name: String, key_expr: String },
}

/// How a field of `object_type` is resolved with `pipeline`: without a
/// `loader` step the pipeline runs as it is; the first `loader` step makes
/// it a batched field resolver, which only types other than `Query` and
/// `Mutation` may have, and whose loader step names the pipeline to load
/// with (its configuration) and the key expression (its first argument).
pub fn plan_field(object_type: &str, pipeline: &Pipeline) -> (r: Result<FieldPlan, String>)
    ensures
        match first_loader(pipeline.steps@, 0) {
            None => r matches Ok(FieldPlan::Pipeline),
            Some(i) => if object_type@ == "Query"@ || object_type@ == "Mutation"@ {
                r matches Err(m) && m@ == "loader can only be used in type resolvers, not Query/Mutation"@
            } else if step_args(pipeline.steps@[i]).len() == 0 {
                r matches Err(m) && m@ == "loader requires a key expression"@
            } else {
                r matches Ok(FieldPlan::Loader { index, pipeline_name, key_expr }) && index == i
                    && pipeline_name@ == step_config(pipeline.steps@[i])
                    && key_expr@ == step_args(pipeline.steps@[i])[0]@
            },
        },
{
    proof {
        reveal_strlit("loader");
    }
    let steps = &pipeline.steps;
    let mut i: usize = 0;
    while i < steps.len()
        invariant
            i <= steps@.len(),
            steps@ == pipeline.steps@,
            first_loader(steps@, 0) == first_loader(steps@, i as int),
        decreases steps@.len() - i,
    {
        let found = match &steps[i] {
            PipelineStep::Regular { name, .. } => str_eq(name.as_str(), "loader"),
            _ => false,
        };
        if found {
            assert(first_loader(steps@, i as int) == Some(i as int));
            if str_eq(object_type, "Query") || str_eq(object_type, "Mutation") {
                return Err(string_of(chars_of("loader can only be used in type resolvers, not Query/Mutation").as_slice()));
            }
            match &steps[i] {
                PipelineStep::Regular { config, args, .. } => {
                    if args.len() == 0 {
                        return Err(string_of(chars_of("loader requires a key expression").as_slice()));
                    }
                    return Ok(FieldPlan::Loader {
                        index: i,
                        pipeline_name: string_of(chars_of(config.as_str()).as_slice()),
                        key_expr: string_of(chars_of(args[0].as_str()).as_slice()),
                    });
                },
                _ => {
                    return Ok(FieldPlan::Pipeline);
                },
            }
        }
        i = i + 1;
    }
    Ok(FieldPlan::Pipeline)
}

/// The member `k` of a pipeline resolver's input: the last argument named
/// `k`, else the parent value under `parent`.
pub open spec fn input_member(parent: Option<Json>, args: Seq<(Seq<char>, Json)>, k: Seq<char>) -> Option<Json>
    decreases args.len(),
{
    if args.len() == 0 {
        if k == "parent"@ {
            parent
        } else {
            None
        }
    } else if args.last().0 == k {
        Some(args.last().1)
    } else {
        input_member(parent, args.drop_last(), k)
    }
}

/// The model of an optional value.
pub open spec fn opt_jv(o: Option<JsonValue>) -> Option<Json> {
    match o {
        Some(v) => Some(jv(v)),
        None => None,
    }
}

/// The model of a field's arguments.
pub open spec fn args_model(args: Seq<(String, JsonValue)>) -> Seq<(Seq<char>, Json)> {
    Seq::new(args.len(), |i: int| (args[i].0@, jv(args[i].1)))
}

/// The input a pipeline resolver runs on: an object with the parent value
/// (for a nested field) under `parent`, and each argument under its name.
pub fn resolver_input(parent: Option<JsonValue>, args: Vec<(String, JsonValue)>) -> (r: JsonValue)
    ensures
        jv(r) is Object,
        forall|k: Seq<char>| #[trigger] get(jv(r), k) == input_member(opt_jv(parent), args_model(args@), k),
{
    proof {
        reveal_strlit("parent");
    }
    let ghost pj = opt_jv(parent);
    let ghost am = args_model(args@);
    let mut r = JsonValue::Object(Vec::new());
    assert(jv(r) == Json::Object(Seq::empty())) by {
        lemma_jv_entries(Seq::<(String, JsonValue)>::empty());
        assert(jv_entries(Seq::<(String, JsonValue)>::empty()) =~= Seq::empty());
    }
    match parent {
        Some(p) => {
            r.set(string_of(chars_of("parent").as_slice()), p);
        },
        None => {},
    }
    assert(forall|k: Seq<char>| #[trigger] get(jv(r), k) == input_member(pj, am.take(0), k)) by {
        assert forall|k: Seq<char>| #[trigger] get(jv(r), k) == input_member(pj, am.take(0), k) by {
            assert(am.take(0).len() == 0);
        }
    }
    let mut i: usize = 0;
    while i < args.len()
        invariant
            i <= args@.len(),
            am == args_model(args@),
            jv(r) is Object,
            forall|k: Seq<char>| #[trigger] get(jv(r), k) == input_member(pj, am.take(i as int), k),
        decreases args@.len() - i,
    {
        let name = string_of(chars_of(args[i].0.as_str()).as_slice());
        let val = args[i].1.copy();
        let ghost before = jv(r);
        r.set(name, val);
        proof {
            assert(am.take(i + 1).drop_last() =~= am.take(i as int));
            assert(am.take(i + 1).last() == am[i as int]);
            assert forall|k: Seq<char>| #[trigger] get(jv(r), k) == input_member(pj, am.take(i + 1), k) by {
                assert(get(before, k) == input_member(pj, am.take(i as int), k));
            }
        }
        i = i + 1;
    }
    assert(am.take(args@.len() as int) =~= am);
    r
}

/// A batched field resolver starts from `{parent}`; it needs a parent
/// value ("loader requires parent context").
pub fn loader_start(parent: Option<JsonValue>) -> (r: Result<JsonValue, String>)
    ensures
        match parent {
            Some(p) => r matches Ok(v) && jv(v) is Object
                && forall|k: Seq<char>| #[trigger] get(jv(v), k) == if k == "parent"@ { Some(jv(p)) } else { None },
            None => r matches Err(m) && m@ == "loader requires parent context"@,
        },
{
    match parent {
        Some(p) => Ok(resolver_input(Some(p), Vec::new())),
        None => Err(string_of(chars_of("loader requires parent context").as_slice())),
    }
}

/// The error a resolver's pipeline result carries: when it has a
/// non-empty `errors` array, the first error's `message` (when a string),
/// else "Unknown pipeline error".
pub open spec fn pipeline_error(result: Json) -> Option<Seq<char>> {
    match get(result, "errors"@) {
        Some(Json::Array(es)) => if es.len() > 0 {
            match get(es[0], "message"@) {
                Some(Json::Str(m)) => Some(m),
                _ => Some("Unknown pipeline error"@),
            }
        } else {
            None
        },
        _ => None,
    }
}

/// The error message a field answers with instead of its pipeline's result.
pub fn pipeline_error_message(result: &JsonValue) -> (r: Option<String>)
    ensures
        match r {
            Some(m) => pipeline_error(jv(*result)) == Some(m@),
            None => pipeline_error(jv(*result)) is None,
        },
{
    match result.get("errors") {
        Some(JsonValue::Array(es)) => {
            if es.len() == 0 {
                return None;
            }
            proof {
                lemma_jv_seq(es@);
            }
            match es[0].get("message") {
                Some(JsonValue::Str(m)) => Some(string_of(chars_of(m.as_str()).as_slice())),
                _ => Some(string_of(chars_of("Unknown pipeline error").as_slice())),
            }
        },
        _ => None,
    }
}

/// A field without a pipeline answers with its parent's member of the same
/// name; with no such member, or a parent that is not an object, it is null.
pub fn parent_field(parent: &JsonValue, field: &str) -> (r: Option<JsonValue>)
    ensures
        match r {
            Some(x) => get(jv(*parent), field@) == Some(jv(x)),
            None => get(jv(*parent), field@) is None,
        },
{
    match parent.get(field) {
        Some(v) => Some(v.copy()),
        None => None,
    }
}

} // verus!
