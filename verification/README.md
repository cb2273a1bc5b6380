# webpipe

The language core of Web Pipe, a pipeline-oriented language for web
applications, written in Verus: every function in `src/` carries a
`requires`/`ensures` contract that the verifier proves.

## Layout

- `src/` — the verified library.
  - Reading programs: `parser.rs` (steps, pipelines, tags, routes,
    configs, imports), `grammar.rs` (the grammar as spec functions),
    `describe.rs` (test blocks), `program.rs` (a whole file), `printer.rs`
    (programs back to text), `readback.rs` (printed assertions read back
    as the same assertions).
  - Running steps: `tags.rs` (which steps run), `step.rs` and `resolver.rs`
    (how a step runs and where its result goes), `modules.rs` and
    `loader.rs` (imports), `context.rs` (request context, profiler),
    `request.rs` (the request object).
  - Middleware decisions: `schema.rs` (`assert`), `validate.rs`,
    `rate_limit.rs`, `cache.rs`, `log.rs`, `auth.rs`, `fetch.rs`, `pg.rs`,
    `join.rs`, `template.rs`, `middleware.rs` (jq, debug, stdin, charts),
    `graphql.rs` (resolver registry, field plans, resolver inputs,
    loader batching), `debugger.rs`
    (step debugger).
  - Support: `text.rs`, `json.rs` (a JSON value with a mathematical
    model), `error.rs`, `config.rs`, `cli.rs`, `cli_args.rs`,
    `migrations.rs`.
- `tests/` — tests of the library on concrete inputs.
- `app/` — the command-line program: reads a file, parses it, prints it.

Calls into `serde_json`, `argon2`, `rand` and `hex` go through a few
trusted wrappers whose contracts name what those crates compute.
