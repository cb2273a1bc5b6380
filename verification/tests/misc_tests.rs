use webpipe::ast::{Pipeline, ResultBranch, ResultBranchType, SourceLocation, Tag, TagExpr};
use webpipe::cli::{Cli, Commands, OperationMode};
use webpipe::context::{CachePolicy, Profiler, RateLimitStatus, RequestMetadata};
use webpipe::loader::{LoadStart, ModuleLoader};
use webpipe::migrations::{parse_migration_content, parse_migration_filename};
use webpipe::modules::ModuleRegistry;
use webpipe::resolver::{parse_scoped_ref, select_branch};
use webpipe::tags::{get_async_from_tag_expr, get_result_from_tag_expr, should_execute_step, TagContext};
use webpipe::resolver::resolve_pipeline_ref;
use webpipe::json::{JsonNumber, JsonValue};
use webpipe::resolver::merge_pipeline_input;
use webpipe::resolver::{determine_target_name, extract_error_type, resolve_config_and_autoname, ScopedVariable};
use webpipe::ast::Variable;
use webpipe::middleware::gramgraph_options_expr;
use webpipe::migrations::sections_overlap;
use webpipe::step::RegularStepExecutor;
use webpipe::migrations::{applied_migrations, pending_migrations, sort_migrations};
use webpipe::migrations::{ find_migration, force_confirmed, migration_filename, migration_template, read_migration, status_label, steps_to_take, };

fn tag(name: &str, negated: bool, args: &[&str]) -> Tag {
    Tag { name: name.to_string(), negated, args: args.iter().map(|a| a.to_string()).collect() }
}

fn ctx(env: Option<&str>, flags: &[(&str, bool)], conds: &[(&str, bool)]) -> TagContext {
    TagContext {
        environment: env.map(|e| e.to_string()),
        feature_flags: flags.iter().map(|(k, v)| (k.to_string(), *v)).collect(),
        conditions: conds.iter().map(|(k, v)| (k.to_string(), *v)).collect(),
        guard_results: vec![],
    }
}

fn cli(file: Option<&str>) -> Cli {
    Cli {
        command: None,
        file: file.map(|f| f.to_string()),
        address: None,
        port: None,
        test: false,
        run: false,
        serve: false,
        verbose: false,
        trace: false,
        inspect: false,
        inspect_port: 5858,
        script_args: vec![],
    }
}

#[test]
fn env_and_flag_tags_decide_execution() {
    let prod = Some(TagExpr::Tag(tag("env", false, &["production"])));
    assert!(should_execute_step(&prod, &ctx(Some("production"), &[], &[])));
    assert!(!should_execute_step(&prod, &ctx(Some("development"), &[], &[])));
    let not_prod = Some(TagExpr::Tag(tag("env", true, &["production"])));
    assert!(!should_execute_step(&not_prod, &ctx(Some("production"), &[], &[])));
    assert!(!should_execute_step(&not_prod, &ctx(None, &[], &[])));
    assert!(should_execute_step(&prod, &ctx(None, &[], &[])));
    let flag = Some(TagExpr::Tag(tag("flag", false, &["beta"])));
    assert!(!should_execute_step(&flag, &ctx(None, &[("beta", false)], &[])));
    assert!(should_execute_step(&flag, &ctx(None, &[("beta", true)], &[])));
    let when = Some(TagExpr::And(
        Box::new(TagExpr::Tag(tag("when", false, &["a"]))),
        Box::new(TagExpr::Tag(tag("when", false, &["b"]))),
    ));
    assert!(!should_execute_step(&when, &ctx(None, &[], &[("a", true)])));
    assert!(should_execute_step(&when, &ctx(None, &[], &[("a", true), ("b", true)])));
    assert!(should_execute_step(&Some(TagExpr::Tag(tag("other", false, &[]))), &ctx(None, &[], &[])));
    assert!(should_execute_step(&None, &ctx(None, &[], &[])));
}

#[test]
fn async_and_result_names_from_tags() {
    let e = TagExpr::Or(
        Box::new(TagExpr::Tag(tag("async", false, &["user"]))),
        Box::new(TagExpr::Tag(tag("result", false, &["profile"]))),
    );
    assert_eq!(get_async_from_tag_expr(&e), Some("user".to_string()));
    assert_eq!(get_result_from_tag_expr(&e), Some("profile".to_string()));
}

#[test]
fn scoped_references_and_branch_selection() {
    assert_eq!(parse_scoped_ref("auth::login"), (Some("auth".to_string()), "login".to_string()));
    assert_eq!(parse_scoped_ref("login"), (None, "login".to_string()));
    let branches = vec![
        ResultBranch { branch_type: ResultBranchType::Success, status_code: 200, pipeline: Pipeline { steps: vec![] }, location: SourceLocation::default() },
        ResultBranch { branch_type: ResultBranchType::Custom("validationError".to_string()), status_code: 400, pipeline: Pipeline { steps: vec![] }, location: SourceLocation::default() },
        ResultBranch { branch_type: ResultBranchType::Default, status_code: 500, pipeline: Pipeline { steps: vec![] }, location: SourceLocation::default() },
    ];
    assert_eq!(select_branch(&branches, &None).unwrap().status_code, 200);
    assert_eq!(select_branch(&branches, &Some("validationError".to_string())).unwrap().status_code, 400);
    assert_eq!(select_branch(&branches, &Some("other".to_string())).unwrap().status_code, 500);
}

#[test]
fn module_registry_numbers_modules_in_order() {
    let mut reg = ModuleRegistry::new();
    let a = reg.register("/a.wp".to_string(), vec![]);
    let b = reg.register("/b.wp".to_string(), vec![("a".to_string(), a)]);
    assert_eq!((a, b), (0, 1));
    assert_eq!(reg.get_id_by_path("/b.wp"), Some(1));
    assert_eq!(reg.get_module(1).unwrap().import("a"), Some(0));
    assert!(reg.get_module(2).is_none());
    assert_eq!(reg.modules().len(), 2);
}

#[test]
fn module_loader_detects_cycles_and_caches() {
    let mut loader = ModuleLoader::new();
    assert!(matches!(loader.begin_load("/x/app.wp"), LoadStart::Started));
    assert!(matches!(loader.begin_load("/x/lib.wp"), LoadStart::Started));
    match loader.begin_load("/x/app.wp") {
        LoadStart::Cycle(m) => assert_eq!(m, "app.wp -> lib.wp -> app.wp"),
        _ => panic!("expected a cycle"),
    }
    loader.finish_load("/x/lib.wp".to_string(), webpipe::ast::Program {
        configs: vec![], imports: vec![], pipelines: vec![], variables: vec![], routes: vec![],
        describes: vec![], graphql_schema: None, queries: vec![], mutations: vec![], resolvers: vec![],
        feature_flags: None,
    });
    assert!(loader.get_cached("/x/lib.wp").is_some());
    assert!(matches!(loader.begin_load("/x/lib.wp"), LoadStart::Cached));
    loader.clear_cache();
    assert!(loader.get_cached("/x/lib.wp").is_none());
    assert_eq!(loader.resolve_import_path("/x/app.wp", "./lib/auth.wp").unwrap(), "/x/./lib/auth.wp");
    assert_eq!(loader.resolve_import_path("app.wp", "lib.wp").unwrap(), "lib.wp");
    assert_eq!(loader.resolve_import_path("/app.wp", "lib.wp").unwrap(), "/lib.wp");
    assert_eq!(loader.resolve_import_path("/x/app.wp", "/abs.wp").unwrap(), "/abs.wp");
    assert!(loader.resolve_import_path("/", "a.wp").is_err());
}

#[test]
fn migration_files_and_sections() {
    let (up, down) = parse_migration_content("-- up --\nCREATE TABLE t();\n-- DOWN --\nDROP TABLE t;\n").unwrap();
    assert_eq!(up, "CREATE TABLE t();");
    assert_eq!(down, "DROP TABLE t;");
    assert_eq!(parse_migration_content("nothing").unwrap_err(), "Missing -- UP -- marker");
    assert_eq!(parse_migration_content("-- UP -- x").unwrap_err(), "Missing -- DOWN -- marker");
    assert_eq!(
        parse_migration_content("-- DOWN -- a -- UP -- b").unwrap_err(),
        "-- DOWN -- must come after -- UP --"
    );
    assert_eq!(
        parse_migration_filename("20231215120000_create_users.sql"),
        Some(("20231215120000".to_string(), "create_users".to_string()))
    );
    assert_eq!(parse_migration_filename("2023_x.sql"), None);
    assert_eq!(parse_migration_filename("nounderscore.sql"), None);
}

#[test]
fn profiler_folds_stacks() {
    let mut p = Profiler::default();
    p.record_sample(5);
    assert!(p.samples.is_empty());
    p.push("GET /api");
    p.push("pg");
    p.record_sample(42);
    p.pop();
    p.pop();
    p.pop();
    assert_eq!(p.samples, vec![("GET /api;pg".to_string(), 42u128)]);
    assert!(p.stack.is_empty());
}

#[test]
fn metadata_to_value() {
    let m = RequestMetadata {
        cache_policy: Some(CachePolicy { enabled: true, ttl: 60, key_template: None }),
        log_config: None,
        rate_limit_status: Some(RateLimitStatus {
            allowed: false, current_count: 12, limit: 10, retry_after_secs: 3,
            key: "k".to_string(), scope: Some("route".to_string()),
        }),
    };
    let v = m.to_value();
    assert_eq!(v.get("cache").unwrap().get("ttl").unwrap().as_i64(), Some(60));
    assert!(v.get("cache").unwrap().get("key_template").unwrap().is_null());
    assert!(v.get("log").unwrap().is_null());
    assert_eq!(v.get("rate_limit").unwrap().get("remaining").unwrap().as_i64(), Some(0));
    assert_eq!(v.get("rate_limit").unwrap().get("scope").unwrap().as_str().unwrap(), "route");
}

#[test]
fn cli_modes() {
    assert!(matches!(cli(None).mode(), OperationMode::Help));
    assert!(matches!(cli(Some("a.wp")).mode(), OperationMode::Auto(f) if f == "a.wp"));
    let mut c = cli(Some("a.wp"));
    c.port = Some(8080);
    assert!(matches!(c.mode(), OperationMode::Serve(_)));
    c.test = true;
    assert!(matches!(c.mode(), OperationMode::Test(_)));
    c.inspect = true;
    assert!(matches!(c.mode(), OperationMode::TestInspect(_)));
    let mut r = cli(Some("a.wp"));
    r.run = true;
    assert!(matches!(r.mode(), OperationMode::Run(_)));
    let mut m = cli(Some("a.wp"));
    m.command = Some(Commands::Migrate { action: webpipe::cli::MigrateAction::Status });
    assert!(matches!(m.mode(), OperationMode::Migrate));
}

#[test]
fn pipeline_references_resolve_through_imports() {
    let mut reg = webpipe::modules::ModuleRegistry::new();
    let main = reg.register("main.wp".to_string(), vec![("auth".to_string(), 1)]);
    let _lib = reg.register("auth.wp".to_string(), vec![]);
    assert_eq!(resolve_pipeline_ref(&reg, "  auth::login ", Some(main)), (Some(1), "login".to_string()));
    assert_eq!(resolve_pipeline_ref(&reg, "other::x", Some(main)), (None, "x".to_string()));
    assert_eq!(resolve_pipeline_ref(&reg, "auth::login", None), (None, "login".to_string()));
    assert_eq!(resolve_pipeline_ref(&reg, "local", Some(main)), (Some(0), "local".to_string()));
    assert_eq!(resolve_pipeline_ref(&reg, "auth::x", Some(9)), (None, "x".to_string()));
}

#[test]
fn pipeline_arguments_merge_over_the_input() {
    let n = |i: i64| JsonValue::Number(JsonNumber::Int(i));
    let input = JsonValue::Object(vec![("a".to_string(), n(1)), ("b".to_string(), n(2))]);
    let arg = JsonValue::Object(vec![("b".to_string(), n(20)), ("c".to_string(), n(30))]);
    match merge_pipeline_input(&input, arg) {
        JsonValue::Object(e) => {
            let get = |k: &str| e.iter().find(|(kk, _)| kk == k).map(|(_, v)| v);
            assert!(matches!(get("a"), Some(JsonValue::Number(JsonNumber::Int(1)))));
            assert!(matches!(get("b"), Some(JsonValue::Number(JsonNumber::Int(20)))));
            assert!(matches!(get("c"), Some(JsonValue::Number(JsonNumber::Int(30)))));
            assert_eq!(e.len(), 3);
        }
        _ => panic!("expected an object"),
    }
    assert!(matches!(merge_pipeline_input(&input, n(5)), JsonValue::Number(JsonNumber::Int(5))));
    assert!(matches!(merge_pipeline_input(&n(1), JsonValue::Object(vec![])), JsonValue::Object(_)));
}

fn mig(version: &str, name: &str) -> webpipe::migrations::MigrationFile {
    webpipe::migrations::MigrationFile {
        version: version.to_string(),
        name: name.to_string(),
        filename: format!("{version}_{name}.sql"),
        up_sql: String::new(),
        down_sql: String::new(),
    }
}

#[test]
fn migrations_sort_and_select_by_version() {
    let files = vec![
        mig("20240103000000", "c"),
        mig("20240101000000", "a"),
        mig("20240102000000", "b1"),
        mig("20240102000000", "b2"),
    ];
    let sorted = sort_migrations(files);
    let names: Vec<&str> = sorted.iter().map(|m| m.name.as_str()).collect();
    assert_eq!(names, vec!["a", "b1", "b2", "c"]);
    let applied = vec!["20240101000000".to_string(), "20240102000000".to_string()];
    let pending = pending_migrations(sort_migrations(vec![mig("20240103000000", "c"), mig("20240101000000", "a")]), &applied);
    assert_eq!(pending.iter().map(|m| m.name.as_str()).collect::<Vec<_>>(), vec!["c"]);
    let back = applied_migrations(sorted, &applied);
    assert_eq!(back.iter().map(|m| m.name.as_str()).collect::<Vec<_>>(), vec!["b1", "b2", "a"]);
}

#[test]
fn migration_commands_decide_on_plain_values() {
    assert_eq!(steps_to_take(5, Some(2)), 2);
    assert_eq!(steps_to_take(1, Some(2)), 1);
    assert_eq!(steps_to_take(3, None), 3);
    let applied = vec!["20240101000000".to_string()];
    assert_eq!(status_label(&applied, "20240101000000"), "✓ Applied");
    assert_eq!(status_label(&applied, "20240102000000"), "  Pending");
    let files = vec![mig("20240101000000", "a"), mig("20240102000000", "b")];
    assert_eq!(find_migration(&files, "20240102000000"), Ok(1));
    assert_eq!(
        find_migration(&files, "1"),
        Err("Migration version 1 not found".to_string())
    );
    assert_eq!(migration_filename("20240101120000", "create_users"), "20240101120000_create_users.sql");
    assert_eq!(migration_template(), "-- UP --\n\n\n-- DOWN --\n\n");
    assert!(force_confirmed(" YES\n"));
    assert!(force_confirmed("yes"));
    assert!(!force_confirmed("y"));
    assert!(!force_confirmed("no"));
    let m = read_migration("20240101120000_create_users.sql", "-- UP --\nCREATE TABLE t();\n-- DOWN --\nDROP TABLE t;")
        .unwrap()
        .unwrap();
    assert_eq!((m.version.as_str(), m.name.as_str()), ("20240101120000", "create_users"));
    assert_eq!((m.up_sql.as_str(), m.down_sql.as_str()), ("CREATE TABLE t();", "DROP TABLE t;"));
    assert!(read_migration("notes.sql", "-- UP --\n-- DOWN --").unwrap().is_none());
    assert_eq!(
        read_migration("20240101120000_x.sql", "nothing").unwrap_err(),
        "Missing -- UP -- marker"
    );
}


fn obj(entries: Vec<(&str, JsonValue)>) -> JsonValue {
    JsonValue::Object(entries.into_iter().map(|(k, v)| (k.to_string(), v)).collect())
}

#[test]
fn step_configs_resolve_variables_and_name_results() {
    let mut reg = ModuleRegistry::new();
    let main = reg.register("main.wp".to_string(), vec![("lib".to_string(), 1)]);
    let lib = reg.register("lib.wp".to_string(), vec![]);
    let vars = vec![
        ScopedVariable {
            module_id: Some(lib),
            middleware: "pg".to_string(),
            variable: Variable { var_type: "pg".to_string(), name: "users".to_string(), value: "SELECT 1".to_string() },
        },
        ScopedVariable {
            module_id: Some(main),
            middleware: "pg".to_string(),
            variable: Variable { var_type: "pg".to_string(), name: "local".to_string(), value: "SELECT 2".to_string() },
        },
    ];
    let mut loc = SourceLocation::default();
    loc.module_id = Some(main);
    let input = obj(vec![("a", JsonValue::Number(JsonNumber::Int(1)))]);
    let (cfg, out, added) = resolve_config_and_autoname(&reg, &vars, &loc, "pg", "lib::users", &input);
    assert_eq!(cfg, "SELECT 1");
    assert!(added);
    match &out {
        JsonValue::Object(e) => assert!(e.iter().any(|(k, v)| k == "resultName" && matches!(v, JsonValue::Str(s) if s == "users"))),
        _ => panic!("expected an object"),
    }
    let (cfg, _, added) = resolve_config_and_autoname(&reg, &vars, &loc, "pg", "local", &input);
    assert_eq!((cfg.as_str(), added), ("SELECT 2", true));
    let named = obj(vec![("resultName", JsonValue::Str("mine".to_string()))]);
    let (_, _, added) = resolve_config_and_autoname(&reg, &vars, &loc, "pg", "local", &named);
    assert!(!added);
    let (cfg, _, added) = resolve_config_and_autoname(&reg, &vars, &loc, "pg", "SELECT 3", &input);
    assert_eq!((cfg.as_str(), added), ("SELECT 3", false));
    let (cfg, _, _) = resolve_config_and_autoname(&reg, &vars, &loc, "fetch", "local", &input);
    assert_eq!(cfg, "local");
}

#[test]
fn error_types_and_result_targets() {
    let err = obj(vec![("errors", JsonValue::Array(vec![obj(vec![("type", JsonValue::Str("validationError".to_string()))])]))]);
    assert_eq!(extract_error_type(&err), Some("validationError".to_string()));
    assert_eq!(extract_error_type(&obj(vec![("errors", JsonValue::Array(vec![]))])), None);
    assert_eq!(extract_error_type(&JsonValue::Null), None);
    let state = obj(vec![("resultName", JsonValue::Str("users".to_string()))]);
    assert_eq!(determine_target_name(&None, &state, true), (Some("users".to_string()), true));
    let cond = Some(TagExpr::Tag(tag("result", false, &["rows"])));
    assert_eq!(determine_target_name(&cond, &state, true), (Some("rows".to_string()), false));
    assert_eq!(determine_target_name(&None, &JsonValue::Null, true), (None, false));
}

#[test]
fn regular_steps_decide_mode_wrapping_and_content_type() {
    let args: Vec<String> = vec![];
    let cond = Some(TagExpr::Tag(tag("async", false, &["job"])));
    let none: Option<TagExpr> = None;
    let loc = SourceLocation::default();
    let pg = RegularStepExecutor::new("pg", &args, "SELECT 1", &none, None, &loc);
    assert!(matches!(pg.mode(), webpipe::step::ExecutionMode::Standard));
    assert!(pg.wraps_result(&Some("rows".to_string())));
    assert!(!pg.wraps_result(&None));
    assert!(!pg.sets_content_type("text/html", false));
    assert!(pg.sets_content_type("application/json", true));
    let hb = RegularStepExecutor::new("handlebars", &args, "", &none, None, &loc);
    assert!(hb.sets_content_type("text/html", false));
    let bg = RegularStepExecutor::new("jq", &args, ".", &cond, None, &loc);
    assert!(matches!(bg.mode(), webpipe::step::ExecutionMode::Async(n) if n == "job"));
}

#[test]
fn chart_option_expressions_and_migration_markers() {
    assert_eq!(gramgraph_options_expr("{width: 3}"), ".context as $context | .state | ({width: 3})");
    assert!(sections_overlap("-- UP -- DOWN --"));
    assert!(!sections_overlap("-- UP --\n-- DOWN --"));
    assert!(!sections_overlap("nothing"));
}
