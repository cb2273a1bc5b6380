//! Tests of the parser and printer on whole programs.

use webpipe::program::parse_program;
use webpipe::ast::{PipelineStep, ConfigType, TagExpr, PipelineRef};

#[test]
fn mod_parse_minimal_program_and_roundtrip_display() {
    let src = r#"
config cache {
  enabled: true
  defaultTtl: 60
}

pipeline simple =
  |> handlebars: `Hello`

GET /
  |> pipeline: simple

describe "home"
  it "returns html"
    when calling GET /
    then status is 200
"#;
    let (_rest, program) = parse_program(src).unwrap();
    // sanity checks
    assert_eq!(program.configs.len(), 1);
    assert_eq!(program.pipelines.len(), 1);
    assert_eq!(program.routes.len(), 1);
    assert_eq!(program.describes.len(), 1);

    // Display should not panic and include route path
    let s = program.to_string();
    assert!(s.contains("GET /"));
}

#[test]
fn mod_parse_pipeline_steps_with_different_config_types() {
    let src = r#"
pipeline test =
  |> handlebars: `multi
line
template`
  |> jq: "{ hello: world }"
  |> echo: myVariable
"#;
    let (_rest, program) = parse_program(src).unwrap();
    assert_eq!(program.pipelines.len(), 1);
    
    let pipeline = &program.pipelines[0].pipeline;
    assert_eq!(pipeline.steps.len(), 3);
    
    // Test backtick config type
    if let PipelineStep::Regular { name, config, config_type, .. } = &pipeline.steps[0] {
        assert_eq!(name, "handlebars");
        assert_eq!(config, "multi\nline\ntemplate");
        assert!(matches!(config_type, ConfigType::Backtick));
    } else {
        panic!("Expected Regular step");
    }

    // Test quoted config type
    if let PipelineStep::Regular { name, config, config_type, .. } = &pipeline.steps[1] {
        assert_eq!(name, "jq");
        assert_eq!(config, "{ hello: world }");
        assert!(matches!(config_type, ConfigType::Quoted));
    } else {
        panic!("Expected Regular step");
    }

    // Test identifier config type
    if let PipelineStep::Regular { name, config, config_type, .. } = &pipeline.steps[2] {
        assert_eq!(name, "echo");
        assert_eq!(config, "myVariable");
        assert!(matches!(config_type, ConfigType::Identifier));
    } else {
        panic!("Expected Regular step");
    }
    
    // Test roundtrip display preserves config type formatting
    let displayed = pipeline.to_string();
    assert!(displayed.contains("`multi\nline\ntemplate`"));
    assert!(displayed.contains("\"{ hello: world }\""));
    assert!(displayed.contains("myVariable")); // identifier without quotes
}

#[test]
fn mod_format_negated_tag() {
    let src = r#"
pipeline test =
  |> jq: `.` @!prod
"#;
    let (_rest, program) = parse_program(src).unwrap();
    let formatted = program.to_string();

    assert!(formatted.contains("@!prod"));
}

#[test]
fn mod_format_tag_with_args() {
    let src = r#"
pipeline test =
  |> jq: `.` @flag(a,b,c)
"#;
    let (_rest, program) = parse_program(src).unwrap();
    let formatted = program.to_string();

    assert!(formatted.contains("@flag(a,b,c)"));
}

#[test]
fn mod_result_steps_do_not_have_tags() {
    let src = r#"
pipeline test =
  |> result
    ok(200):
      |> jq: `{ok: true}`
"#;
    let (_rest, program) = parse_program(src).unwrap();
    let pipeline = &program.pipelines[0].pipeline;
    let step = &pipeline.steps[0];

    assert!(matches!(step, PipelineStep::Result { .. }));
}

#[test]
fn mod_parse_graphql_schema() {
    let src = r#"
graphqlSchema = `
  type Query {
    hello: String
  }
`
"#;
    let (_rest, program) = parse_program(src).unwrap();
    assert!(program.graphql_schema.is_some());
    let schema = program.graphql_schema.unwrap();
    assert!(schema.sdl.contains("hello"));
    assert!(schema.sdl.contains("Query"));
}

#[test]
fn mod_parse_query_resolver() {
    let src = r#"
query todos =
  |> auth: "required"
  |> jq: `{}`
"#;
    let (_rest, program) = parse_program(src).unwrap();
    assert_eq!(program.queries.len(), 1);
    assert_eq!(program.queries[0].name, "todos");
    assert_eq!(program.queries[0].pipeline.steps.len(), 2);
}

#[test]
fn mod_parse_mutation_resolver() {
    let src = r#"
mutation createTodo =
  |> auth: "required"
  |> jq: `{ title: .title }`
  |> pg: `INSERT INTO todos (title) VALUES ($1) RETURNING *`
"#;
    let (_rest, program) = parse_program(src).unwrap();
    assert_eq!(program.mutations.len(), 1);
    assert_eq!(program.mutations[0].name, "createTodo");
    assert_eq!(program.mutations[0].pipeline.steps.len(), 3);
}

#[test]
fn mod_roundtrip_graphql_constructs() {
    let src = r#"
graphqlSchema = `
  type Query {
    hello: String
  }
`

query hello =
  |> jq: `{ hello: "world" }`

mutation update =
  |> jq: `{ updated: true }`
"#;
    let (_rest, program) = parse_program(src).unwrap();
    let formatted = program.to_string();
    assert!(formatted.contains("graphqlSchema"));
    assert!(formatted.contains("query hello"));
    assert!(formatted.contains("mutation update"));
    assert!(formatted.contains("type Query"));
}

#[test]
fn mod_parse_comments_inside_pipeline() {
    let src = r#"
GET /test
  # comment before first step
  |> jq: `{ hello: "world" }`
  # comment between steps
  |> handlebars: `<p>{{hello}}</p>`
  # comment after last step
"#;
    let (_rest, program) = parse_program(src).unwrap();
    assert_eq!(program.routes.len(), 1);
    
    // Verify all steps were parsed despite comments
    if let PipelineRef::Inline(pipeline) = &program.routes[0].pipeline {
        assert_eq!(pipeline.steps.len(), 2);
    } else {
        panic!("Expected inline pipeline");
    }
}

#[test]
fn mod_parse_comments_inside_if_blocks() {
    let src = r#"
GET /test-if
  |> jq: `{ level: 10 }`
  # comment before if
  |> if
    |> jq: `.level > 5`
    # comment before then
    then:
      # comment inside then
      |> jq: `. + { status: "high" }`
    # comment before else
    else:
      # comment inside else
      |> jq: `. + { status: "low" }`
"#;
    let (_rest, program) = parse_program(src).unwrap();
    assert_eq!(program.routes.len(), 1);
    
    if let PipelineRef::Inline(pipeline) = &program.routes[0].pipeline {
        assert_eq!(pipeline.steps.len(), 2); // jq + if
        
        // Verify the if step was parsed correctly
        if let PipelineStep::If { condition, then_branch, else_branch, location: _ } = &pipeline.steps[1] {
            assert_eq!(condition.steps.len(), 1);
            assert_eq!(then_branch.steps.len(), 1);
            assert!(else_branch.is_some());
            assert_eq!(else_branch.as_ref().unwrap().steps.len(), 1);
        } else {
            panic!("Expected If step");
        }
    } else {
        panic!("Expected inline pipeline");
    }
}

#[test]
fn mod_parse_complete_graphql_program() {
    let src = r#"
config cache {
  enabled: true
}

graphqlSchema = `
  type Todo {
    id: ID!
    title: String!
  }

  type Query {
    todos: [Todo!]!
  }

  type Mutation {
    createTodo(title: String!): Todo!
  }
`

query todos =
  |> auth: "required"
  |> pg: `SELECT * FROM todos`
  |> jq: `.data.rows`

mutation createTodo =
  |> auth: "required"
  |> jq: `{ sqlParams: [.title] }`
  |> pg: `INSERT INTO todos (title) VALUES ($1) RETURNING *`
  |> jq: `.data.rows[0]`

GET /graphql
  |> graphql: `query { todos { id title } }`
"#;
    let (_rest, program) = parse_program(src).unwrap();
    assert_eq!(program.configs.len(), 1);
    assert!(program.graphql_schema.is_some());
    assert_eq!(program.queries.len(), 1);
    assert_eq!(program.mutations.len(), 1);
    assert_eq!(program.routes.len(), 1);
}

#[test]
fn parser_parse_minimal_program_and_roundtrip_display() {
    let src = r#"
config cache {
  enabled: true
  defaultTtl: 60
}

pipeline simple =
  |> handlebars: `Hello`

GET /
  |> pipeline: simple

describe "home"
  it "returns html"
    when calling GET /
    then status is 200
"#;
    let (_rest, program) = parse_program(src).unwrap();
    // sanity checks
    assert_eq!(program.configs.len(), 1);
    assert_eq!(program.pipelines.len(), 1);
    assert_eq!(program.routes.len(), 1);
    assert_eq!(program.describes.len(), 1);

    // Display should not panic and include route path
    let s = program.to_string();
    assert!(s.contains("GET /"));
}

#[test]
fn parser_parse_pipeline_steps_with_different_config_types() {
    let src = r#"
pipeline test =
  |> handlebars: `multi
line
template`
  |> jq: "{ hello: world }"
  |> echo: myVariable
"#;
    let (_rest, program) = parse_program(src).unwrap();
    assert_eq!(program.pipelines.len(), 1);
    
    let pipeline = &program.pipelines[0].pipeline;
    assert_eq!(pipeline.steps.len(), 3);
    
    // Test backtick config type
    if let PipelineStep::Regular { name, config, config_type, .. } = &pipeline.steps[0] {
        assert_eq!(name, "handlebars");
        assert_eq!(config, "multi\nline\ntemplate");
        assert!(matches!(config_type, ConfigType::Backtick));
    } else {
        panic!("Expected Regular step");
    }

    // Test quoted config type
    if let PipelineStep::Regular { name, config, config_type, .. } = &pipeline.steps[1] {
        assert_eq!(name, "jq");
        assert_eq!(config, "{ hello: world }");
        assert!(matches!(config_type, ConfigType::Quoted));
    } else {
        panic!("Expected Regular step");
    }

    // Test identifier config type
    if let PipelineStep::Regular { name, config, config_type, .. } = &pipeline.steps[2] {
        assert_eq!(name, "echo");
        assert_eq!(config, "myVariable");
        assert!(matches!(config_type, ConfigType::Identifier));
    } else {
        panic!("Expected Regular step");
    }
    
    // Test roundtrip display preserves config type formatting
    let displayed = pipeline.to_string();
    assert!(displayed.contains("`multi\nline\ntemplate`"));
    assert!(displayed.contains("\"{ hello: world }\""));
    assert!(displayed.contains("myVariable")); // identifier without quotes
}

#[test]
fn parser_parse_tags_on_regular_steps() {
    let src = r#"
pipeline test =
  |> jq: `{ hello: "world" }` @prod
  |> pg: `SELECT * FROM users` @dev @flag(new-ui)
  |> log: `level: debug` @!prod @async(user)
  |> echo: myVar @flag(beta,staff)
"#;
    let (_rest, program) = parse_program(src).unwrap();
    assert_eq!(program.pipelines.len(), 1);

    let pipeline = &program.pipelines[0].pipeline;
    assert_eq!(pipeline.steps.len(), 4);

    // Step 0: @prod (single tag)
    if let PipelineStep::Regular { condition: Some(TagExpr::Tag(tag)), .. } = &pipeline.steps[0] {
        assert_eq!(tag.name, "prod");
        assert_eq!(tag.negated, false);
        assert_eq!(tag.args.len(), 0);
    } else {
        panic!("Expected Regular step with single tag");
    }

    // Step 1: @dev @flag(new-ui) (implicit AND of two tags)
    if let PipelineStep::Regular { condition: Some(expr), .. } = &pipeline.steps[1] {
        // Should be: And(Tag(dev), Tag(flag(new-ui)))
        if let TagExpr::And(left, right) = expr {
            if let TagExpr::Tag(dev_tag) = left.as_ref() {
                assert_eq!(dev_tag.name, "dev");
            } else {
                panic!("Expected dev tag on left");
            }
            if let TagExpr::Tag(flag_tag) = right.as_ref() {
                assert_eq!(flag_tag.name, "flag");
                assert_eq!(flag_tag.args, vec!["new-ui"]);
            } else {
                panic!("Expected flag tag on right");
            }
        } else {
            panic!("Expected And expression");
        }
    } else {
        panic!("Expected Regular step with condition");
    }

    // Step 2: @!prod @async(user) (negated tag AND async tag)
    if let PipelineStep::Regular { condition: Some(expr), .. } = &pipeline.steps[2] {
        if let TagExpr::And(left, right) = expr {
            if let TagExpr::Tag(prod_tag) = left.as_ref() {
                assert_eq!(prod_tag.name, "prod");
                assert_eq!(prod_tag.negated, true);
            } else {
                panic!("Expected prod tag on left");
            }
            if let TagExpr::Tag(async_tag) = right.as_ref() {
                assert_eq!(async_tag.name, "async");
                assert_eq!(async_tag.args, vec!["user"]);
            } else {
                panic!("Expected async tag on right");
            }
        } else {
            panic!("Expected And expression");
        }
    } else {
        panic!("Expected Regular step with condition");
    }

    // Step 3: @flag(beta,staff) (single tag with multiple args)
    if let PipelineStep::Regular { condition: Some(TagExpr::Tag(tag)), .. } = &pipeline.steps[3] {
        assert_eq!(tag.name, "flag");
        assert_eq!(tag.args, vec!["beta", "staff"]);
    } else {
        panic!("Expected Regular step with single tag");
    }

    // Test roundtrip
    let displayed = pipeline.to_string();
    assert!(displayed.contains("@prod"));
    // Note: Display now uses TagExpr::Display which shows "X and Y" for And expressions
    assert!(displayed.contains("@dev and @flag(new-ui)"));
    assert!(displayed.contains("@!prod and @async(user)"));
    assert!(displayed.contains("@flag(beta,staff)"));
}

#[test]
fn parser_parse_steps_without_tags() {
    let src = r#"
pipeline test =
  |> jq: `.`
  |> echo: foo
"#;
    let (_rest, program) = parse_program(src).unwrap();
    let pipeline = &program.pipelines[0].pipeline;

    // Steps without tags should have condition = None
    if let PipelineStep::Regular { condition, .. } = &pipeline.steps[0] {
        assert!(condition.is_none());
    }
    if let PipelineStep::Regular { condition, .. } = &pipeline.steps[1] {
        assert!(condition.is_none());
    }
}

#[test]
fn mod_parse_steps_without_tags() {
    let src = r#"
pipeline test =
  |> jq: `.`
  |> echo: foo
"#;
    let (_rest, program) = parse_program(src).unwrap();
    let pipeline = &program.pipelines[0].pipeline;

    // A step written without tags carries no tag condition.
    if let PipelineStep::Regular { condition, .. } = &pipeline.steps[0] {
        assert!(condition.is_none());
    }
    if let PipelineStep::Regular { condition, .. } = &pipeline.steps[1] {
        assert!(condition.is_none());
    }
}

#[test]
fn parser_format_tags_correctly() {
    let src = r#"
pipeline test =
  |> jq: `.` @prod @dev
"#;
    let (_rest, program) = parse_program(src).unwrap();
    let formatted = program.to_string();

    // Multiple space-separated tags are now parsed as implicit AND
    assert!(formatted.contains("@prod and @dev"));
}

#[test]
fn parser_format_negated_tag() {
    let src = r#"
pipeline test =
  |> jq: `.` @!prod
"#;
    let (_rest, program) = parse_program(src).unwrap();
    let formatted = program.to_string();

    assert!(formatted.contains("@!prod"));
}

#[test]
fn parser_format_tag_with_args() {
    let src = r#"
pipeline test =
  |> jq: `.` @flag(a,b,c)
"#;
    let (_rest, program) = parse_program(src).unwrap();
    let formatted = program.to_string();

    assert!(formatted.contains("@flag(a,b,c)"));
}

#[test]
fn parser_result_steps_do_not_have_tags() {
    let src = r#"
pipeline test =
  |> result
    ok(200):
      |> jq: `{ok: true}`
"#;
    let (_rest, program) = parse_program(src).unwrap();
    let pipeline = &program.pipelines[0].pipeline;
    let step = &pipeline.steps[0];

    assert!(matches!(step, PipelineStep::Result { .. }));
}

#[test]
fn parser_parse_graphql_schema() {
    let src = r#"
graphqlSchema = `
  type Query {
    hello: String
  }
`
"#;
    let (_rest, program) = parse_program(src).unwrap();
    assert!(program.graphql_schema.is_some());
    let schema = program.graphql_schema.unwrap();
    assert!(schema.sdl.contains("hello"));
    assert!(schema.sdl.contains("Query"));
}

#[test]
fn parser_parse_query_resolver() {
    let src = r#"
query todos =
  |> auth: "required"
  |> jq: `{}`
"#;
    let (_rest, program) = parse_program(src).unwrap();
    assert_eq!(program.queries.len(), 1);
    assert_eq!(program.queries[0].name, "todos");
    assert_eq!(program.queries[0].pipeline.steps.len(), 2);
}

#[test]
fn parser_parse_mutation_resolver() {
    let src = r#"
mutation createTodo =
  |> auth: "required"
  |> jq: `{ title: .title }`
  |> pg: `INSERT INTO todos (title) VALUES ($1) RETURNING *`
"#;
    let (_rest, program) = parse_program(src).unwrap();
    assert_eq!(program.mutations.len(), 1);
    assert_eq!(program.mutations[0].name, "createTodo");
    assert_eq!(program.mutations[0].pipeline.steps.len(), 3);
}

#[test]
fn parser_roundtrip_graphql_constructs() {
    let src = r#"
graphqlSchema = `
  type Query {
    hello: String
  }
`

query hello =
  |> jq: `{ hello: "world" }`

mutation update =
  |> jq: `{ updated: true }`
"#;
    let (_rest, program) = parse_program(src).unwrap();
    let formatted = program.to_string();
    assert!(formatted.contains("graphqlSchema"));
    assert!(formatted.contains("query hello"));
    assert!(formatted.contains("mutation update"));
    assert!(formatted.contains("type Query"));
}

#[test]
fn parser_parse_comments_inside_pipeline() {
    let src = r#"
GET /test
  # comment before first step
  |> jq: `{ hello: "world" }`
  # comment between steps
  |> handlebars: `<p>{{hello}}</p>`
  # comment after last step
"#;
    let (_rest, program) = parse_program(src).unwrap();
    assert_eq!(program.routes.len(), 1);
    
    // Verify all steps were parsed despite comments
    if let PipelineRef::Inline(pipeline) = &program.routes[0].pipeline {
        assert_eq!(pipeline.steps.len(), 2);
    } else {
        panic!("Expected inline pipeline");
    }
}

#[test]
fn parser_parse_comments_inside_if_blocks() {
    let src = r#"
GET /test-if
  |> jq: `{ level: 10 }`
  # comment before if
  |> if
    |> jq: `.level > 5`
    # comment before then
    then:
      # comment inside then
      |> jq: `. + { status: "high" }`
    # comment before else
    else:
      # comment inside else
      |> jq: `. + { status: "low" }`
"#;
    let (_rest, program) = parse_program(src).unwrap();
    assert_eq!(program.routes.len(), 1);
    
    if let PipelineRef::Inline(pipeline) = &program.routes[0].pipeline {
        assert_eq!(pipeline.steps.len(), 2); // jq + if
        
        // Verify the if step was parsed correctly
        if let PipelineStep::If { condition, then_branch, else_branch, location: _ } = &pipeline.steps[1] {
            assert_eq!(condition.steps.len(), 1);
            assert_eq!(then_branch.steps.len(), 1);
            assert!(else_branch.is_some());
            assert_eq!(else_branch.as_ref().unwrap().steps.len(), 1);
        } else {
            panic!("Expected If step");
        }
    } else {
        panic!("Expected inline pipeline");
    }
}

#[test]
fn parser_parse_complete_graphql_program() {
    let src = r#"
config cache {
  enabled: true
}

graphqlSchema = `
  type Todo {
    id: ID!
    title: String!
  }

  type Query {
    todos: [Todo!]!
  }

  type Mutation {
    createTodo(title: String!): Todo!
  }
`

query todos =
  |> auth: "required"
  |> pg: `SELECT * FROM todos`
  |> jq: `.data.rows`

mutation createTodo =
  |> auth: "required"
  |> jq: `{ sqlParams: [.title] }`
  |> pg: `INSERT INTO todos (title) VALUES ($1) RETURNING *`
  |> jq: `.data.rows[0]`

GET /graphql
  |> graphql: `query { todos { id title } }`
"#;
    let (_rest, program) = parse_program(src).unwrap();
    assert_eq!(program.configs.len(), 1);
    assert!(program.graphql_schema.is_some());
    assert_eq!(program.queries.len(), 1);
    assert_eq!(program.mutations.len(), 1);
    assert_eq!(program.routes.len(), 1);
}

#[test]
fn parse_dispatch_basic() {
    let src = r#"
GET /dashboard
  |> dispatch
    case @flag(experimental):
      |> pipeline: experimentalDash
    case @env(dev):
      |> pipeline: devDash
    default:
      |> pipeline: standardDash
"#;
    let (_rest, program) = parse_program(src).unwrap();
    assert_eq!(program.routes.len(), 1);

    if let PipelineRef::Inline(pipeline) = &program.routes[0].pipeline {
        assert_eq!(pipeline.steps.len(), 1);

        if let PipelineStep::Dispatch { branches, default, location: _ } = &pipeline.steps[0] {
            assert_eq!(branches.len(), 2);

            // Check first case: @flag(experimental)
            if let TagExpr::Tag(tag) = &branches[0].condition {
                assert_eq!(tag.name, "flag");
                assert_eq!(tag.args, vec!["experimental"]);
            } else {
                panic!("Expected Tag");
            }
            assert_eq!(branches[0].pipeline.steps.len(), 1);

            // Check second case: @env(dev)
            if let TagExpr::Tag(tag) = &branches[1].condition {
                assert_eq!(tag.name, "env");
                assert_eq!(tag.args, vec!["dev"]);
            } else {
                panic!("Expected Tag");
            }
            assert_eq!(branches[1].pipeline.steps.len(), 1);

            // Check default branch exists
            assert!(default.is_some());
            assert_eq!(default.as_ref().unwrap().steps.len(), 1);
        } else {
            panic!("Expected Dispatch step");
        }
    } else {
        panic!("Expected inline pipeline");
    }
}

#[test]
fn parse_dispatch_no_default() {
    let src = r#"
GET /test
  |> dispatch
    case @flag(beta):
      |> jq: `{ version: "beta" }`
    case @flag(alpha):
      |> jq: `{ version: "alpha" }`
"#;
    let (_rest, program) = parse_program(src).unwrap();

    if let PipelineRef::Inline(pipeline) = &program.routes[0].pipeline {
        if let PipelineStep::Dispatch { branches, default, location: _ } = &pipeline.steps[0] {
            assert_eq!(branches.len(), 2);
            assert!(default.is_none());
        } else {
            panic!("Expected Dispatch step");
        }
    }
}

#[test]
fn parse_dispatch_with_end_keyword() {
    let src = r#"
GET /test
  |> dispatch
    case @env(prod):
      |> jq: `{ env: "production" }`
    default:
      |> jq: `{ env: "other" }`
  end
  |> handlebars: `<p>{{env}}</p>`
"#;
    let (_rest, program) = parse_program(src).unwrap();

    if let PipelineRef::Inline(pipeline) = &program.routes[0].pipeline {
        assert_eq!(pipeline.steps.len(), 2); // dispatch + handlebars

        if let PipelineStep::Dispatch { branches, default, location: _ } = &pipeline.steps[0] {
            assert_eq!(branches.len(), 1);
            assert!(default.is_some());
        } else {
            panic!("Expected Dispatch step");
        }
    }
}

#[test]
fn parse_dispatch_multi_step_pipelines() {
    let src = r#"
GET /complex
  |> dispatch
    case @flag(experimental):
      |> jq: `{ step: 1 }`
      |> pg: `SELECT * FROM experimental`
      |> handlebars: `<p>Experimental</p>`
    default:
      |> jq: `{ step: 1 }`
      |> handlebars: `<p>Default</p>`
"#;
    let (_rest, program) = parse_program(src).unwrap();

    if let PipelineRef::Inline(pipeline) = &program.routes[0].pipeline {
        if let PipelineStep::Dispatch { branches, default, location: _ } = &pipeline.steps[0] {
            // First branch has 3 steps
            assert_eq!(branches[0].pipeline.steps.len(), 3);
            // Default branch has 2 steps
            assert_eq!(default.as_ref().unwrap().steps.len(), 2);
        } else {
            panic!("Expected Dispatch step");
        }
    }
}

#[test]
fn parse_dispatch_negated_tag() {
    let src = r#"
GET /test
  |> dispatch
    case @!env(production):
      |> jq: `{ mode: "non-production" }`
    default:
      |> jq: `{ mode: "production" }`
"#;
    let (_rest, program) = parse_program(src).unwrap();

    if let PipelineRef::Inline(pipeline) = &program.routes[0].pipeline {
        if let PipelineStep::Dispatch { branches, .. } = &pipeline.steps[0] {
            if let TagExpr::Tag(tag) = &branches[0].condition {
                assert_eq!(tag.name, "env");
                assert_eq!(tag.negated, true);
                assert_eq!(tag.args, vec!["production"]);
            } else {
                panic!("Expected Tag");
            }
        } else {
            panic!("Expected Dispatch step");
        }
    }
}

#[test]
fn parse_dispatch_with_comments() {
    let src = r#"
GET /test
  # comment before dispatch
  |> dispatch
    # comment before first case
    case @flag(experimental):
      # comment inside branch
      |> jq: `{ version: "experimental" }`
    # comment between cases
    case @env(dev):
      |> jq: `{ env: "dev" }`
    # comment before default
    default:
      # comment inside default
      |> jq: `{ fallback: true }`
  # comment after dispatch
"#;
    let (_rest, program) = parse_program(src).unwrap();
    assert_eq!(program.routes.len(), 1);

    if let PipelineRef::Inline(pipeline) = &program.routes[0].pipeline {
        if let PipelineStep::Dispatch { branches, default, location: _ } = &pipeline.steps[0] {
            assert_eq!(branches.len(), 2);
            assert!(default.is_some());
        } else {
            panic!("Expected Dispatch step");
        }
    }
}

#[test]
fn roundtrip_dispatch_formatting() {
    let src = r#"
pipeline test =
  |> dispatch
    case @flag(experimental):
      |> pipeline: experimentalDash
    case @env(dev):
      |> pipeline: devDash
    default:
      |> pipeline: standardDash
"#;
    let (_rest, program) = parse_program(src).unwrap();
    let formatted = program.to_string();

    // Check key elements are preserved
    assert!(formatted.contains("dispatch"));
    assert!(formatted.contains("case @flag(experimental):"));
    assert!(formatted.contains("case @env(dev):"));
    assert!(formatted.contains("default:"));
}

#[test]
fn parse_dispatch_oneliner_syntax() {
    // Test that one-liner syntax works (case keyword is the delimiter)
    let src = r#"
GET /dash
  |> dispatch case @flag(exp): |> pipeline: exp case @env(dev): |> pipeline: dev default: |> pipeline: std end
"#;
    let (_rest, program) = parse_program(src).unwrap();

    if let PipelineRef::Inline(pipeline) = &program.routes[0].pipeline {
        if let PipelineStep::Dispatch { branches, default, location: _ } = &pipeline.steps[0] {
            assert_eq!(branches.len(), 2);
            assert!(default.is_some());
            if let TagExpr::Tag(tag0) = &branches[0].condition {
                assert_eq!(tag0.name, "flag");
            } else {
                panic!("Expected Tag");
            }
            if let TagExpr::Tag(tag1) = &branches[1].condition {
                assert_eq!(tag1.name, "env");
            } else {
                panic!("Expected Tag");
            }
        } else {
            panic!("Expected Dispatch step");
        }
    }
}
