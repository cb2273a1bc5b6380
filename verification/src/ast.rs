//! The abstract syntax tree of a Web Pipe program.

use vstd::prelude::*;

verus! {

/// Source location of an AST node: line and column (1-indexed), byte
/// offset, and the file and module it came from when known.
#[derive(Debug, Clone, Default)]
pub struct SourceLocation {
    pub line: usize,
    pub column: usize,
    pub offset: usize,
    pub file_path: Option<String>,
    pub module_id: Option<usize>,
}

impl SourceLocation {
    /// A location without a file.
    pub fn new(line: usize, column: usize, offset: usize) -> (r: Self)
        ensures
            r.line == line,
            r.column == column,
            r.offset == offset,
            r.file_path is None,
            r.module_id is None,
    {
        SourceLocation { line, column, offset, file_path: None, module_id: None }
    }

    /// A location in the file `file_path`.
    pub fn with_file(line: usize, column: usize, offset: usize, file_path: String) -> (r: Self)
        ensures
            r.line == line,
            r.column == column,
            r.offset == offset,
            r.file_path == Some(file_path),
            r.module_id is None,
    {
        SourceLocation { line, column, offset, file_path: Some(file_path), module_id: None }
    }
}

/// `import "./path.wp" as alias`.
#[derive(Debug, Clone)]
pub struct Import {
    pub path: String,
    pub alias: String,
    pub location: SourceLocation,
}

/// A parsed program: every top-level declaration, by kind, in source order.
#[derive(Debug)]
pub struct Program {
    pub configs: Vec<Config>,
    pub imports: Vec<Import>,
    pub pipelines: Vec<NamedPipeline>,
    pub variables: Vec<Variable>,
    pub routes: Vec<Route>,
    pub describes: Vec<Describe>,
    pub graphql_schema: Option<GraphQLSchema>,
    pub queries: Vec<QueryResolver>,
    pub mutations: Vec<MutationResolver>,
    pub resolvers: Vec<TypeResolver>,
    pub feature_flags: Option<Pipeline>,
}

/// `graphqlSchema = `...``.
#[derive(Debug, Clone)]
pub struct GraphQLSchema {
    pub sdl: String,
}

/// `query name = <pipeline>`.
#[derive(Debug)]
pub struct QueryResolver {
    pub name: String,
    pub pipeline: Pipeline,
}

/// `mutation name = <pipeline>`.
#[derive(Debug)]
pub struct MutationResolver {
    pub name: String,
    pub pipeline: Pipeline,
}

/// `resolver Type.field = <pipeline>`.
#[derive(Debug)]
pub struct TypeResolver {
    pub object_type: String,
    pub field_name: String,
    pub pipeline: Pipeline,
}

/// `config name { key: value ... }`.
#[derive(Debug, Clone)]
pub struct Config {
    pub name: String,
    pub properties: Vec<ConfigProperty>,
}

/// One `key: value` line of a config block.
#[derive(Debug, Clone)]
pub struct ConfigProperty {
    pub key: String,
    pub value: ConfigValue,
}

/// The value of a config property.
#[derive(Debug, Clone)]
pub enum ConfigValue {
    String(String),
    EnvVar { var: String, default: Option<String> },
    Boolean(bool),
    Number(i64),
}

/// `pipeline name = <pipeline>`.
#[derive(Debug)]
pub struct NamedPipeline {
    pub name: String,
    pub pipeline: Pipeline,
}

/// `kind name = `value``, e.g. a named SQL query.
#[derive(Debug, Clone)]
pub struct Variable {
    pub var_type: String,
    pub name: String,
    pub value: String,
}

/// `METHOD /path <pipeline>`.
#[derive(Debug)]
pub struct Route {
    pub method: String,
    pub path: String,
    pub pipeline: PipelineRef,
}

/// A route's pipeline: written inline or named.
#[derive(Debug)]
pub enum PipelineRef {
    Inline(Pipeline),
    Named(String),
}

/// A sequence of steps.
#[derive(Debug)]
pub struct Pipeline {
    pub steps: Vec<PipelineStep>,
}

/// How a step's configuration was written.
#[derive(Debug, Clone)]
pub enum ConfigType {
    Backtick,
    Quoted,
    Identifier,
}

/// How the value of a `let` binding was written.
#[derive(Debug, Clone)]
pub enum LetValueFormat {
    Quoted,
    Backtick,
    Bare,
}

/// A tag such as `@prod`, `@!flag(beta)` or `@async(user)`.
#[derive(Debug, Clone)]
pub struct Tag {
    pub name: String,
    pub negated: bool,
    pub args: Vec<String>,
}

/// A boolean expression over tags; `and` binds tighter than `or`.
#[derive(Debug)]
pub enum TagExpr {
    Tag(Tag),
    And(Box<TagExpr>, Box<TagExpr>),
    Or(Box<TagExpr>, Box<TagExpr>),
}

/// One step of a pipeline.
#[derive(Debug)]
pub enum PipelineStep {
    Regular {
        name: String,
        args: Vec<String>,
        config: String,
        config_type: ConfigType,
        condition: Option<TagExpr>,
        parsed_join_targets: Option<Vec<String>>,
        location: SourceLocation,
    },
    Result {
        branches: Vec<ResultBranch>,
        location: SourceLocation,
    },
    If {
        condition: Pipeline,
        then_branch: Pipeline,
        else_branch: Option<Pipeline>,
        location: SourceLocation,
    },
    Dispatch {
        branches: Vec<DispatchBranch>,
        default: Option<Pipeline>,
        location: SourceLocation,
    },
    Foreach {
        selector: String,
        pipeline: Pipeline,
        location: SourceLocation,
    },
}

/// The location of a step, whatever its kind.
pub open spec fn step_location(step: PipelineStep) -> SourceLocation {
    match step {
        PipelineStep::Regular { location, .. } => location,
        PipelineStep::Result { location, .. } => location,
        PipelineStep::If { location, .. } => location,
        PipelineStep::Dispatch { location, .. } => location,
        PipelineStep::Foreach { location, .. } => location,
    }
}

impl PipelineStep {
    /// The source location of this step.
    pub fn location(&self) -> (r: &SourceLocation)
        ensures
            *r == step_location(*self),
    {
        match self {
            PipelineStep::Regular { location, .. } => location,
            PipelineStep::Result { location, .. } => location,
            PipelineStep::If { location, .. } => location,
            PipelineStep::Dispatch { location, .. } => location,
            PipelineStep::Foreach { location, .. } => location,
        }
    }
}

/// `case <tag expression>: <pipeline>` of a dispatch step.
#[derive(Debug)]
pub struct DispatchBranch {
    pub condition: TagExpr,
    pub pipeline: Pipeline,
    pub location: SourceLocation,
}

/// `kind(status): <pipeline>` of a result step.
#[derive(Debug)]
pub struct ResultBranch {
    pub branch_type: ResultBranchType,
    pub status_code: u16,
    pub pipeline: Pipeline,
    pub location: SourceLocation,
}

/// The kind of a result branch.
#[derive(Debug, Clone)]
pub enum ResultBranchType {
    Success,
    Custom(String),
    Default,
}

/// `describe "name"` with its bindings, mocks and tests.
#[derive(Debug, Clone)]
pub struct Describe {
    pub name: String,
    pub variables: Vec<(String, String, LetValueFormat)>,
    pub mocks: Vec<Mock>,
    pub tests: Vec<It>,
}

/// `with mock target returning `value``.
#[derive(Debug, Clone)]
pub struct Mock {
    pub target: String,
    pub return_value: String,
}

/// `it "name"`: one test.
#[derive(Debug, Clone)]
pub struct It {
    pub name: String,
    pub mocks: Vec<Mock>,
    pub when: When,
    pub variables: Vec<(String, String, LetValueFormat)>,
    pub input: Option<String>,
    pub body: Option<String>,
    pub headers: Option<String>,
    pub cookies: Option<String>,
    pub conditions: Vec<Condition>,
}

/// What a test exercises.
#[derive(Debug, Clone)]
pub enum When {
    CallingRoute { method: String, path: String },
    ExecutingPipeline { name: String },
    ExecutingVariable { var_type: String, name: String },
}

/// A `then`/`and` assertion of a test.
#[derive(Debug, Clone)]
pub struct Condition {
    pub condition_type: ConditionType,
    pub field: String,
    pub header_name: Option<String>,
    pub jq_expr: Option<String>,
    pub comparison: String,
    pub value: String,
    pub is_call_assertion: bool,
    pub call_target: Option<String>,
    pub selector: Option<String>,
    pub dom_assert: Option<DomAssertType>,
}

/// `then` or `and`.
#[derive(Debug, Clone)]
pub enum ConditionType {
    Then,
    And,
}

/// The kind of a DOM assertion.
#[derive(Debug, Clone)]
pub enum DomAssertType {
    Exists,
    Text,
    Count,
    Attribute(String),
}

} // verus!
