//! Errors of the runtime, with the HTTP status and type label each one is
//! answered with.

use vstd::prelude::*;
use crate::ast::SourceLocation;
use crate::json::{JsonValue, Json, jv, json_int, json_str};
use crate::text::{dec, find, occurs_at, chars_of, string_of, append, append_str, find_chars, slice_chars,
    u64_to_chars};

verus! {

/// An error raised while loading or running a program.
#[derive(Debug)]
pub enum WebPipeError {
    /// An error with the source location of the step that raised it.
    Located { location: String, source: Box<WebPipeError> },
    ParseError(String),
    RouteNotFound(String),
    PipelineNotFound(String),
    MiddlewareNotFound(String),
    MiddlewareExecutionError(String),
    ConfigError(String),
    DatabaseError(String),
    AuthError(String),
    ValidationError(String),
    TemplateError(String),
    NetworkError(String),
    CacheError(String),
    ScriptError(String),
    IoError(String),
    JsonError(String),
    InternalError(String),
    BadRequest(String),
    Unauthorized(String),
    Forbidden(String),
    NotFound(String),
    MethodNotAllowed(String),
    Timeout(String),
    RateLimitExceeded(String),
    ImportNotFound(String),
    CircularImport(String),
    DuplicateAlias(String),
    UndefinedScopedReference(String),
    DebuggerError(String),
}

/// The text before an error's message in its display form.
pub open spec fn error_prefix(e: WebPipeError) -> Seq<char> {
    match e {
        WebPipeError::Located { .. } => "At "@,
        WebPipeError::ParseError(_) => "Parse error: "@,
        WebPipeError::RouteNotFound(_) => "Route not found: "@,
        WebPipeError::PipelineNotFound(_) => "Pipeline not found: "@,
        WebPipeError::MiddlewareNotFound(_) => "Middleware not found: "@,
        WebPipeError::MiddlewareExecutionError(_) => "Middleware execution failed: "@,
        WebPipeError::ConfigError(_) => "Configuration error: "@,
        WebPipeError::DatabaseError(_) => "Database error: "@,
        WebPipeError::AuthError(_) => "Authentication error: "@,
        WebPipeError::ValidationError(_) => "Validation error: "@,
        WebPipeError::TemplateError(_) => "Template error: "@,
        WebPipeError::NetworkError(_) => "Network error: "@,
        WebPipeError::CacheError(_) => "Cache error: "@,
        WebPipeError::ScriptError(_) => "Script execution error: "@,
        WebPipeError::IoError(_) => "IO error: "@,
        WebPipeError::JsonError(_) => "JSON error: "@,
        WebPipeError::InternalError(_) => "Internal server error: "@,
        WebPipeError::BadRequest(_) => "Bad request: "@,
        WebPipeError::Unauthorized(_) => "Unauthorized: "@,
        WebPipeError::Forbidden(_) => "Forbidden: "@,
        WebPipeError::NotFound(_) => "Not found: "@,
        WebPipeError::MethodNotAllowed(_) => "Method not allowed: "@,
        WebPipeError::Timeout(_) => "Timeout error: "@,
        WebPipeError::RateLimitExceeded(_) => "Rate limit exceeded: "@,
        WebPipeError::ImportNotFound(_) => "Import not found: "@,
        WebPipeError::CircularImport(_) => "Circular import detected: "@,
        WebPipeError::DuplicateAlias(_) => "Duplicate import alias: "@,
        WebPipeError::UndefinedScopedReference(_) => "Undefined scoped reference: "@,
        WebPipeError::DebuggerError(_) => "Debugger error: "@,
    }
}

/// The message an error carries (the location, for a located error).
pub open spec fn error_payload(e: WebPipeError) -> Seq<char> {
    match e {
        WebPipeError::Located { location, .. } => location@,
        WebPipeError::ParseError(m) => m@,
        WebPipeError::RouteNotFound(m) => m@,
        WebPipeError::PipelineNotFound(m) => m@,
        WebPipeError::MiddlewareNotFound(m) => m@,
        WebPipeError::MiddlewareExecutionError(m) => m@,
        WebPipeError::ConfigError(m) => m@,
        WebPipeError::DatabaseError(m) => m@,
        WebPipeError::AuthError(m) => m@,
        WebPipeError::ValidationError(m) => m@,
        WebPipeError::TemplateError(m) => m@,
        WebPipeError::NetworkError(m) => m@,
        WebPipeError::CacheError(m) => m@,
        WebPipeError::ScriptError(m) => m@,
        WebPipeError::IoError(m) => m@,
        WebPipeError::JsonError(m) => m@,
        WebPipeError::InternalError(m) => m@,
        WebPipeError::BadRequest(m) => m@,
        WebPipeError::Unauthorized(m) => m@,
        WebPipeError::Forbidden(m) => m@,
        WebPipeError::NotFound(m) => m@,
        WebPipeError::MethodNotAllowed(m) => m@,
        WebPipeError::Timeout(m) => m@,
        WebPipeError::RateLimitExceeded(m) => m@,
        WebPipeError::ImportNotFound(m) => m@,
        WebPipeError::CircularImport(m) => m@,
        WebPipeError::DuplicateAlias(m) => m@,
        WebPipeError::UndefinedScopedReference(m) => m@,
        WebPipeError::DebuggerError(m) => m@,
    }
}

/// The display form of an error (what `to_string` gives).
pub open spec fn error_text(e: WebPipeError) -> Seq<char>
    decreases e,
{
    match e {
        WebPipeError::Located { location, source } => "At "@ + location@ + ": "@ + error_text(*source),
        _ => error_prefix(e) + error_payload(e),
    }
}

/// The HTTP status an error is answered with; a located error answers as
/// its source does.
pub open spec fn error_status(e: WebPipeError) -> u16
    decreases e,
{
    match e {
        WebPipeError::Located { source, .. } => error_status(*source),
        WebPipeError::ParseError(_) => 400,
        WebPipeError::RouteNotFound(_) => 404,
        WebPipeError::PipelineNotFound(_) => 500,
        WebPipeError::MiddlewareNotFound(_) => 500,
        WebPipeError::MiddlewareExecutionError(_) => 500,
        WebPipeError::ConfigError(_) => 500,
        WebPipeError::DatabaseError(_) => 500,
        WebPipeError::AuthError(_) => 401,
        WebPipeError::ValidationError(_) => 400,
        WebPipeError::TemplateError(_) => 500,
        WebPipeError::NetworkError(_) => 502,
        WebPipeError::CacheError(_) => 500,
        WebPipeError::ScriptError(_) => 500,
        WebPipeError::IoError(_) => 500,
        WebPipeError::JsonError(_) => 400,
        WebPipeError::InternalError(_) => 500,
        WebPipeError::BadRequest(_) => 400,
        WebPipeError::Unauthorized(_) => 401,
        WebPipeError::Forbidden(_) => 403,
        WebPipeError::NotFound(_) => 404,
        WebPipeError::MethodNotAllowed(_) => 405,
        WebPipeError::Timeout(_) => 408,
        WebPipeError::RateLimitExceeded(_) => 429,
        WebPipeError::ImportNotFound(_) => 500,
        WebPipeError::CircularImport(_) => 500,
        WebPipeError::DuplicateAlias(_) => 500,
        WebPipeError::UndefinedScopedReference(_) => 500,
        WebPipeError::DebuggerError(_) => 500,
    }
}

/// The type label of an error; a located error has its source's label.
pub open spec fn error_kind(e: WebPipeError) -> Seq<char>
    decreases e,
{
    match e {
        WebPipeError::Located { source, .. } => error_kind(*source),
        WebPipeError::ParseError(_) => "parse_error"@,
        WebPipeError::RouteNotFound(_) => "route_not_found"@,
        WebPipeError::PipelineNotFound(_) => "pipeline_not_found"@,
        WebPipeError::MiddlewareNotFound(_) => "middleware_not_found"@,
        WebPipeError::MiddlewareExecutionError(_) => "middleware_execution_error"@,
        WebPipeError::ConfigError(_) => "config_error"@,
        WebPipeError::DatabaseError(_) => "database_error"@,
        WebPipeError::AuthError(_) => "auth_error"@,
        WebPipeError::ValidationError(_) => "validation_error"@,
        WebPipeError::TemplateError(_) => "template_error"@,
        WebPipeError::NetworkError(_) => "network_error"@,
        WebPipeError::CacheError(_) => "cache_error"@,
        WebPipeError::ScriptError(_) => "script_error"@,
        WebPipeError::IoError(_) => "io_error"@,
        WebPipeError::JsonError(_) => "json_error"@,
        WebPipeError::InternalError(_) => "internal_error"@,
        WebPipeError::BadRequest(_) => "bad_request"@,
        WebPipeError::Unauthorized(_) => "unauthorized"@,
        WebPipeError::Forbidden(_) => "forbidden"@,
        WebPipeError::NotFound(_) => "not_found"@,
        WebPipeError::MethodNotAllowed(_) => "method_not_allowed"@,
        WebPipeError::Timeout(_) => "timeout"@,
        WebPipeError::RateLimitExceeded(_) => "rate_limit_exceeded"@,
        WebPipeError::ImportNotFound(_) => "import_not_found"@,
        WebPipeError::CircularImport(_) => "circular_import"@,
        WebPipeError::DuplicateAlias(_) => "duplicate_alias"@,
        WebPipeError::UndefinedScopedReference(_) => "undefined_scoped_reference"@,
        WebPipeError::DebuggerError(_) => "debugger_error"@,
    }
}

/// The label a location gives in error messages: `file:line` when the
/// file is known.
pub open spec fn location_label(loc: SourceLocation) -> Option<Seq<char>> {
    match loc.file_path {
        Some(f) => Some(f@ + ":"@ + dec(loc.line as nat)),
        None => None,
    }
}

/// The middleware part of the pipeline details: the summary before the
/// first `": "` and the payload after it on its own line.
pub open spec fn middleware_details(message: Seq<char>) -> Seq<char> {
    match find(message, ": "@) {
        Some(i) => "Middleware execution failed, "@ + message.take(i) + ":\n"@ + message.skip(i + 2),
        None => "Middleware execution failed:\n"@ + message,
    }
}

/// The multi-line description of a failed pipeline.
pub open spec fn pipeline_details(e: WebPipeError) -> Seq<char> {
    match e {
        WebPipeError::Located { location, source } => match *source {
            WebPipeError::MiddlewareExecutionError(m) => "At "@ + location@ + "\n"@ + middleware_details(m@),
            _ => "At "@ + location@ + "\n"@ + error_text(*source),
        },
        WebPipeError::MiddlewareExecutionError(m) => middleware_details(m@),
        _ => error_text(e),
    }
}

/// The label of a location (`file:line`), when it has a file.
pub fn error_label(loc: &SourceLocation) -> (r: Option<String>)
    ensures
        match r {
            Some(s) => location_label(*loc) == Some(s@),
            None => location_label(*loc) is None,
        },
{
    match &loc.file_path {
        Some(f) => {
            let mut v: Vec<char> = Vec::new();
            append_str(&mut v, f.as_str());
            append_str(&mut v, ":");
            let d = u64_to_chars(loc.line as u64);
            append(&mut v, d.as_slice());
            Some(string_of(v.as_slice()))
        },
        None => None,
    }
}

/// The middleware part of the pipeline details.
fn format_middleware_details(message: &str) -> (r: Vec<char>)
    ensures
        r@ == middleware_details(message@),
{
    let m = chars_of(message);
    let sep = chars_of(": ");
    proof { reveal_strlit(": "); }
    let mut out: Vec<char> = Vec::new();
    match find_chars(m.as_slice(), sep.as_slice()) {
        Some(i) => {
            append_str(&mut out, "Middleware execution failed, ");
            let head = slice_chars(m.as_slice(), 0, i);
            let n = m.len();
            let tail = slice_chars(m.as_slice(), i + 2, m.len());
            append(&mut out, head.as_slice());
            append_str(&mut out, ":\n");
            append(&mut out, tail.as_slice());
            assert(out@ =~= middleware_details(message@));
        },
        None => {
            append_str(&mut out, "Middleware execution failed:\n");
            append(&mut out, m.as_slice());
        },
    }
    out
}

impl WebPipeError {
    /// The prefix and message of an error other than a located one.
    fn parts(&self) -> (r: (&'static str, &String))
        requires
            !(*self is Located),
        ensures
            r.0@ == error_prefix(*self),
            r.1@ == error_payload(*self),
    {
        match self {
            WebPipeError::ParseError(m) => ("Parse error: ", m),
            WebPipeError::RouteNotFound(m) => ("Route not found: ", m),
            WebPipeError::PipelineNotFound(m) => ("Pipeline not found: ", m),
            WebPipeError::MiddlewareNotFound(m) => ("Middleware not found: ", m),
            WebPipeError::MiddlewareExecutionError(m) => ("Middleware execution failed: ", m),
            WebPipeError::ConfigError(m) => ("Configuration error: ", m),
            WebPipeError::DatabaseError(m) => ("Database error: ", m),
            WebPipeError::AuthError(m) => ("Authentication error: ", m),
            WebPipeError::ValidationError(m) => ("Validation error: ", m),
            WebPipeError::TemplateError(m) => ("Template error: ", m),
            WebPipeError::NetworkError(m) => ("Network error: ", m),
            WebPipeError::CacheError(m) => ("Cache error: ", m),
            WebPipeError::ScriptError(m) => ("Script execution error: ", m),
            WebPipeError::IoError(m) => ("IO error: ", m),
            WebPipeError::JsonError(m) => ("JSON error: ", m),
            WebPipeError::InternalError(m) => ("Internal server error: ", m),
            WebPipeError::BadRequest(m) => ("Bad request: ", m),
            WebPipeError::Unauthorized(m) => ("Unauthorized: ", m),
            WebPipeError::Forbidden(m) => ("Forbidden: ", m),
            WebPipeError::NotFound(m) => ("Not found: ", m),
            WebPipeError::MethodNotAllowed(m) => ("Method not allowed: ", m),
            WebPipeError::Timeout(m) => ("Timeout error: ", m),
            WebPipeError::RateLimitExceeded(m) => ("Rate limit exceeded: ", m),
            WebPipeError::ImportNotFound(m) => ("Import not found: ", m),
            WebPipeError::CircularImport(m) => ("Circular import detected: ", m),
            WebPipeError::DuplicateAlias(m) => ("Duplicate import alias: ", m),
            WebPipeError::UndefinedScopedReference(m) => ("Undefined scoped reference: ", m),
            WebPipeError::DebuggerError(m) => ("Debugger error: ", m),
            WebPipeError::Located { location, .. } => ("At ", location),
        }
    }

    /// The display form of the error.
    pub fn to_string(&self) -> (r: String)
        ensures
            r@ == error_text(*self),
    {
        let mut out: Vec<char> = Vec::new();
        self.write_text(&mut out);
        string_of(out.as_slice())
    }

    /// Appends the display form of the error.
    fn write_text(&self, out: &mut Vec<char>)
        ensures
            final(out)@ == old(out)@ + error_text(*self),
        decreases self,
    {
        match self {
            WebPipeError::Located { location, source } => {
                let ghost base = out@;
                append_str(out, "At ");
                append_str(out, location.as_str());
                append_str(out, ": ");
                source.write_text(out);
                assert(out@ =~= base + error_text(*self));
            },
            _ => {
                let (p, m) = self.parts();
                let ghost base = out@;
                append_str(out, p);
                append_str(out, m.as_str());
                assert(out@ =~= base + error_text(*self));
            },
        }
    }

    /// Attaches `location` (when it names a file) unless the error already
    /// carries one.
    pub fn with_source_location(self, location: &SourceLocation) -> (r: Self)
        ensures
            locates(self, *location, r),
    {
        let label = match error_label(location) {
            Some(l) => l,
            None => {
                return self;
            },
        };
        match self {
            WebPipeError::Located { .. } => self,
            other => WebPipeError::Located { location: label, source: Box::new(other) },
        }
    }

    /// The HTTP status the error is answered with.
    pub fn status_code(&self) -> (r: u16)
        ensures
            r == error_status(*self),
        decreases self,
    {
        match self {
            WebPipeError::Located { source, .. } => source.status_code(),
            WebPipeError::ParseError(_) => 400,
            WebPipeError::RouteNotFound(_) => 404,
            WebPipeError::PipelineNotFound(_) => 500,
            WebPipeError::MiddlewareNotFound(_) => 500,
            WebPipeError::MiddlewareExecutionError(_) => 500,
            WebPipeError::ConfigError(_) => 500,
            WebPipeError::DatabaseError(_) => 500,
            WebPipeError::AuthError(_) => 401,
            WebPipeError::ValidationError(_) => 400,
            WebPipeError::TemplateError(_) => 500,
            WebPipeError::NetworkError(_) => 502,
            WebPipeError::CacheError(_) => 500,
            WebPipeError::ScriptError(_) => 500,
            WebPipeError::IoError(_) => 500,
            WebPipeError::JsonError(_) => 400,
            WebPipeError::InternalError(_) => 500,
            WebPipeError::BadRequest(_) => 400,
            WebPipeError::Unauthorized(_) => 401,
            WebPipeError::Forbidden(_) => 403,
            WebPipeError::NotFound(_) => 404,
            WebPipeError::MethodNotAllowed(_) => 405,
            WebPipeError::Timeout(_) => 408,
            WebPipeError::RateLimitExceeded(_) => 429,
            WebPipeError::ImportNotFound(_) => 500,
            WebPipeError::CircularImport(_) => 500,
            WebPipeError::DuplicateAlias(_) => 500,
            WebPipeError::UndefinedScopedReference(_) => 500,
            WebPipeError::DebuggerError(_) => 500,
        }
    }

    /// The type label of the error.
    pub fn error_type(&self) -> (r: &'static str)
        ensures
            r@ == error_kind(*self),
        decreases self,
    {
        match self {
            WebPipeError::Located { source, .. } => source.error_type(),
            WebPipeError::ParseError(_) => "parse_error",
            WebPipeError::RouteNotFound(_) => "route_not_found",
            WebPipeError::PipelineNotFound(_) => "pipeline_not_found",
            WebPipeError::MiddlewareNotFound(_) => "middleware_not_found",
            WebPipeError::MiddlewareExecutionError(_) => "middleware_execution_error",
            WebPipeError::ConfigError(_) => "config_error",
            WebPipeError::DatabaseError(_) => "database_error",
            WebPipeError::AuthError(_) => "auth_error",
            WebPipeError::ValidationError(_) => "validation_error",
            WebPipeError::TemplateError(_) => "template_error",
            WebPipeError::NetworkError(_) => "network_error",
            WebPipeError::CacheError(_) => "cache_error",
            WebPipeError::ScriptError(_) => "script_error",
            WebPipeError::IoError(_) => "io_error",
            WebPipeError::JsonError(_) => "json_error",
            WebPipeError::InternalError(_) => "internal_error",
            WebPipeError::BadRequest(_) => "bad_request",
            WebPipeError::Unauthorized(_) => "unauthorized",
            WebPipeError::Forbidden(_) => "forbidden",
            WebPipeError::NotFound(_) => "not_found",
            WebPipeError::MethodNotAllowed(_) => "method_not_allowed",
            WebPipeError::Timeout(_) => "timeout",
            WebPipeError::RateLimitExceeded(_) => "rate_limit_exceeded",
            WebPipeError::ImportNotFound(_) => "import_not_found",
            WebPipeError::CircularImport(_) => "circular_import",
            WebPipeError::DuplicateAlias(_) => "duplicate_alias",
            WebPipeError::UndefinedScopedReference(_) => "undefined_scoped_reference",
            WebPipeError::DebuggerError(_) => "debugger_error",
        }
    }

    /// The multi-line description of a failed pipeline: the location on
    /// its own line, and a middleware failure split into its summary and
    /// payload.
    pub fn display_pipeline_details(&self) -> (r: String)
        ensures
            r@ == pipeline_details(*self),
    {
        match self {
            WebPipeError::Located { location, source } => {
                let mut out: Vec<char> = Vec::new();
                append_str(&mut out, "At ");
                append_str(&mut out, location.as_str());
                append_str(&mut out, "\n");
                match &**source {
                    WebPipeError::MiddlewareExecutionError(m) => {
                        let d = format_middleware_details(m.as_str());
                        append(&mut out, d.as_slice());
                    },
                    other => {
                        other.write_text(&mut out);
                    },
                }
                assert(out@ =~= pipeline_details(*self));
                string_of(out.as_slice())
            },
            WebPipeError::MiddlewareExecutionError(m) => {
                let d = format_middleware_details(m.as_str());
                string_of(d.as_slice())
            },
            _ => self.to_string(),
        }
    }

    /// The JSON body an error response carries:
    /// `{"error": {"message", "status", "type"}}`.
    pub fn response_body(&self) -> (r: JsonValue)
        ensures
            jv(r) == Json::Object(seq![("error"@, Json::Object(seq![
                ("message"@, Json::Str(error_text(*self))),
                ("status"@, Json::Int(error_status(*self) as int)),
                ("type"@, Json::Str(error_kind(*self))),
            ]))]),
    {
        let mut inner: Vec<(String, JsonValue)> = Vec::new();
        inner.push((string_of(chars_of("message").as_slice()), json_str(self.to_string())));
        inner.push((string_of(chars_of("status").as_slice()), json_int(self.status_code() as i64)));
        inner.push((string_of(chars_of("type").as_slice()), json_str(string_of(chars_of(self.error_type()).as_slice()))));
        proof { crate::json::lemma_jv_entries(inner@); }
        assert(crate::json::jv_entries(inner@) =~= seq![
                ("message"@, Json::Str(error_text(*self))),
                ("status"@, Json::Int(error_status(*self) as int)),
                ("type"@, Json::Str(error_kind(*self))),
            ]);
        let iv = JsonValue::Object(inner);
        let ghost ij = jv(iv);
        let mut outer: Vec<(String, JsonValue)> = Vec::new();
        outer.push((string_of(chars_of("error").as_slice()), iv));
        proof { crate::json::lemma_jv_entries(outer@); }
        assert(crate::json::jv_entries(outer@) =~= seq![("error"@, ij)]);
        JsonValue::Object(outer)
    }
}


/// `r` is `e` with `loc` attached: unchanged when `loc` names no file or
/// `e` already carries a location, else `e` wrapped with the location's
/// label.
pub open spec fn locates(e: WebPipeError, loc: SourceLocation, r: WebPipeError) -> bool {
    match location_label(loc) {
        None => r == e,
        Some(l) => if e is Located {
            r == e
        } else {
            r matches WebPipeError::Located { location: lr, source } && lr@ == l && *source == e
        },
    }
}

/// Law: an error is located at most once. Attaching a second location to
/// an error that got one keeps the first.
pub proof fn law_located_once(e: WebPipeError, l1: SourceLocation, l2: SourceLocation, once: WebPipeError, twice: WebPipeError)
    requires
        location_label(l1) is Some,
        locates(e, l1, once),
        locates(once, l2, twice),
    ensures
        twice == once,
        once is Located,
{
}

/// Law: a located error is answered with the status and type of the error
/// it wraps.
pub proof fn law_located_delegates(location: String, source: WebPipeError)
    ensures
        error_status(WebPipeError::Located { location, source: Box::new(source) }) == error_status(source),
        error_kind(WebPipeError::Located { location, source: Box::new(source) }) == error_kind(source),
{
}

} // verus!
