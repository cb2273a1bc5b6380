use webpipe::ast::SourceLocation;
use webpipe::error::WebPipeError;

#[test]
fn status_code_mapping_basic() {
    assert_eq!(WebPipeError::ParseError("x".into()).status_code(), 400);
    assert_eq!(WebPipeError::AuthError("x".into()).status_code(), 401);
    assert_eq!(WebPipeError::NotFound("x".into()).status_code(), 404);
}

#[test]
fn into_response_wraps_type_message_and_status() {
    let err = WebPipeError::BadRequest("oops".into());
    assert_eq!(err.status_code(), 400);
    let body = err.response_body();
    let inner = body.get("error").unwrap();
    assert_eq!(inner.get("type").unwrap().as_str().unwrap(), "bad_request");
    assert_eq!(inner.get("status").unwrap().as_i64().unwrap(), 400);
    assert_eq!(inner.get("message").unwrap().as_str().unwrap(), "Bad request: oops");
}

#[test]
fn located_error_delegates_status_and_type() {
    let loc = SourceLocation::with_file(4, 1, 0, "app.wp".to_string());
    let err = WebPipeError::BadRequest("oops".into()).with_source_location(&loc);
    assert_eq!(err.status_code(), 400);
    assert_eq!(err.error_type(), "bad_request");
    assert_eq!(err.to_string(), "At app.wp:4: Bad request: oops");
}

#[test]
fn located_error_is_not_wrapped_twice() {
    let loc = SourceLocation::with_file(4, 1, 0, "app.wp".to_string());
    let err = WebPipeError::BadRequest("oops".into())
        .with_source_location(&loc)
        .with_source_location(&loc);
    assert_eq!(err.to_string(), "At app.wp:4: Bad request: oops");
}

#[test]
fn display_pipeline_details_formats_structured_middleware_payload() {
    let loc = SourceLocation::with_file(4493, 1, 0, "/tmp/test.wp".to_string());
    let err = WebPipeError::MiddlewareExecutionError(
        "JQ compilation error: [(File { code: \".context as $context | .state | { test: params[0] }\", path: () }, [(\"params\", Filter(0))])]".into()
    ).with_source_location(&loc);

    assert_eq!(
        err.display_pipeline_details(),
        "At /tmp/test.wp:4493\nMiddleware execution failed, JQ compilation error:\n[(File { code: \".context as $context | .state | { test: params[0] }\", path: () }, [(\"params\", Filter(0))])]"
    );
}

#[test]
fn display_pipeline_details_formats_any_middleware_payload() {
    let loc = SourceLocation::with_file(12, 1, 0, "/tmp/test.wp".to_string());
    let err = WebPipeError::MiddlewareExecutionError("Handlebars render error: missing key `title`".into())
        .with_source_location(&loc);

    assert_eq!(
        err.display_pipeline_details(),
        "At /tmp/test.wp:12\nMiddleware execution failed, Handlebars render error:\nmissing key `title`"
    );
}

#[test]
fn location_without_file_is_not_attached() {
    let loc = SourceLocation::new(3, 1, 0);
    let err = WebPipeError::Timeout("slow".into()).with_source_location(&loc);
    assert_eq!(err.to_string(), "Timeout error: slow");
    assert_eq!(err.status_code(), 408);
    assert_eq!(err.error_type(), "timeout");
}

#[test]
fn pipeline_details_of_other_errors() {
    let e = WebPipeError::MiddlewareExecutionError("plain message".into());
    assert_eq!(e.display_pipeline_details(), "Middleware execution failed:\nplain message");
    let loc = SourceLocation::with_file(7, 1, 0, "x.wp".to_string());
    let e = WebPipeError::RateLimitExceeded("too many".into()).with_source_location(&loc);
    assert_eq!(e.display_pipeline_details(), "At x.wp:7\nRate limit exceeded: too many");
    assert_eq!(e.status_code(), 429);
    assert_eq!(WebPipeError::NetworkError("x".into()).status_code(), 502);
    assert_eq!(WebPipeError::CircularImport("a -> a".into()).error_type(), "circular_import");
}
