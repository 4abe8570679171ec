use std::sync::Arc;

use armature_rhai::{HandlerOutcome, ResponseBinding, ScriptHandler, ScriptMiddleware, ScriptValue};

type Handler = ScriptHandler<()>;
type Middleware = ScriptMiddleware<()>;

fn respond(o: HandlerOutcome) -> ResponseBinding {
    match o {
        HandlerOutcome::Respond(r) => r,
        HandlerOutcome::EncodeJson => panic!("expected a response"),
    }
}

#[test]
fn handler_paths_and_middleware_scripts() {
    let engine = Arc::new(());
    let h = ScriptHandler::new(engine.clone(), "users.rhai");
    assert_eq!(h.script_path(), "users.rhai");
    let m = ScriptMiddleware::both(engine.clone(), "a.rhai", "b.rhai");
    assert_eq!(m.before_script().map(String::as_str), Some("a.rhai"));
    assert_eq!(m.after_script().map(String::as_str), Some("b.rhai"));
    assert!(ScriptMiddleware::before(engine.clone(), "a.rhai").after_script().is_none());
    assert!(ScriptMiddleware::after(engine, "b.rhai").before_script().is_none());
}

#[test]
fn result_to_response_prefers_returned_binding_then_scope() {
    let r = respond(Handler::result_to_response(ScriptValue::Response(ResponseBinding::created()), Some(ResponseBinding::forbidden())));
    assert_eq!(r.status_code(), 201);
    let r = respond(Handler::result_to_response(ScriptValue::Text("hi".to_string()), Some(ResponseBinding::forbidden())));
    assert_eq!(r.status_code(), 403);
    let r = respond(Handler::result_to_response(ScriptValue::Text("hi".to_string()), None));
    assert_eq!(r.status_code(), 200);
    assert_eq!(r.headers().get("content-type").map(String::as_str), Some("text/plain"));
    assert_eq!(r.body_bytes().unwrap().as_slice(), b"hi");
    assert!(matches!(Handler::result_to_response(ScriptValue::Collection, None), HandlerOutcome::EncodeJson));
    let r = respond(Handler::result_to_response(ScriptValue::Other, None));
    assert_eq!(r.status_code(), 200);
    assert!(r.body_bytes().is_none());
}

#[test]
fn before_outcome_stops_only_when_continue_is_false() {
    assert!(Middleware::before_outcome(None, Some(ResponseBinding::forbidden()), None).is_none());
    assert!(Middleware::before_outcome(Some(true), Some(ResponseBinding::forbidden()), None).is_none());
    let r = Middleware::before_outcome(Some(false), Some(ResponseBinding::forbidden()), Some(ResponseBinding::ok())).unwrap();
    assert_eq!(r.status_code(), 403);
    let r = Middleware::before_outcome(Some(false), None, Some(ResponseBinding::unauthorized())).unwrap();
    assert_eq!(r.status_code(), 401);
    assert!(Middleware::before_outcome(Some(false), None, None).is_none());
}

#[test]
fn after_outcome_falls_back_to_the_real_response() {
    let mut real = ResponseBinding::new();
    real.status(201);
    real.header("x-real".to_string(), "yes".to_string());
    let r = Middleware::after_outcome(None, None, real.clone());
    assert_eq!(r.status_code(), 201);
    assert_eq!(r.headers().get("x-real").map(String::as_str), Some("yes"));

    let mut amended = real.clone();
    amended.header("x-after".to_string(), "1".to_string());
    let r = Middleware::after_outcome(None, Some(amended), real.clone());
    assert_eq!(r.headers().get("x-after").map(String::as_str), Some("1"));
    assert_eq!(r.status_code(), 201);

    let r = Middleware::after_outcome(Some(ResponseBinding::no_content()), None, real);
    assert_eq!(r.status_code(), 204);
}

#[test]
fn untouched_scope_response_does_not_hide_the_result() {
    let r = respond(Handler::result_to_response(ScriptValue::Text("hello".to_string()), Some(ResponseBinding::new())));
    assert_eq!(r.status_code(), 200);
    assert_eq!(r.headers().get("content-type").map(String::as_str), Some("text/plain"));
    assert_eq!(r.body_bytes().unwrap().as_slice(), b"hello");
    assert!(matches!(
        Handler::result_to_response(ScriptValue::Collection, Some(ResponseBinding::new())),
        HandlerOutcome::EncodeJson
    ));
    let r = respond(Handler::result_to_response(ScriptValue::Other, Some(ResponseBinding::new())));
    assert!(r.is_untouched());
    // A scope response the script changed still wins over a string result.
    let mut changed = ResponseBinding::new();
    changed.header("x-a".to_string(), "1".to_string());
    assert!(!changed.is_untouched());
    let r = respond(Handler::result_to_response(ScriptValue::Text("hello".to_string()), Some(changed)));
    assert_eq!(r.headers().get("x-a").map(String::as_str), Some("1"));
    assert!(r.body_bytes().is_none());
}
