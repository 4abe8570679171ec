use armature_rhai::dispatch::Stage;
use armature_rhai::{
    Action, HttpMethod, ResponseBinding, RhaiError, ScriptOutcome, ScriptRouter, ScriptRouterBuilder,
};

type Router = ScriptRouter<()>;

#[test]
fn test_pattern_matching() {
    assert!(Router::match_pattern("/users", "/users").is_some());
    assert!(Router::match_pattern("/users/:id", "/users/123").is_some());
    assert!(Router::match_pattern("/users/:id", "/users/123/extra").is_none());
    assert!(Router::match_pattern("/api/*", "/api/v1/users").is_some());
}

#[test]
fn test_pattern_matching_captures_named_params() {
    let params = Router::match_pattern("/users/:id", "/users/123").unwrap();
    assert_eq!(params.get("id").map(String::as_str), Some("123"));

    let params = Router::match_pattern("/users/:id/posts/:post_id", "/users/1/posts/2").unwrap();
    assert_eq!(params.get("id").map(String::as_str), Some("1"));
    assert_eq!(params.get("post_id").map(String::as_str), Some("2"));
}

#[test]
fn test_catch_all_matches_on_segment_boundary() {
    // Sibling paths must not match a `/api/*` catch-all.
    assert!(Router::match_pattern("/api/*", "/apix").is_none());
    assert!(Router::match_pattern("/api/*", "/apiv2/foo").is_none());

    // The prefix itself and anything nested under it must match.
    assert!(Router::match_pattern("/api/*", "/api").is_some());
    assert!(Router::match_pattern("/api/*", "/api/v1/users").is_some());

    let params = Router::match_pattern("/api/*", "/api/v1/users").unwrap();
    assert_eq!(params.get("*").map(String::as_str), Some("v1/users"));
}

#[test]
fn catch_all_remainder_drops_leading_slashes() {
    let params = Router::match_pattern("/api/*", "/api//x/y").unwrap();
    assert_eq!(params.get("*").map(String::as_str), Some("x/y"));
    let params = Router::match_pattern("/api/*", "/api").unwrap();
    assert_eq!(params.get("*").map(String::as_str), Some(""));
}

#[test]
fn empty_segments_are_ignored() {
    assert!(Router::match_pattern("/users/:id", "//users///7/").is_some());
    let params = Router::match_pattern("users/:id", "/users/7").unwrap();
    assert_eq!(params.get("id").map(String::as_str), Some("7"));
    assert_eq!(params.len(), 1);
}

#[test]
fn repeated_param_name_keeps_last_capture() {
    let params = Router::match_pattern("/:a/:a", "/x/y").unwrap();
    assert_eq!(params.get("a").map(String::as_str), Some("y"));
    assert_eq!(params.len(), 1);
}

#[test]
fn param_values_are_not_percent_decoded() {
    let params = Router::match_pattern("/users/:id", "/users/john%20doe").unwrap();
    assert_eq!(params.get("id").map(String::as_str), Some("john%20doe"));
}

#[test]
fn static_pattern_captures_nothing() {
    let params = Router::match_pattern("/a/b", "/a/b").unwrap();
    assert_eq!(params.len(), 0);
    assert!(Router::match_pattern("/a/b", "/a/c").is_none());
}

fn sample_router() -> Router {
    ScriptRouter::new(())
        .get("/users/:id", "user.rhai")
        .post("/users", "create.rhai")
        .route("/users", "any_users.rhai")
        .get("/api/*", "api.rhai")
}

#[test]
fn find_route_ignores_the_query_string() {
    let router = sample_router();
    let (i, params) = router.find_route("GET", "/users/42?a=1").unwrap();
    assert_eq!(router.route_at(i).script_path, "user.rhai");
    assert_eq!(params.get("id").map(String::as_str), Some("42"));

    let (i, _) = router.find_route("GET", "/users?a=1").unwrap();
    assert_eq!(router.route_at(i).script_path, "any_users.rhai");
}

#[test]
fn find_route_respects_method_and_order() {
    let router = sample_router();
    let (i, _) = router.find_route("POST", "/users").unwrap();
    assert_eq!(router.route_at(i).script_path, "create.rhai");
    let (i, _) = router.find_route("DELETE", "/users").unwrap();
    assert_eq!(router.route_at(i).script_path, "any_users.rhai");
    assert!(router.find_route("POST", "/users/1").is_none());
    assert!(router.find_route("GET", "/apix").is_none());
    assert_eq!(HttpMethod::PATCH.as_str(), "PATCH");
}

#[test]
fn path_only_strips_from_the_first_question_mark() {
    assert_eq!(armature_rhai::router::path_only_of("/a/b?x=1?y"), "/a/b");
    assert_eq!(armature_rhai::router::path_only_of("?q"), "");
    assert_eq!(armature_rhai::router::path_only_of("/plain"), "/plain");
}

#[test]
fn discovered_routes_follow_the_directory_layout() {
    let to = |p: &str| Router::route_for_script("scripts", "routes", p);
    assert_eq!(to("scripts/routes/index.rhai"), "/");
    assert_eq!(to("scripts/routes/users.rhai"), "/users");
    assert_eq!(to("scripts/routes/users/[id].rhai"), "/users/:id");
    assert_eq!(to("scripts/routes/api/v1/items.rhai"), "/api/v1/items");
    assert_eq!(to("scripts/routes/users/index.rhai"), "/users");
    assert_eq!(to("scripts/routes/a.rhai.rhai"), "/a");
    // Without the routes directory in front, the whole path is used.
    assert_eq!(to("scripts/other/x.rhai"), "/scripts/other/x");
}

#[test]
fn builder_discovers_routes_only_when_enabled() {
    let scripts = vec!["scripts/routes/users/[id].rhai".to_string(), "scripts/routes/index.rhai".to_string()];
    let router = ScriptRouterBuilder::new(()).build_from_scripts("scripts", &scripts);
    assert_eq!(router.route_count(), 0);

    let builder = ScriptRouterBuilder::new(()).auto_routes("routes");
    assert!(builder.discovers_routes());
    assert_eq!(builder.routes_dir(), "routes");
    assert_eq!(builder.path_to_route("scripts", "scripts/routes/users/[id].rhai"), "/users/:id");
    let router = builder.build_from_scripts("scripts", &scripts);
    assert_eq!(router.route_count(), 2);
    assert_eq!(router.route_at(0).pattern, "/users/:id");
    assert_eq!(router.route_at(0).script_path, "scripts/routes/users/[id].rhai");
    assert_eq!(router.route_at(1).pattern, "/");
    assert!(router.route_at(1).method.is_none());
}

fn respond_body(action: &Action) -> (u16, Vec<u8>) {
    match action {
        Action::Respond { response } => (response.status_code(), response.body_bytes().cloned().unwrap_or_default()),
        _ => panic!("expected a response"),
    }
}

#[test]
fn unmatched_request_gets_plain_not_found() {
    let router = sample_router();
    let (pipeline, action) = router.begin("GET", "/nothing");
    assert!(matches!(pipeline.stage(), Stage::Done));
    assert_eq!(respond_body(&action), (404, b"Not Found".to_vec()));
}

#[test]
fn matched_request_runs_handler_then_after_middleware() {
    let router = sample_router().before("auth.rhai").after("log.rhai");
    let (pipeline, action) = router.begin("GET", "/users/42?a=1");
    match &action {
        Action::RunBefore { index, script } => {
            assert_eq!(*index, 0);
            assert_eq!(script, "auth.rhai");
        },
        _ => panic!("before middleware must run first"),
    }
    let (pipeline, action) = router.resume(pipeline, ScriptOutcome::Continue);
    match &action {
        Action::RunHandler { script, params, .. } => {
            assert_eq!(script, "user.rhai");
            assert_eq!(params.get("id").map(String::as_str), Some("42"));
        },
        _ => panic!("handler must run"),
    }
    let (pipeline, action) = router.resume(pipeline, ScriptOutcome::Respond(ResponseBinding::created()));
    match &action {
        Action::RunAfter { index, script, response } => {
            assert_eq!(*index, 1);
            assert_eq!(script, "log.rhai");
            assert_eq!(response.status_code(), 201);
        },
        _ => panic!("after middleware must run"),
    }
    let (pipeline, action) = router.resume(pipeline, ScriptOutcome::Respond(ResponseBinding::no_content()));
    assert!(matches!(pipeline.stage(), Stage::Done));
    assert_eq!(respond_body(&action).0, 204);
}

#[test]
fn before_short_circuit_skips_handler_and_after() {
    let router = sample_router().before("auth.rhai").after("log.rhai");
    let (pipeline, _) = router.begin("GET", "/users/1");
    let (pipeline, action) = router.resume(pipeline, ScriptOutcome::Respond(ResponseBinding::unauthorized()));
    assert!(matches!(pipeline.stage(), Stage::Done));
    assert_eq!(respond_body(&action).0, 401);
}

#[test]
fn handler_error_without_error_script_is_500_through_after_middleware() {
    let router = sample_router().after("log.rhai");
    let (pipeline, _) = router.begin("GET", "/users/1");
    let (pipeline, action) = router.resume(pipeline, ScriptOutcome::Failed(RhaiError::script("boom")));
    match &action {
        Action::RunAfter { response, .. } => {
            assert_eq!(response.status_code(), 500);
            assert_eq!(
                response.body_bytes().unwrap().as_slice(),
                b"Internal Server Error: Script error: boom"
            );
        },
        _ => panic!("after middleware must see the error response"),
    }
    let (_, action) = router.resume(pipeline, ScriptOutcome::Failed(RhaiError::Parse("bad".to_string())));
    assert_eq!(respond_body(&action), (500, b"Internal Server Error: Parse error: bad".to_vec()));
}

#[test]
fn error_and_not_found_scripts_take_over() {
    let router = sample_router().not_found("404.rhai").error_handler("err.rhai");
    let (pipeline, action) = router.begin("GET", "/nope");
    match &action {
        Action::RunNotFound { script } => assert_eq!(script, "404.rhai"),
        _ => panic!("not-found script must run"),
    }
    let (_, action) = router.resume(pipeline, ScriptOutcome::Failed(RhaiError::script("x")));
    assert_eq!(respond_body(&action), (404, b"Not Found".to_vec()));

    let (pipeline, _) = router.begin("GET", "/users/1");
    let (pipeline, action) = router.resume(pipeline, ScriptOutcome::Failed(RhaiError::script("x")));
    match &action {
        Action::RunErrorHandler { script } => assert_eq!(script, "err.rhai"),
        _ => panic!("error script must run"),
    }
    let (_, action) = router.resume(pipeline, ScriptOutcome::Failed(RhaiError::script("y")));
    assert_eq!(respond_body(&action), (500, b"Internal Server Error: Script error: x".to_vec()));
}

#[test]
fn catch_all_route_rejects_sibling_path_at_dispatch() {
    let router = ScriptRouter::new(()).get("/api/*", "api.rhai");
    let (_, action) = router.begin("GET", "/apix");
    assert_eq!(respond_body(&action), (404, b"Not Found".to_vec()));
    let (_, action) = router.begin("GET", "/api/v1");
    match &action {
        Action::RunHandler { script, params, .. } => {
            assert_eq!(script, "api.rhai");
            assert_eq!(params.get("*").map(String::as_str), Some("v1"));
        },
        _ => panic!("the catch-all must answer below its prefix"),
    }
}

#[test]
fn static_route_dispatches_with_query_string() {
    let router = ScriptRouter::new(()).route("/users", "users.rhai");
    let (_, action) = router.begin("GET", "/users?a=1");
    match &action {
        Action::RunHandler { route, script, params } => {
            assert_eq!(*route, 0);
            assert_eq!(script, "users.rhai");
            assert_eq!(params.len(), 0);
        },
        _ => panic!("a query string must not affect route matching"),
    }
}

#[test]
fn method_routes_answer_only_their_method() {
    let router = ScriptRouter::new(())
        .put("/items/:id", "put.rhai")
        .patch("/items/:id", "patch.rhai")
        .delete("/items/:id", "delete.rhai");
    for (method, script) in [("PUT", "put.rhai"), ("PATCH", "patch.rhai"), ("DELETE", "delete.rhai")] {
        let (i, params) = router.find_route(method, "/items/7").unwrap();
        assert_eq!(router.route_at(i).script_path, script);
        assert_eq!(params.get("id").map(String::as_str), Some("7"));
    }
    assert!(router.find_route("GET", "/items/7").is_none());
    assert_eq!(router.route_at(2).method, Some(HttpMethod::DELETE));
}
