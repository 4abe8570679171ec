use armature_rhai::{RequestBinding, RequestParts, ResponseBinding};

/// Regression: `path` used to be the raw request target, so a script
/// reading `request.path` for `/users/42?a=1` saw `/users/42?a=1` while the
/// router had matched `/users/42`.
#[test]
fn test_path_excludes_the_query_string() {
    let req = RequestParts::new("GET", "/users/42?a=1&b=2");
    let mut binding = RequestBinding::from_request(&req);
    assert_eq!(binding.get_path(), "/users/42");
}

/// Regression: the query was a map, so a repeated key was LAST-wins in
/// scripts while Rust reads it FIRST-wins.
#[test]
fn test_repeated_query_key_is_first_wins_like_core() {
    let req = armature_core::HttpRequest::new("GET", "/search?tag=a&tag=b");
    assert_eq!(req.query_param("tag"), Some("a"));

    let parts = RequestParts::new("GET", "/search?tag=a&tag=b");
    let mut binding = RequestBinding::from_request(&parts);
    assert_eq!(binding.query("tag").unwrap(), "a");
    assert_eq!(binding.get_query_params().get("tag").unwrap().clone(), "a");

    // Every value is still reachable, in wire order.
    let all: Vec<String> = binding.query_all("tag");
    assert_eq!(all, vec!["a".to_string(), "b".to_string()]);
}

/// A missing query param is absent, and `query_all` is empty rather than an
/// error.
#[test]
fn test_absent_query_param() {
    let req = RequestParts::new("GET", "/search?tag=a");
    let mut binding = RequestBinding::from_request(&req);
    assert!(binding.query("missing").is_none());
    assert!(binding.query_all("missing").is_empty());
}

/// `param` cannot represent a non-UTF-8 capture, so `has_param` is what
/// separates "captured but undecodable" from "not captured at all".
#[test]
fn test_has_param_distinguishes_undecodable_from_absent() {
    let mut req = RequestParts::new("GET", "/files/x");
    req.push_param("name", vec![0xff, 0xfe]);

    let mut binding = RequestBinding::from_request(&req);
    assert!(binding.param("name").is_none());
    assert!(binding.has_param("name"));

    assert!(binding.param("nope").is_none());
    assert!(!binding.has_param("nope"));
}

#[test]
fn test_response_builder() {
    let mut response = ResponseBinding::new();
    response = response.status(201);
    response = response.header("x-custom".to_string(), "value".to_string());
    response = response.body("Hello".to_string());

    assert_eq!(response.status_code(), 201);
    assert_eq!(response.headers().get("x-custom").map(String::as_str), Some("value"));
    assert_eq!(response.body_bytes().unwrap().as_slice(), b"Hello");
}

#[test]
fn query_is_percent_decoded_and_params_are_decoded_utf8() {
    let mut req = RequestParts::new("POST", "/x?name=john%20doe&flag&a=1+2");
    req.push_param("id", "42".as_bytes().to_vec());
    req.push_param("id", "43".as_bytes().to_vec());
    let mut binding = RequestBinding::from_request(&req);
    assert_eq!(binding.query("name").unwrap(), "john doe");
    assert_eq!(binding.query("flag").unwrap(), "");
    assert_eq!(binding.query("a").unwrap(), "1 2");
    assert_eq!(binding.get_method(), "POST");
    assert_eq!(binding.param("id").unwrap(), "43");
    assert_eq!(binding.get_params().len(), 1);
}

#[test]
fn headers_later_value_wins_and_content_type_checks() {
    let mut req = RequestParts::new("GET", "/");
    req.push_header("content-type", "text/html");
    req.push_header("content-type", "application/json; charset=utf-8");
    req.push_header("x-a", "1");
    let mut binding = RequestBinding::from_request(&req);
    assert_eq!(binding.header("content-type").unwrap(), "application/json; charset=utf-8");
    assert_eq!(binding.header("Content-Type"), None);
    assert!(binding.get_is_json());
    assert!(!binding.get_is_form());
    assert_eq!(binding.get_headers().len(), 2);

    let mut form = RequestParts::new("GET", "/");
    form.push_header("content-type", "application/x-www-form-urlencoded");
    let mut binding = RequestBinding::from_request(&form);
    assert!(binding.get_is_form());
    assert!(!binding.get_is_json());
    let mut none = RequestBinding::from_request(&RequestParts::new("GET", "/"));
    assert!(!none.get_is_json());
}

#[test]
fn body_text_decodes_utf8_and_reports_invalid_bytes() {
    let mut req = RequestParts::new("POST", "/");
    req.body = "héllo".as_bytes().to_vec();
    let mut binding = RequestBinding::from_request(&req);
    assert_eq!(binding.body_text().unwrap(), "héllo");
    assert_eq!(binding.get_body_bytes(), "héllo".as_bytes().to_vec());

    req.body = vec![0x68, 0xff];
    let mut binding = RequestBinding::from_request(&req);
    assert!(binding.body_text().is_err());
}

#[test]
fn response_shortcuts_and_redirect() {
    assert_eq!(ResponseBinding::ok().status_code(), 200);
    assert_eq!(ResponseBinding::created().status_code(), 201);
    assert_eq!(ResponseBinding::no_content().status_code(), 204);
    assert_eq!(ResponseBinding::bad_request().status_code(), 400);
    assert_eq!(ResponseBinding::unauthorized().status_code(), 401);
    assert_eq!(ResponseBinding::forbidden().status_code(), 403);
    assert_eq!(ResponseBinding::not_found().status_code(), 404);
    assert_eq!(ResponseBinding::method_not_allowed().status_code(), 405);
    assert_eq!(ResponseBinding::internal_error().status_code(), 500);
    let r = ResponseBinding::redirect("/login".to_string());
    assert_eq!(r.status_code(), 302);
    assert_eq!(r.headers().get("location").map(String::as_str), Some("/login"));
    assert!(ResponseBinding::default().body_bytes().is_none());
}

#[test]
fn status_keeps_the_low_sixteen_bits() {
    let mut r = ResponseBinding::new();
    let copy = r.status(65536 + 404);
    assert_eq!(r.status_code(), 404);
    assert_eq!(copy.status_code(), 404);
    r.status(-1);
    assert_eq!(r.status_code(), 65535);
}

#[test]
fn json_text_sets_content_type_and_body() {
    let mut r = ResponseBinding::new();
    let out = r.json_text("{\"a\":1}".to_string());
    assert_eq!(out.headers().get("content-type").map(String::as_str), Some("application/json"));
    assert_eq!(out.body_bytes().unwrap().as_slice(), b"{\"a\":1}");
}

#[test]
fn from_parts_keeps_every_part() {
    let mut headers = armature_rhai::StringMap::new();
    headers.insert("x-real".to_string(), "yes".to_string());
    let body = vec![0x00, 0xFF, 0x01, 0xFE];
    let r = ResponseBinding::from_parts(201, headers, vec!["session=abc".to_string()], body.clone());
    assert_eq!(r.status_code(), 201);
    assert_eq!(r.headers().get("x-real").map(String::as_str), Some("yes"));
    assert_eq!(r.cookies(), &vec!["session=abc".to_string()]);
    assert_eq!(r.body_bytes().unwrap(), &body);
}
