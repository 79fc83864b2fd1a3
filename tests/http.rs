use webserv::http::{
    ok_response, response_for, status_line, HttpMethod, HttpRequest, HttpStatusCode,
};

fn parse_err(text: &str) -> HttpStatusCode {
    match HttpRequest::parse(text) {
        Ok(r) => panic!("expected a refusal, got {:?}", r),
        Err(e) => e,
    }
}

#[test]
fn status_values() {
    assert_eq!(HttpStatusCode::Continue.value(), (100, "Continue"));
    assert_eq!(HttpStatusCode::HttpOk.value(), (200, "OK"));
    assert_eq!(HttpStatusCode::BadRequest.value(), (400, "Bad request"));
    assert_eq!(HttpStatusCode::Unauthorized.value(), (401, "Unauthorized"));
    assert_eq!(HttpStatusCode::Forbidden.value(), (403, "Forbidden"));
    assert_eq!(HttpStatusCode::NotFound.value(), (404, "Not found"));
    assert_eq!(HttpStatusCode::InternalServerError.value(), (500, "Internal server error"));
    assert_eq!(HttpStatusCode::NotImplemented.value(), (501, "Not implemented"));
}

#[test]
fn fewer_than_three_tokens_is_bad_request() {
    assert_eq!(parse_err(""), HttpStatusCode::BadRequest);
    assert_eq!(parse_err("GET"), HttpStatusCode::BadRequest);
    assert_eq!(parse_err("GET /index.html\r\n\r\n"), HttpStatusCode::BadRequest);
    assert_eq!(parse_err("\0\0\0\0"), HttpStatusCode::BadRequest);
}

#[test]
fn unknown_method_is_bad_request() {
    assert_eq!(parse_err("BOGUS / HTTP/1.1\r\n\r\n"), HttpStatusCode::BadRequest);
    assert_eq!(parse_err("get / HTTP/1.1\r\n\r\n"), HttpStatusCode::BadRequest);
}

#[test]
fn other_methods_are_not_implemented() {
    for m in ["POST", "UPDATE", "DELETE", "CONNECT", "TRACE", "HEAD", "OPTION"] {
        let text = format!("{} /x HTTP/1.1\r\n\r\n", m);
        assert_eq!(parse_err(&text), HttpStatusCode::NotImplemented);
    }
}

#[test]
fn get_names_file_under_doc_root() {
    let r = HttpRequest::parse("GET /a/b.html HTTP/1.1\r\nHost: example\r\n\r\n").unwrap();
    assert_eq!(r.method, HttpMethod::GET);
    assert_eq!(r.req_uri.uri, "/a/b.html");
    assert_eq!(r.req_uri.file, "./html/a/b.html");
    assert_eq!(r.proto_ver, "HTTP/1.1");
}

#[test]
fn get_root_names_default_index() {
    let a = HttpRequest::parse("GET / HTTP/1.1\r\n\r\n").unwrap();
    let b = HttpRequest::parse("GET /index.html HTTP/1.1\r\n\r\n").unwrap();
    assert_eq!(a.req_uri.file, "./html/index.html");
    assert_eq!(a.req_uri.file, b.req_uri.file);
    assert_eq!(a.req_uri.uri, "/");
}

#[test]
fn headers_split_at_first_space_and_nul_lines_dropped() {
    let mut text = String::from("GET /x HTTP/1.1\r\nHost: a b\r\nnospace\r\n");
    text.push_str(&"\0".repeat(16));
    let r = HttpRequest::parse(&text).unwrap();
    let h = r.req_headers.unwrap();
    let expected = vec![
        ("GET".to_string(), "/x HTTP/1.1".to_string()),
        ("Host:".to_string(), "a b".to_string()),
        ("none".to_string(), "none".to_string()),
    ];
    assert_eq!(h, expected);
}

#[test]
fn repeated_header_names_keep_last_value() {
    let text = "GET /x HTTP/1.1\r\nA: 1\r\nB: 2\r\nA: 3\r\nfirst\r\nsecond";
    let h = HttpRequest::parse(text).unwrap().req_headers.unwrap();
    let expected = vec![
        ("GET".to_string(), "/x HTTP/1.1".to_string()),
        ("A:".to_string(), "3".to_string()),
        ("B:".to_string(), "2".to_string()),
        ("none".to_string(), "none".to_string()),
    ];
    assert_eq!(h, expected);
}

#[test]
fn leading_nul_line_is_skipped_for_request_line() {
    let r = HttpRequest::parse("\0junk\r\nGET /x HTTP/1.1\r\n\r\n").unwrap();
    assert_eq!(r.req_uri.file, "./html/x");
}

#[test]
fn resolve_missing_file_is_not_found() {
    let r = HttpRequest::parse("GET /missing.html HTTP/1.1\r\n\r\n").unwrap();
    assert_eq!(r.resolve(None, "/srv/html").unwrap_err(), HttpStatusCode::NotFound);
}

#[test]
fn resolve_outside_root_is_bad_request() {
    let r = HttpRequest::parse("GET /../../etc/passwd HTTP/1.1\r\n\r\n").unwrap();
    assert_eq!(r.req_uri.file, "./html/../../etc/passwd");
    let out = r.resolve(Some("/etc/passwd".to_string()), "/srv/html");
    assert_eq!(out.unwrap_err(), HttpStatusCode::BadRequest);
}

#[test]
fn resolve_sibling_with_common_prefix_is_bad_request() {
    let r = HttpRequest::parse("GET /../html2/x HTTP/1.1\r\n\r\n").unwrap();
    let out = r.resolve(Some("/srv/html2/x".to_string()), "/srv/html");
    assert_eq!(out.unwrap_err(), HttpStatusCode::BadRequest);
}

#[test]
fn resolve_inside_root_keeps_request() {
    let r = HttpRequest::parse("GET /a.html HTTP/1.1\r\n\r\n").unwrap();
    let out = r.resolve(Some("/srv/html/a.html".to_string()), "/srv/html").unwrap();
    assert_eq!(out.req_uri.file, "/srv/html/a.html");
    assert_eq!(out.req_uri.uri, "/a.html");
    assert_eq!(out.method, HttpMethod::GET);
    assert_eq!(out.proto_ver, "HTTP/1.1");
    let slash = HttpRequest::parse("GET /b HTTP/1.1\r\n\r\n").unwrap();
    let out = slash.resolve(Some("/srv/html/b".to_string()), "/srv/html/").unwrap();
    assert_eq!(out.req_uri.file, "/srv/html/b");
}

#[test]
fn status_lines() {
    assert_eq!(status_line(&HttpStatusCode::NotFound), "HTTP/1.1 404 Not found\r\n\r\n");
    assert_eq!(status_line(&HttpStatusCode::BadRequest), "HTTP/1.1 400 Bad request\r\n\r\n");
    assert_eq!(
        status_line(&HttpStatusCode::NotImplemented),
        "HTTP/1.1 501 Not implemented\r\n\r\n"
    );
    assert_eq!(status_line(&HttpStatusCode::Continue), "HTTP/1.1 100 Continue\r\n\r\n");
    assert_eq!(ok_response("hi"), "HTTP/1.1 200 OK\r\n\r\nhi");
    assert_eq!(ok_response(""), "HTTP/1.1 200 OK\r\n\r\n");
}

#[test]
fn response_for_outcomes() {
    assert_eq!(response_for(&Ok("body".to_string())), "HTTP/1.1 200 OK\r\n\r\nbody");
    assert_eq!(
        response_for(&Err(HttpStatusCode::InternalServerError)),
        "HTTP/1.1 500 Internal server error\r\n\r\n"
    );
}
