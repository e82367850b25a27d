use std::sync::Arc;

use oxide::request::{handle_request, parse_request_line};
use oxide::responses::HttpResponse;
use oxide::router::{get, Action, Router};

fn index() -> String {
    HttpResponse::ok_plaintext("Pagina principal")
}

fn hello() -> String {
    HttpResponse::ok_plaintext("Hello world!!")
}

type Pages = Router<fn() -> String, fn(fn() -> String) -> fn() -> String>;

fn pages() -> Pages {
    Router::new().route("/", get(index as fn() -> String)).route("/hello", get(hello as fn() -> String))
}

fn respond(router: &Pages, request: &[u8]) -> String {
    match handle_request(router, request) {
        Action::Invoke(h) => h(),
        Action::Respond(s) => s,
    }
}

#[test]
fn request_line_splits_on_white_space() {
    assert_eq!(
        parse_request_line("GET /hello HTTP/1.1\r\n\r\n"),
        ("GET".to_string(), "/hello".to_string())
    );
    assert_eq!(parse_request_line("  POST\t\t/x   y"), ("POST".to_string(), "/x".to_string()));
    assert_eq!(parse_request_line("PUT\u{3000}/wide"), ("PUT".to_string(), "/wide".to_string()));
}

#[test]
fn missing_tokens_take_their_defaults() {
    assert_eq!(parse_request_line(""), ("".to_string(), "/".to_string()));
    assert_eq!(parse_request_line(" \r\n "), ("".to_string(), "/".to_string()));
    assert_eq!(parse_request_line("GET"), ("GET".to_string(), "/".to_string()));
}

#[test]
fn registered_root_answers() {
    let r = pages();
    let out = respond(&r, b"GET / HTTP/1.1\r\n\r\n");
    assert!(out.starts_with("HTTP/1.1 200 OK\r\n"));
    assert!(out.contains("Content-Type: text/json\r\n"));
    assert!(out.contains("Content-Length: 16\r\n"));
    assert!(out.ends_with("\r\n\r\nPagina principal"));
}

#[test]
fn unrouted_verb_gets_not_found() {
    let r: Pages = Router::new().route("/hello", get(hello as fn() -> String));
    let out = respond(&r, b"POST /hello HTTP/1.1\r\n\r\n");
    assert!(out.starts_with("HTTP/1.1 404 Not Found"));
    assert!(out.ends_with("404 Not Found"));
}

#[test]
fn unrouted_path_gets_not_found() {
    let r = pages();
    assert_eq!(respond(&r, b"GET /nowhere HTTP/1.1\r\n\r\n"), HttpResponse::not_found());
}

#[test]
fn unknown_verb_gets_method_not_allowed() {
    let r = pages();
    let out = respond(&r, b"PATCH /hello HTTP/1.1\r\n\r\n");
    assert!(out.ends_with("\r\n\r\n405 Method not allowed"));
    assert!(out.starts_with("HTTP/1.1 200 OK\r\n"));
}

#[test]
fn invalid_utf8_reads_as_an_empty_request() {
    let r = pages();
    assert_eq!(respond(&r, b"GET /\xff\xfe HTTP/1.1"), HttpResponse::method_not_allowed());
}

#[test]
fn empty_request_gets_method_not_allowed() {
    let r = pages();
    assert_eq!(respond(&r, b""), HttpResponse::method_not_allowed());
}

#[test]
fn concurrent_requests_get_their_own_responses() {
    let rt = tokio::runtime::Builder::new_multi_thread().enable_time().build().unwrap();
    let r = Arc::new(pages());
    rt.block_on(async move {
        let slow = {
            let r = Arc::clone(&r);
            tokio::spawn(async move {
                tokio::time::sleep(std::time::Duration::from_millis(1000)).await;
                respond(&r, b"GET / HTTP/1.1\r\n\r\n")
            })
        };
        let mut fast = Vec::new();
        for _ in 0..8 {
            let r = Arc::clone(&r);
            fast.push(tokio::spawn(async move { respond(&r, b"GET /hello HTTP/1.1\r\n\r\n") }));
        }
        for f in fast {
            assert!(f.await.unwrap().ends_with("Hello world!!"));
        }
        assert!(!slow.is_finished());
        assert!(slow.await.unwrap().ends_with("Pagina principal"));
    });
}
