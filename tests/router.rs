use oxide::router::{get, post, Action, Method, Route, Router};

fn outer(h: String) -> String {
    format!("L1({})", h)
}

fn inner(h: String) -> String {
    format!("L2({})", h)
}

type Table = Router<u32, fn(u32) -> u32>;

#[test]
fn method_tokens_parse_exactly() {
    assert_eq!(Method::from_str("GET"), Some(Method::GET));
    assert_eq!(Method::from_str("POST"), Some(Method::POST));
    assert_eq!(Method::from_str("PUT"), Some(Method::PUT));
    assert_eq!(Method::from_str("DELETE"), Some(Method::DELETE));
    assert_eq!(Method::from_str("get"), None);
    assert_eq!(Method::from_str("PATCH"), None);
    assert_eq!(Method::from_str(" GET"), None);
    assert_eq!(Method::from_str(""), None);
}

#[test]
fn route_builders_set_the_verb() {
    let g = get(7u32);
    assert_eq!(g.method, Method::GET);
    assert_eq!(g.handler, 7);
    let p = post(8u32);
    assert_eq!(p.method, Method::POST);
    assert_eq!(p.handler, 8);
}

#[test]
fn empty_router_has_no_routes() {
    let r: Table = Router::new();
    assert_eq!(r.dispatch("/", Method::GET), None);
}

#[test]
fn dispatch_finds_registered_handlers() {
    let r: Table = Router::new().route("/", get(1)).route("/hello", get(2)).route("/hello", post(3));
    assert_eq!(r.dispatch("/", Method::GET), Some(&1));
    assert_eq!(r.dispatch("/hello", Method::GET), Some(&2));
    assert_eq!(r.dispatch("/hello", Method::POST), Some(&3));
    assert_eq!(r.dispatch("/hello", Method::PUT), None);
}

#[test]
fn matching_is_exact() {
    let r: Table = Router::new().route("/hello", get(2));
    assert_eq!(r.dispatch("/hello/", Method::GET), None);
    assert_eq!(r.dispatch("/Hello", Method::GET), None);
    assert_eq!(r.dispatch("hello", Method::GET), None);
}

#[test]
fn re_registering_replaces_the_handler() {
    let r: Table = Router::new().route("/a", get(1)).route("/b", get(5)).route("/a", get(9));
    assert_eq!(r.dispatch("/a", Method::GET), Some(&9));
    assert_eq!(r.dispatch("/b", Method::GET), Some(&5));
}

#[test]
fn first_layer_is_outermost() {
    let r: Router<String, fn(String) -> String> = Router::new()
        .register_layer(outer as fn(String) -> String)
        .register_layer(inner as fn(String) -> String)
        .route("/", get("core".to_string()));
    assert_eq!(r.dispatch("/", Method::GET), Some(&"L1(L2(core))".to_string()));
}

#[test]
fn layers_wrap_only_later_routes() {
    let r: Router<String, fn(String) -> String> = Router::new()
        .route("/early", get("early".to_string()))
        .register_layer(outer as fn(String) -> String)
        .route("/late", Route { method: Method::PUT, handler: "late".to_string() });
    assert_eq!(r.dispatch("/early", Method::GET), Some(&"early".to_string()));
    assert_eq!(r.dispatch("/late", Method::PUT), Some(&"L1(late)".to_string()));
}

#[test]
fn handle_gives_the_handler_or_not_found() {
    let r: Table = Router::new().route("/hello", get(4));
    match r.handle("/hello", Method::GET) {
        Action::Invoke(h) => assert_eq!(*h, 4),
        Action::Respond(_) => panic!("expected the handler"),
    }
    match r.handle("/hello", Method::DELETE) {
        Action::Respond(s) => assert_eq!(s, oxide::responses::HttpResponse::not_found()),
        Action::Invoke(_) => panic!("expected a 404"),
    }
}
