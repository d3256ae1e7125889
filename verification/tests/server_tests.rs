//! Routing, dispatch, connection decisions, and listener lifecycles.

use summer_boot::decode::decode;
use summer_boot::headers::Headers;
use summer_boot::listener::{
    accept_error_action, is_transient_error, AcceptAction, ConcurrentListener, FailoverListener,
    IoErrorKind, ListenError, ListenInfo, TcpListenerState,
};
use summer_boot::method::Method;
use summer_boot::request::Request;
use summer_boot::response::{Body, Response};
use summer_boot::router::RouteTarget;
use summer_boot::server::{exchange_outcome, pseudo_response, Next, NextStep, Server};
use summer_boot::ConnectionStatus;

#[test]
fn route_scenario_hello() {
    let mut app: Server<&str> = Server::new();
    let hello = app.at("/hello");
    app.get(&hello, "hello-handler");
    app.freeze();

    let sel = app.route("/hello", Method::Get);
    match sel.target {
        RouteTarget::Endpoint(i) => {
            assert_eq!(*app.handler(i), "hello-handler");
            let mut res = Response::new(200);
            res.body_bytes(b"Hello".to_vec());
            assert_eq!(res.status(), 200);
            assert_eq!(
                match &res.body {
                    Body::Fixed(b) => b.clone(),
                    Body::Streamed(b) => b.clone(),
                },
                b"Hello".to_vec()
            );
        },
        _ => panic!("GET /hello should hit the handler"),
    }

    let sel = app.route("/hello", Method::Post);
    assert!(matches!(sel.target, RouteTarget::MethodNotAllowed));
    assert_eq!(pseudo_response(&sel.target).unwrap().status(), 405);

    let sel = app.route("/missing", Method::Get);
    assert!(matches!(sel.target, RouteTarget::NotFound));
    assert_eq!(pseudo_response(&sel.target).unwrap().status(), 404);
}

#[test]
fn route_captures_named_parameters() {
    let mut app: Server<u32> = Server::new();
    let users = app.at("/users/:id/posts/:post");
    app.get(&users, 7);
    let sel = app.route("/users/42/posts/9", Method::Get);
    match sel.target {
        RouteTarget::Endpoint(i) => {
            assert_eq!(*app.handler(i), 7);
            assert_eq!(sel.params.get("id").unwrap().as_str(), "42");
            assert_eq!(sel.params.get("post").unwrap().as_str(), "9");
            assert!(sel.params.get("nope").is_none());
        },
        _ => panic!("parameterized route should match"),
    }
}

#[test]
fn route_prefers_exact_over_param_over_wildcard() {
    let mut app: Server<u32> = Server::new();
    let wild = app.at("/files/*");
    let named = app.at("/files/:name");
    let exact = app.at("/files/readme");
    app.get(&wild, 1);
    app.get(&named, 2);
    app.get(&exact, 3);

    let sel = app.route("/files/readme", Method::Get);
    assert!(matches!(sel.target, RouteTarget::Endpoint(i) if *app.handler(i) == 3));

    let sel = app.route("/files/other", Method::Get);
    assert!(matches!(sel.target, RouteTarget::Endpoint(i) if *app.handler(i) == 2));

    let sel = app.route("/files/a/b", Method::Get);
    match sel.target {
        RouteTarget::Endpoint(i) => {
            assert_eq!(*app.handler(i), 1);
            assert_eq!(sel.params.wildcard.as_deref(), Some("a/b"));
        },
        _ => panic!("wildcard should match"),
    }
}

#[test]
fn head_falls_back_to_get() {
    let mut app: Server<u32> = Server::new();
    let hello = app.at("/hello");
    app.get(&hello, 11);
    let sel = app.route("/hello", Method::Head);
    assert!(matches!(sel.target, RouteTarget::Endpoint(i) if *app.handler(i) == 11));
}

#[test]
fn head_prefers_its_own_registration() {
    let mut app: Server<u32> = Server::new();
    let hello = app.at("/hello");
    app.get(&hello, 11);
    app.head(&hello, 12);
    let sel = app.route("/hello", Method::Head);
    assert!(matches!(sel.target, RouteTarget::Endpoint(i) if *app.handler(i) == 12));
}

#[test]
fn all_method_fallback_applies() {
    let mut app: Server<u32> = Server::new();
    let anything = app.at("/anything");
    app.all(&anything, 5);
    let sel = app.route("/anything", Method::Delete);
    assert!(matches!(sel.target, RouteTarget::Endpoint(i) if *app.handler(i) == 5));
}

#[test]
fn route_handles_request_params() {
    let mut app: Server<u32> = Server::new();
    let named = app.at("/greet/:name");
    app.get(&named, 1);
    let head = decode(b"GET /greet/world HTTP/1.1\r\nHost: a\r\n\r\n").unwrap();
    let mut req = Request::new(head, Vec::new());
    let sel = app.route(req.path().as_str(), req.method());
    req.push_route_params(sel.params);
    assert_eq!(req.param("name").unwrap().as_str(), "world");
    assert!(req.wildcard().is_none());
}

#[test]
fn route_at_joins_paths() {
    let app: Server<u32> = Server::new();
    let base = app.at("/api");
    let nested = base.at("v1");
    assert_eq!(nested.path(), "/api/v1");
    let slashed = base.at("/v2");
    assert_eq!(slashed.path(), "/api/v2");
    let root = base.at("/");
    assert_eq!(root.path(), "/api");
}

#[test]
fn middleware_cursor_walks_the_chain_once() {
    let mut app: Server<u32> = Server::new();
    app.with_middleware();
    app.with_middleware();
    let mut next = app.next();
    assert_eq!(next.step(), NextStep::Middleware(0));
    assert_eq!(next.step(), NextStep::Middleware(1));
    assert_eq!(next.step(), NextStep::Endpoint);
    assert_eq!(next.step(), NextStep::Endpoint);
}

#[test]
fn exchange_keeps_alive_by_default() {
    let head = decode(b"GET / HTTP/1.1\r\nHost: a\r\n\r\n").unwrap();
    let res = Response::new(200);
    let outcome = exchange_outcome(&head.headers, &res, false);
    assert!(!outcome.upgraded);
    assert_eq!(outcome.status, ConnectionStatus::KeepAlive);
}

#[test]
fn exchange_closes_when_request_asks() {
    let head = decode(b"GET / HTTP/1.1\r\nHost: a\r\nConnection: close\r\n\r\n").unwrap();
    let res = Response::new(200);
    let outcome = exchange_outcome(&head.headers, &res, false);
    assert_eq!(outcome.status, ConnectionStatus::Close);
}

#[test]
fn exchange_closes_when_response_asks() {
    let head = decode(b"GET / HTTP/1.1\r\nHost: a\r\n\r\n").unwrap();
    let mut res = Response::new(200);
    res.insert_header("connection", "close");
    let outcome = exchange_outcome(&head.headers, &res, false);
    assert_eq!(outcome.status, ConnectionStatus::Close);
}

#[test]
fn exchange_upgrades_only_with_all_three_signals() {
    let head = decode(
        b"GET / HTTP/1.1\r\nHost: a\r\nUpgrade: websocket\r\nConnection: keep-alive, Upgrade\r\n\r\n",
    )
    .unwrap();
    let mut res = Response::new(101);
    res.insert_header("upgrade", "websocket");
    let outcome = exchange_outcome(&head.headers, &res, true);
    assert!(outcome.upgraded);
    assert_eq!(outcome.status, ConnectionStatus::Close);

    let plain = Response::new(200);
    let outcome = exchange_outcome(&head.headers, &plain, true);
    assert!(!outcome.upgraded);
    assert_eq!(outcome.status, ConnectionStatus::KeepAlive);

    let res2 = Response::new(101);
    let outcome = exchange_outcome(&head.headers, &res2, false);
    assert!(!outcome.upgraded);
}

#[test]
fn headers_are_case_insensitive_and_ordered() {
    let mut h = Headers::new();
    h.insert("Content-Type", "text/plain");
    h.append("X-Many", "one");
    h.append("X-MANY", "two");
    assert_eq!(h.header("content-type").unwrap()[0], "text/plain");
    let many = h.header("x-many").unwrap();
    assert_eq!(many.len(), 2);
    assert_eq!(many[0], "one");
    assert_eq!(many[1], "two");
    let removed = h.remove("X-Many").unwrap();
    assert_eq!(removed.len(), 2);
    assert!(h.header("x-many").is_none());
    assert_eq!(h.len(), 1);
}

#[test]
fn tcp_listener_lifecycle_is_single_use() {
    let mut l = TcpListenerState::new();
    assert_eq!(l.begin_accept(), Err(ListenError::AcceptBeforeBind));
    let info = ListenInfo::new("http://127.0.0.1:8080".to_string(), "tcp".to_string(), false);
    assert_eq!(l.bind(info), Ok(()));
    assert_eq!(l.info().unwrap().connection(), "http://127.0.0.1:8080");
    assert_eq!(l.info().unwrap().transport(), "tcp");
    assert!(!l.info().unwrap().is_encrypted());
    let again = ListenInfo::new("x".to_string(), "tcp".to_string(), false);
    assert_eq!(l.bind(again), Err(ListenError::BindTwice));
    assert_eq!(l.begin_accept(), Ok(()));
    assert_eq!(l.begin_accept(), Err(ListenError::AcceptTwice));
}

#[test]
fn failover_listener_commits_to_first_success() {
    let mut f = FailoverListener::new();
    assert_eq!(f.add(), Ok(0));
    assert_eq!(f.add(), Ok(1));
    assert_eq!(f.add(), Ok(2));
    assert_eq!(f.begin_accept(), Err(ListenError::AcceptBeforeBind));
    assert_eq!(f.next_candidate(), Some(0));
    f.record_failure();
    assert_eq!(f.next_candidate(), Some(1));
    f.record_success();
    assert_eq!(f.next_candidate(), None);
    assert_eq!(f.begin_accept(), Ok(1));
    assert_eq!(f.begin_accept(), Err(ListenError::AcceptTwice));
    assert_eq!(f.add(), Err(ListenError::BindTwice));
}

#[test]
fn concurrent_listener_binds_all_or_reports_first_failure() {
    let mut c = ConcurrentListener::new();
    assert_eq!(c.add(), Ok(0));
    assert_eq!(c.add(), Ok(1));
    assert_eq!(c.bind(&vec![true, false]), Err(1));
    assert_eq!(c.bind(&vec![true, true]), Ok(()));
    assert_eq!(c.add(), Err(ListenError::BindTwice));
    assert_eq!(c.first_accept_failure(&vec![true, true]), None);
    assert_eq!(c.first_accept_failure(&vec![true, false]), Some(1));
}

#[test]
fn accept_errors_classify_and_back_off() {
    assert!(is_transient_error(IoErrorKind::ConnectionRefused));
    assert!(is_transient_error(IoErrorKind::ConnectionAborted));
    assert!(is_transient_error(IoErrorKind::ConnectionReset));
    assert!(!is_transient_error(IoErrorKind::Other));
    assert_eq!(accept_error_action(IoErrorKind::ConnectionReset), AcceptAction::Continue);
    assert_eq!(accept_error_action(IoErrorKind::Other), AcceptAction::Backoff(500));
}

#[test]
fn root_route_matches_empty_and_slash_paths() {
    let mut app: Server<u32> = Server::new();
    let root = app.at("/");
    app.get(&root, 1);
    let sel = app.route("/", Method::Get);
    assert!(matches!(sel.target, RouteTarget::Endpoint(i) if *app.handler(i) == 1));
    let sel = app.route("", Method::Get);
    assert!(matches!(sel.target, RouteTarget::Endpoint(i) if *app.handler(i) == 1));
}

#[test]
fn earlier_registration_wins_a_tie() {
    let mut app: Server<u32> = Server::new();
    let a = app.at("/items/:x");
    let b = app.at("/items/:y");
    app.get(&a, 1);
    app.get(&b, 2);
    let sel = app.route("/items/9", Method::Get);
    assert!(matches!(sel.target, RouteTarget::Endpoint(i) if *app.handler(i) == 1));
}
