//! Configuration types, the response surface, and the logging decisions.

use summer_boot::config::{ClientAuth, ConfigurationProperties, LogLevel, LoggingSystem, Ssl};
use summer_boot::response::{Body, Cookie, HttpError, Response};

#[test]
fn test_ssl_config() {
    let ssl_config = Ssl {
        enabled: Some(false),
        protocol: Some(String::from("TLS")),
        ciphers: Vec::new(),
        client_auth: ClientAuth::NONE,
        enabled_protocols: Vec::new(),
        key_alias: None,
        key_passowrd: None,
        key_store: None,
        key_store_password: None,
        key_store_type: None,
        trust_store: None,
        trust_store_password: None,
        trust_store_type: None,
        trust_store_provider: None,
        certificate: None,
        certificate_private_key: None,
        trust_certificate: None,
        trust_certificate_private_key: None,
    };

    println!("ssl config : {:?}", Ssl::new(ssl_config));
}

#[test]
fn ssl_new_forces_tls_on() {
    let base = Ssl {
        enabled: Some(false),
        protocol: None,
        ciphers: vec!["a".to_string()],
        client_auth: ClientAuth::WANT,
        enabled_protocols: Vec::new(),
        key_alias: Some("k".to_string()),
        key_passowrd: None,
        key_store: None,
        key_store_password: None,
        key_store_type: None,
        trust_store: None,
        trust_store_password: None,
        trust_store_type: None,
        trust_store_provider: None,
        certificate: None,
        certificate_private_key: None,
        trust_certificate: None,
        trust_certificate_private_key: None,
    };
    let ssl = Ssl::new(base);
    assert_eq!(ssl.enabled, Some(true));
    assert_eq!(ssl.protocol.as_deref(), Some("TLS"));
    assert_eq!(ssl.ciphers, vec!["a".to_string()]);
    assert_eq!(ssl.client_auth, ClientAuth::WANT);
    assert_eq!(ssl.key_alias.as_deref(), Some("k"));
}

#[test]
fn configuration_properties_accessors() {
    let mut p = ConfigurationProperties::new();
    assert!(p.get_keys_sanitize().is_empty());
    assert!(p.get_additional_keys_sanitize().is_empty());
    p.set_keys_sanitize(vec!["password".to_string()]);
    p.set_additional_keys_sanitize(vec!["token".to_string()]);
    assert_eq!(p.get_keys_sanitize()[0], "password");
    assert_eq!(p.get_additional_keys_sanitize()[0], "token");
}

#[test]
fn logging_levels_follow_status_classes() {
    let log = LoggingSystem::new();
    assert_eq!(log.level_for_status(200), LogLevel::Info);
    assert_eq!(log.level_for_status(301), LogLevel::Info);
    assert_eq!(log.level_for_status(404), LogLevel::Warn);
    assert_eq!(log.level_for_status(500), LogLevel::Error);
    assert_eq!(log.level_for_status(503), LogLevel::Error);
}

#[test]
fn response_surface_behaves() {
    let mut res = Response::new(200);
    assert_eq!(res.status(), 200);
    res.set_status(201);
    assert_eq!(res.status(), 201);
    assert_eq!(res.len(), Some(0));
    assert_eq!(res.is_empty(), Some(true));
    res.body_string("hi".to_string());
    assert_eq!(res.len(), Some(2));
    assert_eq!(res.is_empty(), Some(false));
    res.set_body(Body::Streamed(b"xyz".to_vec()));
    assert_eq!(res.len(), None);
    assert_eq!(res.is_empty(), None);
    let taken = res.take_body();
    assert!(matches!(taken, Body::Streamed(b) if b == b"xyz"));
    assert_eq!(res.len(), Some(0));

    res.insert_header("X-One", "1");
    res.append_header("x-one", "2");
    assert_eq!(res.header("X-ONE").unwrap().len(), 2);
    assert_eq!(res.header_names(), vec!["x-one".to_string()]);
    let removed = res.remove_header("x-one").unwrap();
    assert_eq!(removed, vec!["1".to_string(), "2".to_string()]);
    assert!(res.header("x-one").is_none());

    res.set_content_type("text/plain");
    assert_eq!(res.content_type().unwrap().as_str(), "text/plain");

    assert!(res.error().is_none());
    res.set_error(HttpError::new(418, "teapot".to_string()));
    assert_eq!(res.error().unwrap().status(), 418);
    assert_eq!(res.error().unwrap().text(), "teapot");
    let e = res.take_error().unwrap();
    assert_eq!(e.status, 418);
    assert!(res.error().is_none());

    res.insert_cookie(Cookie { name: "sid".to_string(), value: "1".to_string() });
    res.remove_cookie(Cookie { name: "sid".to_string(), value: "1".to_string() });
    assert_eq!(res.cookie_events.len(), 2);
}

#[test]
fn response_builder_chains() {
    let res = Response::builder(200)
        .header("x-a", "1")
        .content_type("text/plain")
        .body_string("body".to_string())
        .build();
    assert_eq!(res.status(), 200);
    assert_eq!(res.header("x-a").unwrap()[0], "1");
    assert_eq!(res.content_type().unwrap().as_str(), "text/plain");
    assert_eq!(res.len(), Some(4));
}

#[test]
fn error_response_takes_status_from_the_error() {
    let res = Response::from_error(HttpError::new(404, "gone".to_string()));
    assert_eq!(res.status(), 404);
    assert_eq!(res.error().unwrap().text(), "gone");
    let res = Response::from_error(HttpError::new(9999, "weird".to_string()));
    assert_eq!(res.status(), 500);
}
