//! The request pipeline end to end: create, lookup, and count against
//! an in-memory store.

use hakase::config::Config;
use hakase::code_policy::generate_code;
use hakase::routes::{create, lookup, lookup_count, Response};
use hakase::store::UrlStore;

fn service(secret: Option<String>) -> (Config, UrlStore) {
    (Config::new(secret, String::from("urls.db")), UrlStore::new())
}

fn post_create(config: &Config, store: &mut UrlStore, body: &str) -> Response {
    create(config, store, body.as_bytes(), 0)
}

#[test]
fn create_post() {
    let (config, mut store) = service(None);
    let response = post_create(&config, &mut store, "url=http%3A%2F%2Fwww.google.com%2F");
    assert_eq!(response.status, 201);
}

#[test]
fn create_post_with_password() {
    let (config, mut store) = service(Some(String::from("secret")));
    let response = post_create(&config, &mut store, "url=http%3A%2F%2Fwww.google.com%2F");
    assert_ne!(response.status, 201);
    assert_eq!(response.status, 400);

    let response = post_create(
        &config,
        &mut store,
        "url=http%3A%2F%2Fwww.google.com%2F&password=secret",
    );
    assert_eq!(response.status, 201);
}

#[test]
fn create_post_with_code() {
    let (config, mut store) = service(None);
    let code = format!("test-{}", generate_code());
    let body = format!("url=http%3A%2F%2Fwww.google.com%2F&code={}", code);
    let response = post_create(&config, &mut store, &body);

    assert_eq!(response.status, 201);

    let location = response.location.unwrap();
    assert_eq!(location, format!("/{}", code));
}

#[test]
fn test_lookup() {
    let (config, mut store) = service(None);
    let url = "http://www.google.com";
    let body = "url=http%3A%2F%2Fwww.google.com";

    let response = post_create(&config, &mut store, body);
    let location = response.location.unwrap();
    let code = &location[1..];

    let response = lookup(&mut store, code);
    let result = response.location.unwrap();
    assert_eq!(result, url);

    let response = lookup(&mut store, &format!("{}~", code));
    let body = response.body.unwrap();
    assert_eq!(&body[..], b"1");
}

#[test]
fn round_trip_scenario() {
    let (config, mut store) = service(None);
    let response = post_create(&config, &mut store, "url=http%3A%2F%2Fexample.com%2F");
    assert_eq!(response.status, 201);
    let location = response.location.unwrap();
    assert_eq!(location.len(), 6);
    assert!(location.starts_with('/'));
    let code = location[1..].to_string();
    assert!(code.chars().all(|c| c.is_ascii_alphanumeric()));

    let response = lookup(&mut store, &code);
    assert_eq!(response.status, 301);
    assert_eq!(response.location.unwrap(), "http://example.com/");
    assert!(response.body.is_none());

    let response = lookup(&mut store, &format!("{}~", code));
    assert_eq!(response.status, 200);
    assert_eq!(response.body.unwrap(), b"1".to_vec());
}

#[test]
fn unknown_code_is_not_found() {
    let (_, mut store) = service(None);
    let response = lookup(&mut store, "unknown");
    assert_eq!(response.status, 404);
    assert!(response.location.is_none());
    assert!(response.body.is_none());

    let response = lookup(&mut store, "unknown~");
    assert_eq!(response.status, 404);
    assert!(response.location.is_none());
    assert!(response.body.is_none());
}

#[test]
fn counter_counts_sequential_lookups() {
    let (config, mut store) = service(None);
    let response = post_create(&config, &mut store, "url=http%3A%2F%2Fexample.org%2F&code=hits");
    assert_eq!(response.status, 201);

    let response = lookup(&mut store, "hits~");
    assert_eq!(response.body.unwrap(), b"0".to_vec());

    for _ in 0..3 {
        let response = lookup(&mut store, "hits");
        assert_eq!(response.status, 301);
    }

    let response = lookup(&mut store, "hits~");
    assert_eq!(response.body.unwrap(), b"3".to_vec());
}

#[test]
fn count_query_does_not_increment() {
    let (config, mut store) = service(None);
    post_create(&config, &mut store, "url=http%3A%2F%2Fexample.org%2F&code=still");
    for _ in 0..4 {
        let response = lookup(&mut store, "still~");
        assert_eq!(response.status, 200);
        assert_eq!(response.body.unwrap(), b"0".to_vec());
    }
}

#[test]
fn duplicate_code_is_refused() {
    let (config, mut store) = service(None);
    let first = post_create(&config, &mut store, "url=http%3A%2F%2Fone.example%2F&code=taken");
    assert_eq!(first.status, 201);
    let second = post_create(&config, &mut store, "url=http%3A%2F%2Ftwo.example%2F&code=taken");
    assert_eq!(second.status, 400);
    assert_eq!(second.body.unwrap(), b"can not insert into database".to_vec());

    let response = lookup(&mut store, "taken");
    assert_eq!(response.location.unwrap(), "http://one.example/");
}

#[test]
fn malformed_body_is_refused() {
    let (config, mut store) = service(None);
    let response = post_create(&config, &mut store, "url=%zz");
    assert_eq!(response.status, 400);
    assert_eq!(response.body.unwrap(), b"body parse failed".to_vec());

    let response = post_create(&config, &mut store, "code=nourl");
    assert_eq!(response.status, 400);
    assert_eq!(response.body.unwrap(), b"body parse failed".to_vec());
}

#[test]
fn password_mismatch_reason() {
    let (config, mut store) = service(Some(String::from("hunter2")));
    let response = post_create(
        &config,
        &mut store,
        "url=http%3A%2F%2Fexample.com%2F&password=wrong",
    );
    assert_eq!(response.status, 400);
    assert_eq!(response.body.unwrap(), b"password does not match".to_vec());
}

#[test]
fn lookup_count_reads_the_stripped_code() {
    let (config, mut store) = service(None);
    post_create(&config, &mut store, "url=http%3A%2F%2Fexample.net%2F&code=plain");
    let response = lookup_count(&store, "plain");
    assert_eq!(response.status, 200);
    assert_eq!(response.body.unwrap(), b"0".to_vec());
    let response = lookup_count(&store, "missing");
    assert_eq!(response.status, 404);
}
