//! The form body grammar: pair splitting, percent decoding, the UTF-8
//! step, and the code policy.

use hakase::code_policy::generate_code;
use hakase::form::{parse_create_form, CreateForm};

fn parse(body: &str) -> Option<CreateForm> {
    parse_create_form(body.as_bytes())
}

#[test]
fn plain_fields_parse() {
    let f = parse("url=http%3A%2F%2Fwww.google.com%2F&code=abc&password=pw").unwrap();
    assert_eq!(f.url, "http://www.google.com/");
    assert_eq!(f.code.unwrap(), "abc");
    assert_eq!(f.password.unwrap(), "pw");
}

#[test]
fn plus_decodes_to_space_and_hex_is_case_insensitive() {
    let f = parse("url=a+b%2fc%2FD").unwrap();
    assert_eq!(f.url, "a b/c/D");
    assert!(f.code.is_none());
    assert!(f.password.is_none());
}

#[test]
fn value_keeps_later_equals_signs() {
    let f = parse("url=a=b=c").unwrap();
    assert_eq!(f.url, "a=b=c");
}

#[test]
fn empty_value_and_unknown_keys() {
    let f = parse("other=1&url=x&code=&extra").unwrap();
    assert_eq!(f.url, "x");
    assert_eq!(f.code.unwrap(), "");
    assert!(f.password.is_none());
}

#[test]
fn encoded_key_is_recognized() {
    let f = parse("%75rl=y").unwrap();
    assert_eq!(f.url, "y");
}

#[test]
fn multibyte_value_decodes() {
    let f = parse("url=caf%C3%A9").unwrap();
    assert_eq!(f.url, "café");
}

#[test]
fn missing_url_is_malformed() {
    assert!(parse("code=abc").is_none());
    assert!(parse("").is_none());
}

#[test]
fn duplicate_field_is_malformed() {
    assert!(parse("url=a&url=b").is_none());
    assert!(parse("url=a&code=b&code=c").is_none());
}

#[test]
fn broken_escape_is_malformed() {
    assert!(parse("url=%").is_none());
    assert!(parse("url=%1").is_none());
    assert!(parse("url=%zz").is_none());
}

#[test]
fn invalid_utf8_is_malformed() {
    assert!(parse("url=%FF").is_none());
    assert!(parse("url=%C3").is_none());
}

#[test]
fn generated_codes_are_five_alphanumerics() {
    for _ in 0..50 {
        let code = generate_code();
        assert_eq!(code.len(), 5);
        assert!(code.chars().all(|c| c.is_ascii_alphanumeric()));
    }
}

#[test]
fn ensure_code_keeps_a_requested_code() {
    let f = parse("url=x&code=mine").unwrap().ensure_code();
    assert_eq!(f.code.unwrap(), "mine");
    assert_eq!(f.url, "x");
}

#[test]
fn ensure_code_generates_when_absent_or_empty() {
    let f = parse("url=x").unwrap().ensure_code();
    let code = f.code.unwrap();
    assert_eq!(code.len(), 5);
    assert!(code.chars().all(|c| c.is_ascii_alphanumeric()));

    let f = parse("url=x&code=").unwrap().ensure_code();
    let code = f.code.unwrap();
    assert_eq!(code.len(), 5);
    assert!(code.chars().all(|c| c.is_ascii_alphanumeric()));
}
