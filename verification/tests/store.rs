//! The single-table store: insertion, lookup, the counter update, and
//! the schema bounds.

use hakase::routes::count_response;
use hakase::store::{NewUrl, StoreError, UrlStore};

#[test]
fn insert_and_find() {
    let mut store = UrlStore::new();
    let rec = NewUrl::new("http://example.com/", "abc");
    assert!(store.insert(&rec, 7).is_ok());

    let found = store.find_by_code("abc").unwrap();
    assert_eq!(found.code, "abc");
    assert_eq!(found.url, "http://example.com/");
    assert_eq!(found.create_time, 7);
    assert_eq!(found.count, 0);

    assert!(store.find_by_code("ab").is_none());
    assert!(store.find_by_code("ABC").is_none());
}

#[test]
fn duplicate_code_errors() {
    let mut store = UrlStore::new();
    assert!(store.insert(&NewUrl::new("http://a.example/", "dup"), 0).is_ok());
    let err = store.insert(&NewUrl::new("http://b.example/", "dup"), 0).unwrap_err();
    assert_eq!(err, StoreError::DuplicateCode);
    assert_eq!(store.find_by_code("dup").unwrap().url, "http://a.example/");
}

#[test]
fn schema_bounds_are_enforced() {
    let mut store = UrlStore::new();
    let long_code = "c".repeat(21);
    let err = store.insert(&NewUrl::new("http://a.example/", &long_code), 0).unwrap_err();
    assert_eq!(err, StoreError::Invalid);

    let err = store.insert(&NewUrl::new("http://a.example/", ""), 0).unwrap_err();
    assert_eq!(err, StoreError::Invalid);

    let long_url = "u".repeat(5001);
    let err = store.insert(&NewUrl::new(&long_url, "ok"), 0).unwrap_err();
    assert_eq!(err, StoreError::Invalid);

    let just_fits_code = "c".repeat(20);
    let just_fits_url = "u".repeat(5000);
    assert!(store.insert(&NewUrl::new(&just_fits_url, &just_fits_code), 0).is_ok());
}

#[test]
fn record_visit_increments_and_returns() {
    let mut store = UrlStore::new();
    store.insert(&NewUrl::new("http://example.com/", "abc"), 0).unwrap();
    let id = store.find_by_code("abc").unwrap().id;

    let updated = store.record_visit(id).unwrap();
    assert_eq!(updated.count, 1);
    let updated = store.record_visit(id).unwrap();
    assert_eq!(updated.count, 2);
    assert_eq!(store.find_by_code("abc").unwrap().count, 2);
}

#[test]
fn record_visit_unknown_id_errors() {
    let mut store = UrlStore::new();
    store.insert(&NewUrl::new("http://example.com/", "abc"), 0).unwrap();
    let id = store.find_by_code("abc").unwrap().id;
    let err = store.record_visit(id + 1).unwrap_err();
    assert_eq!(err, StoreError::Invalid);
    assert_eq!(store.find_by_code("abc").unwrap().count, 0);
}

#[test]
fn ids_are_distinct_and_increasing() {
    let mut store = UrlStore::new();
    store.insert(&NewUrl::new("http://a.example/", "one"), 0).unwrap();
    store.insert(&NewUrl::new("http://b.example/", "two"), 0).unwrap();
    let a = store.find_by_code("one").unwrap().id;
    let b = store.find_by_code("two").unwrap().id;
    assert!(a < b);
}

#[test]
fn counter_renders_in_decimal() {
    assert_eq!(count_response(0).body.unwrap(), b"0".to_vec());
    assert_eq!(count_response(7).body.unwrap(), b"7".to_vec());
    assert_eq!(count_response(12345).body.unwrap(), b"12345".to_vec());
    assert_eq!(
        count_response(u64::MAX).body.unwrap(),
        b"18446744073709551615".to_vec()
    );
}
