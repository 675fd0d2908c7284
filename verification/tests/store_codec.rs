//! The cache round trip, the serialized format, and token validity.

use spotifalc::codec::parse_record;
use spotifalc::codec::serialize_record;
use spotifalc::store::TokenStore;
use spotifalc::token::TokenRecord;

fn record(
    access: &str,
    refresh: Option<&str>,
    expires: Option<i64>,
    scopes: &[&str],
) -> TokenRecord {
    TokenRecord {
        access_token: access.to_string(),
        refresh_token: refresh.map(|s| s.to_string()),
        expires_at: expires,
        scopes: scopes.iter().map(|s| s.to_string()).collect(),
    }
}

#[test]
fn save_load_round_trip_full_record() {
    let rec = record(
        "BQDtoken-xyz",
        Some("AQCrefresh-123"),
        Some(1_700_000_000),
        &["user-read-currently-playing", "user-modify-playback-state"],
    );
    let mut store = TokenStore::new();
    store.save(&rec);
    assert_eq!(store.load(), Some(rec));
}

#[test]
fn save_load_round_trip_minimal_record() {
    let rec = record("t", None, None, &[]);
    let mut store = TokenStore::new();
    store.save(&rec);
    assert_eq!(store.load(), Some(rec));
}

#[test]
fn save_load_round_trip_negative_expiry() {
    let rec = record("t", Some("r"), Some(-12345), &["a"]);
    let mut store = TokenStore::new();
    store.save(&rec);
    assert_eq!(store.load(), Some(rec));
}

#[test]
fn save_load_round_trip_awkward_characters() {
    // Field contents may hold newlines and digits; the length-prefixed
    // format must not be confused by them.
    let rec = record("a\n7\nx", Some("1\n0\n"), Some(0), &["sc ope", "2\n2"]);
    let mut store = TokenStore::new();
    store.save(&rec);
    assert_eq!(store.load(), Some(rec));
}

#[test]
fn save_replaces_previous_record_entirely() {
    let first = record("first", Some("r1"), Some(10), &["a", "b"]);
    let second = record("second", None, None, &[]);
    let mut store = TokenStore::new();
    store.save(&first);
    store.save(&second);
    assert_eq!(store.load(), Some(second));
}

#[test]
fn serialized_form_is_exactly_the_documented_format() {
    let rec = record("ab", None, Some(99), &["s1"]);
    let s = serialize_record(&rec);
    assert_eq!(s, "2\nab\n0\n1\n99\n1\n2\ns1\n");
    let neg = record("x", Some("rr"), Some(-7), &[]);
    assert_eq!(serialize_record(&neg), "1\nx\n1\n2\nrr\n1\n-7\n0\n");
}

#[test]
fn codec_round_trip_without_a_store() {
    let rec = record("tok", Some("ref"), Some(42), &["one"]);
    let s = serialize_record(&rec);
    assert_eq!(parse_record(&s), Some(rec));
}

#[test]
fn empty_store_holds_no_record() {
    let store = TokenStore::new();
    assert_eq!(store.load(), None);
    assert_eq!(store.contents(), "");
}

#[test]
fn unparseable_contents_hold_no_record() {
    for garbage in [
        "not a record",
        "07\nx\n",         // non-canonical length
        "2\nab\n0\n1\n99\n1\n2\ns1\ntrailing", // junk after the record
        "0\n\n0\n0\n0\n",  // empty access token
        "2\nab\n0\n1\n18446744073709551616\n0\n", // expiry over 64 bits
        "2\nab",           // truncated
        "1\nx\n0\n1\n-0\n0\n", // minus zero is not canonical
        "02\nab\n0\n0\n0\n",   // leading zero in a length
    ] {
        let store = TokenStore::from_contents(garbage.to_string());
        assert_eq!(store.load(), None, "contents {:?} must hold no record", garbage);
    }
}

#[test]
fn validity_needs_future_expiry_beyond_margin() {
    let now: i64 = 1_000_000;
    // Expiry in the past: invalid.
    assert!(!TokenStore::is_valid(&record("t", None, Some(now - 3600), &[]), now));
    // No expiry at all: treated as already invalid.
    assert!(!TokenStore::is_valid(&record("t", None, None, &[]), now));
    // Still inside the 10-second safety margin: invalid.
    assert!(!TokenStore::is_valid(&record("t", None, Some(now + 10), &[]), now));
    assert!(!TokenStore::is_valid(&record("t", None, Some(now + 3), &[]), now));
    // Strictly beyond now + margin: valid.
    assert!(TokenStore::is_valid(&record("t", None, Some(now + 11), &[]), now));
    assert!(TokenStore::is_valid(&record("t", None, Some(now + 3600), &[]), now));
}

#[test]
fn validity_at_extreme_expiries() {
    assert!(!TokenStore::is_valid(&record("t", None, Some(i64::MIN), &[]), 0));
    assert!(TokenStore::is_valid(&record("t", None, Some(i64::MAX), &[]), 0));
}
