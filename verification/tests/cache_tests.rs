use ernie_translate::cache::{
    parse_cache_record, render_cache_record, resolve_cached, CacheLookup, TOKEN_TTL_SECS,
};
use ernie_translate::text::str_to_chars;

#[test]
fn rendered_record_exact_text() {
    let rec = render_cache_record("abc", 42);
    assert_eq!(rec, "{\"access_token\":\"abc\",\"timestamp\":42}");
}

#[test]
fn record_round_trips_through_parse() {
    let rec = render_cache_record("tok-123", 1700000000);
    let parsed = parse_cache_record(&str_to_chars(&rec)).unwrap();
    assert_eq!(parsed.token, "tok-123");
    assert_eq!(parsed.issued_at, 1700000000);
}

#[test]
fn record_with_escapes_round_trips() {
    let rec = render_cache_record("a\"b\\c\nd", 7);
    let parsed = parse_cache_record(&str_to_chars(&rec)).unwrap();
    assert_eq!(parsed.token, "a\"b\\c\nd");
    assert_eq!(parsed.issued_at, 7);
}

#[test]
fn record_member_order_and_whitespace_flexible() {
    let text = " { \"timestamp\" : 99 , \"access_token\" : \"t\" } ";
    let parsed = parse_cache_record(&str_to_chars(text)).unwrap();
    assert_eq!(parsed.token, "t");
    assert_eq!(parsed.issued_at, 99);
}

#[test]
fn record_missing_member_fails() {
    assert!(parse_cache_record(&str_to_chars("{\"access_token\":\"t\"}")).is_none());
    assert!(parse_cache_record(&str_to_chars("{\"timestamp\":1}")).is_none());
}

#[test]
fn record_huge_timestamp_fails() {
    let text = "{\"access_token\":\"t\",\"timestamp\":99999999999999999999999}";
    assert!(parse_cache_record(&str_to_chars(text)).is_none());
}

#[test]
fn token_at_ttl_boundary_is_fresh() {
    let now: u64 = 2_000_000_000;
    let rec = render_cache_record("tok", now - TOKEN_TTL_SECS);
    match resolve_cached(Some(&rec), now) {
        CacheLookup::Hit(t) => assert_eq!(t, "tok"),
        _ => panic!("boundary-aged token must be a hit"),
    }
}

#[test]
fn token_one_second_past_ttl_is_expired() {
    let now: u64 = 2_000_000_000;
    let rec = render_cache_record("tok", now - TOKEN_TTL_SECS - 1);
    assert!(matches!(resolve_cached(Some(&rec), now), CacheLookup::Expired));
}

#[test]
fn token_issued_in_future_is_fresh() {
    let now: u64 = 1000;
    let rec = render_cache_record("tok", 2000);
    assert!(matches!(resolve_cached(Some(&rec), now), CacheLookup::Hit(_)));
}

#[test]
fn absent_file_is_miss() {
    assert!(matches!(resolve_cached(None, 1000), CacheLookup::Miss));
}

#[test]
fn unparsable_file_is_miss() {
    assert!(matches!(
        resolve_cached(Some("not json"), 1000),
        CacheLookup::Miss
    ));
    assert!(matches!(
        resolve_cached(Some("{\"access_token\":\"t\"}"), 1000),
        CacheLookup::Miss
    ));
}
