use rlunch::reduce_whitespace;
use rlunch::util::parse_price;
use rlunch::web::{check_id, Error, ListQuery, ListQueryLevel};

#[test]
fn reduce_whitespace_collapses_runs() {
    assert_eq!(reduce_whitespace("a  b"), "a b");
    assert_eq!(reduce_whitespace("  leading and   trailing \t\n "), "leading and trailing");
    assert_eq!(reduce_whitespace("untouched"), "untouched");
    assert_eq!(reduce_whitespace("   "), "");
    assert_eq!(reduce_whitespace(""), "");
    // non-breaking space is Unicode whitespace too
    assert_eq!(reduce_whitespace("a\u{a0}b"), "a b");
}

#[test]
fn parse_price_reads_minor_units() {
    assert_eq!(parse_price("129"), 12900);
    assert_eq!(parse_price("129.5"), 12950);
    assert_eq!(parse_price("129.55"), 12955);
    // fraction digits past the second are ignored
    assert_eq!(parse_price("129.559"), 12955);
    assert_eq!(parse_price("95 kr"), 9500);
    assert_eq!(parse_price("0"), 0);
    assert_eq!(parse_price("7."), 700);
}

#[test]
fn parse_price_rejects_junk() {
    assert_eq!(parse_price(""), 0);
    assert_eq!(parse_price("gratis"), 0);
    assert_eq!(parse_price(".5"), 0);
    // too large for 64 bits: unparseable
    assert_eq!(parse_price("99999999999999999999999999"), 0);
}

#[test]
fn list_query_levels() {
    let q = ListQuery {
        country: Some(String::from("se")),
        city: Some(String::from("gbg")),
        site: Some(String::from("lh")),
        restaurant: Some(String::from("r")),
    };
    assert_eq!(q.level(), ListQueryLevel::Restaurant);
    let q = ListQuery { restaurant: None, ..q };
    assert_eq!(q.level(), ListQueryLevel::Site);
    let q = ListQuery { site: None, ..q };
    assert_eq!(q.level(), ListQueryLevel::City);
    let q = ListQuery { city: None, ..q };
    assert_eq!(q.level(), ListQueryLevel::Country);
    let q = ListQuery { country: None, ..q };
    assert_eq!(q.level(), ListQueryLevel::Empty);
    // a gap above the deepest component shortens the reach
    let q = ListQuery {
        country: Some(String::from("se")),
        city: None,
        site: Some(String::from("lh")),
        restaurant: None,
    };
    assert_eq!(q.level(), ListQueryLevel::Country);
}

#[test]
fn check_id_rejects_only_nil() {
    assert_eq!(check_id(0), Err(Error::NotFound));
    assert_eq!(check_id(1), Ok(()));
}

#[test]
fn error_status_codes() {
    assert_eq!(Error::NotFound.status_code(), 404);
    assert_eq!(Error::Database.status_code(), 500);
    assert_eq!(Error::Internal.status_code(), 500);
}
