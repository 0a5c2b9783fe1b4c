use drinktrack::error::{AppError, GENERIC_IO_MESSAGE};
use drinktrack::ident::{parse_id, Identifier};
use drinktrack::record::Kind;

#[test]
fn serialize_coffee_identifier() {
    let id = Identifier { kind: Kind::Coffee, num: 42 };
    assert_eq!(id.serialize(), "coffee@42");
}

#[test]
fn serialize_beer_identifier_zero() {
    let id = Identifier { kind: Kind::Beer, num: 0 };
    assert_eq!(id.serialize(), "beer@0");
}

#[test]
fn identifier_round_trip_small() {
    let id = Identifier { kind: Kind::Coffee, num: 42 };
    assert_eq!(parse_id(&id.serialize()), Some(id));
}

#[test]
fn identifier_round_trip_zero() {
    let id = Identifier { kind: Kind::Beer, num: 0 };
    assert_eq!(parse_id(&id.serialize()), Some(id));
}

#[test]
fn identifier_round_trip_largest() {
    let id = Identifier { kind: Kind::Coffee, num: u64::MAX };
    let s = id.serialize();
    assert_eq!(s, "coffee@18446744073709551615");
    assert_eq!(parse_id(&s), Some(id));
}

#[test]
fn parse_accepts_either_kind() {
    assert_eq!(parse_id("beer@7"), Some(Identifier { kind: Kind::Beer, num: 7 }));
    assert_eq!(parse_id("coffee@7"), Some(Identifier { kind: Kind::Coffee, num: 7 }));
}

#[test]
fn parse_rejects_malformed() {
    assert_eq!(parse_id(""), None);
    assert_eq!(parse_id("not-an-id"), None);
    assert_eq!(parse_id("coffee"), None);
    assert_eq!(parse_id("coffee@"), None);
    assert_eq!(parse_id("coffee@x"), None);
    assert_eq!(parse_id("coffee@1x"), None);
    assert_eq!(parse_id("@5"), None);
    assert_eq!(parse_id("tea@5"), None);
    assert_eq!(parse_id("coffee@ 5"), None);
    assert_eq!(parse_id("Coffee@5"), None);
}

#[test]
fn parse_rejects_leading_zero() {
    assert_eq!(parse_id("coffee@07"), None);
    assert_eq!(parse_id("beer@00"), None);
}

#[test]
fn parse_rejects_too_large() {
    // one past u64::MAX, and a much longer run
    assert_eq!(parse_id("coffee@18446744073709551616"), None);
    assert_eq!(parse_id("beer@999999999999999999999999"), None);
}

#[test]
fn invalid_input_keeps_decoder_detail() {
    let e = AppError::InvalidInput { status: 422, message: "missing field `brand`".to_string() };
    let (status, message) = e.respond();
    assert_eq!(status, 422);
    assert_eq!(message, "missing field `brand`");
}

#[test]
fn store_failure_passes_store_text_through() {
    let e = AppError::StoreFailure { message: "schema conflict".to_string() };
    let (status, message) = e.respond();
    assert_eq!(status, 500);
    assert_eq!(message, "schema conflict");
}

#[test]
fn io_failure_hides_detail() {
    let e = AppError::IoFailure { detail: "fd 7 closed unexpectedly".to_string() };
    let (status, message) = e.respond();
    assert_eq!(status, 500);
    assert_eq!(message, GENERIC_IO_MESSAGE);
    assert!(!message.contains("fd 7"));
}
