use dcapal_market_data::codec::{decode, encode};
use dcapal_market_data::entity::MarketRecord;
use dcapal_market_data::error::DcaError;

fn record(id: &str, base: &str, quote: &str) -> MarketRecord {
    MarketRecord { id: id.to_string(), base: base.to_string(), quote: quote.to_string() }
}

#[test]
fn encode_is_canonical_json() {
    let rec = record("USD/BTC", "USD", "BTC");
    let payload = encode(&rec);
    assert_eq!(payload, "{\"id\":\"USD/BTC\",\"base\":\"USD\",\"quote\":\"BTC\"}");
}

#[test]
fn encode_escapes_quotes_and_backslashes() {
    let rec = record("a\"b", "c\\d", "q");
    assert_eq!(
        encode(&rec),
        "{\"id\":\"a\\\"b\",\"base\":\"c\\\\d\",\"quote\":\"q\"}"
    );
}

#[test]
fn round_trip_plain() {
    let rec = record("USD/BTC", "USD", "BTC");
    let back = decode(encode(&rec).as_str()).expect("canonical encoding must decode");
    assert_eq!(back, rec);
}

#[test]
fn round_trip_escaped_characters() {
    let rec = record("a\"b", "c\\d", "e\"\\f");
    let back = decode(encode(&rec).as_str()).expect("escaped encoding must decode");
    assert_eq!(back, rec);
}

#[test]
fn round_trip_empty_identifiers() {
    let rec = record("", "", "");
    let payload = encode(&rec);
    assert_eq!(payload, "{\"id\":\"\",\"base\":\"\",\"quote\":\"\"}");
    let back = decode(payload.as_str()).expect("empty identifiers must decode");
    assert_eq!(back, rec);
}

#[test]
fn round_trip_unicode_identifiers() {
    let rec = record("\u{20ac}/\u{00a5}", "\u{20ac}", "\u{00a5}");
    let back = decode(encode(&rec).as_str()).expect("unicode identifiers must decode");
    assert_eq!(back, rec);
}

#[test]
fn decode_rejects_garbage() {
    let e = decode("not a record").unwrap_err();
    match e {
        DcaError::JsonDeserializationFailure(payload, target, _) => {
            assert_eq!(payload, "not a record");
            assert_eq!(target, "MarketRecord");
        }
        other => panic!("unexpected error: {:?}", other),
    }
}

#[test]
fn decode_rejects_truncated_payload() {
    assert!(decode("{\"id\":\"USD/BTC\",\"base\":\"USD\"").is_err());
    assert!(decode("").is_err());
    assert!(decode("{\"id\":\"x\",\"base\":\"y\",\"quote\":\"z\"").is_err());
}

#[test]
fn decode_rejects_reordered_fields() {
    assert!(decode("{\"base\":\"USD\",\"id\":\"USD/BTC\",\"quote\":\"BTC\"}").is_err());
}

#[test]
fn decode_rejects_trailing_input() {
    assert!(decode("{\"id\":\"x\",\"base\":\"y\",\"quote\":\"z\"} ").is_err());
}

#[test]
fn decode_rejects_bad_escape() {
    assert!(decode("{\"id\":\"a\\nb\",\"base\":\"y\",\"quote\":\"z\"}").is_err());
}
