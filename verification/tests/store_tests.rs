use dcapal_market_data::entity::{Asset, Market, MarketRecord};
use dcapal_market_data::error::DcaError;
use dcapal_market_data::store::{decode_field, decode_fields, decode_values, MarketStore};

fn market(id: &str, base: &str, quote: &str) -> Market {
    Market::new(
        id.to_string(),
        Asset { id: base.to_string() },
        Asset { id: quote.to_string() },
    )
}

#[test]
fn store_then_find_returns_record() {
    let mut store = MarketStore::new();
    let m = market("USD/BTC", "USD", "BTC");
    assert_eq!(store.store(&m), Ok(true));
    let found = store.find_by_id(&"USD/BTC".to_string()).expect("single get must succeed");
    let rec = found.expect("stored market must be found");
    assert_eq!(rec.id, "USD/BTC");
    assert_eq!(rec.base, "USD");
    assert_eq!(rec.quote, "BTC");
}

#[test]
fn find_absent_is_none() {
    let store = MarketStore::new();
    assert_eq!(store.find_by_id(&"EUR/USD".to_string()), Ok(None));
}

#[test]
fn store_twice_is_idempotent() {
    let mut store = MarketStore::new();
    let m = market("USD/BTC", "USD", "BTC");
    assert_eq!(store.store(&m), Ok(true));
    let first = store.find_by_id(&"USD/BTC".to_string()).unwrap();
    assert_eq!(store.store(&m), Ok(false));
    let second = store.find_by_id(&"USD/BTC".to_string()).unwrap();
    assert_eq!(first, second);
}

#[test]
fn store_overwrites_prior_value() {
    let mut store = MarketStore::new();
    store.store(&market("USD/BTC", "USD", "BTC")).unwrap();
    store.store(&market("USD/BTC", "USD", "ETH")).unwrap();
    let rec = store.find_by_id(&"USD/BTC".to_string()).unwrap().unwrap();
    assert_eq!(rec.quote, "ETH");
}

#[test]
fn single_get_hard_failure_on_corrupt_payload() {
    let mut store = MarketStore::new();
    store.put_raw_field(&"USD/BTC".to_string(), &"corrupt".to_string());
    let r = store.find_by_id(&"USD/BTC".to_string());
    match r {
        Err(DcaError::JsonDeserializationFailure(payload, _, _)) => {
            assert_eq!(payload, "corrupt");
        }
        other => panic!("expected a decode failure, got {:?}", other),
    }
}

#[test]
fn bulk_soft_failure_keeps_positions() {
    let mut store = MarketStore::new();
    store.store(&market("USD/BTC", "USD", "BTC")).unwrap();
    store.store(&market("EUR/USD", "EUR", "USD")).unwrap();
    store.put_raw_field(&"BAD/ONE".to_string(), &"corrupt".to_string());
    let ids = vec![
        "USD/BTC".to_string(),
        "BAD/ONE".to_string(),
        "NO/SUCH".to_string(),
        "EUR/USD".to_string(),
    ];
    let out = store.find_by_ids(&ids).expect("bulk get must succeed");
    assert_eq!(out.len(), 4);
    assert_eq!(out[0].as_ref().unwrap().id, "USD/BTC");
    assert_eq!(out[1], None);
    assert_eq!(out[2], None);
    assert_eq!(out[3].as_ref().unwrap().id, "EUR/USD");
}

#[test]
fn load_all_drops_malformed_records() {
    let mut store = MarketStore::new();
    store.store(&market("USD/BTC", "USD", "BTC")).unwrap();
    store.put_raw_field(&"BAD/ONE".to_string(), &"corrupt".to_string());
    store.store(&market("EUR/USD", "EUR", "USD")).unwrap();
    let out = store.load_all().expect("scan must succeed");
    let ids: Vec<&str> = out.iter().map(|r| r.id.as_str()).collect();
    assert_eq!(ids, vec!["USD/BTC", "EUR/USD"]);
}

#[test]
fn decode_field_policy() {
    assert_eq!(decode_field(None), Ok(None));
    let good = "{\"id\":\"a\",\"base\":\"b\",\"quote\":\"c\"}".to_string();
    let rec = decode_field(Some(good)).unwrap().unwrap();
    assert_eq!(rec, MarketRecord {
        id: "a".to_string(),
        base: "b".to_string(),
        quote: "c".to_string(),
    });
    assert!(decode_field(Some("corrupt".to_string())).is_err());
}

#[test]
fn decode_fields_policy() {
    let good = "{\"id\":\"a\",\"base\":\"b\",\"quote\":\"c\"}".to_string();
    let out = decode_fields(&vec![Some(good), Some("corrupt".to_string()), None]);
    assert_eq!(out.len(), 3);
    assert!(out[0].is_some());
    assert_eq!(out[1], None);
    assert_eq!(out[2], None);
}

#[test]
fn decode_values_policy() {
    let good_a = "{\"id\":\"a\",\"base\":\"b\",\"quote\":\"c\"}".to_string();
    let good_d = "{\"id\":\"d\",\"base\":\"e\",\"quote\":\"f\"}".to_string();
    let out = decode_values(&vec![good_a, "corrupt".to_string(), good_d]);
    let ids: Vec<&str> = out.iter().map(|r| r.id.as_str()).collect();
    assert_eq!(ids, vec!["a", "d"]);
}
