use dcapal_market_data::entity::{Asset, Market, MarketRecord};
use dcapal_market_data::error::DcaError;
use dcapal_market_data::resolve::{missing_asset_note, resolve_batch, resolve_market};
use dcapal_market_data::store::MarketStore;

fn record(id: &str, base: &str, quote: &str) -> MarketRecord {
    MarketRecord { id: id.to_string(), base: base.to_string(), quote: quote.to_string() }
}

fn asset(id: &str) -> Asset {
    Asset { id: id.to_string() }
}

#[test]
fn resolve_hydrates_when_both_assets_present() {
    let r = resolve_market(
        record("USD/BTC", "USD", "BTC"),
        Ok(Some(asset("USD"))),
        Ok(Some(asset("BTC"))),
    );
    let m = r.expect("no lookup failed").expect("both assets present");
    assert_eq!(m.id, "USD/BTC");
    assert_eq!(m.base.id, "USD");
    assert_eq!(m.quote.id, "BTC");
}

#[test]
fn resolution_miss_is_not_fatal() {
    let r = resolve_market(record("USD/BTC", "USD", "BTC"), Ok(None), Ok(Some(asset("BTC"))));
    assert_eq!(r, Ok(None));
    let note = missing_asset_note(&record("USD/BTC", "USD", "BTC"), true);
    assert_eq!(note, "market 'USD/BTC': base asset not found: USD");
}

#[test]
fn missing_quote_is_not_fatal_either() {
    let r = resolve_market(record("USD/BTC", "USD", "BTC"), Ok(Some(asset("USD"))), Ok(None));
    assert_eq!(r, Ok(None));
    let note = missing_asset_note(&record("USD/BTC", "USD", "BTC"), false);
    assert_eq!(note, "market 'USD/BTC': quote asset not found: BTC");
}

#[test]
fn lookup_failure_is_fatal_for_single_resolution() {
    let r = resolve_market(
        record("USD/BTC", "USD", "BTC"),
        Err(DcaError::Generic("asset repository unreachable".to_string())),
        Ok(Some(asset("BTC"))),
    );
    assert_eq!(
        r,
        Err(DcaError::Generic("asset repository unreachable".to_string()))
    );
}

#[test]
fn batch_drops_record_whose_resolution_fails() {
    let records = vec![
        record("A/B", "A", "B"),
        record("C/D", "C", "D"),
        record("E/F", "E", "F"),
    ];
    let lookups = vec![
        (Ok(Some(asset("A"))), Ok(Some(asset("B")))),
        (
            Err(DcaError::Generic("boom".to_string())),
            Ok(Some(asset("D"))),
        ),
        (Ok(Some(asset("E"))), Ok(Some(asset("F")))),
    ];
    let out = resolve_batch(records, lookups);
    let ids: Vec<&str> = out.iter().map(|m| m.id.as_str()).collect();
    assert_eq!(ids, vec!["A/B", "E/F"]);
}

#[test]
fn batch_drops_record_whose_asset_is_missing() {
    let records = vec![record("A/B", "A", "B"), record("C/D", "C", "D")];
    let lookups = vec![
        (Ok(None), Ok(Some(asset("B")))),
        (Ok(Some(asset("C"))), Ok(Some(asset("D")))),
    ];
    let out = resolve_batch(records, lookups);
    let ids: Vec<&str> = out.iter().map(|m| m.id.as_str()).collect();
    assert_eq!(ids, vec!["C/D"]);
}

#[test]
fn batch_of_nothing_is_empty() {
    let out = resolve_batch(vec![], vec![]);
    assert!(out.is_empty());
}

#[test]
fn end_to_end_store_and_resolve() {
    let mut store = MarketStore::new();
    let stored = Market::new("USD/BTC".to_string(), asset("USD"), asset("BTC"));
    store.store(&stored).unwrap();

    let rec = store
        .find_by_id(&"USD/BTC".to_string())
        .expect("single get must succeed")
        .expect("stored market must be found");
    let resolved = resolve_market(rec, Ok(Some(asset("USD"))), Ok(Some(asset("BTC"))))
        .expect("no lookup failed")
        .expect("both assets resolve");
    assert_eq!(resolved, Market::new("USD/BTC".to_string(), asset("USD"), asset("BTC")));
}
