use dcapal_market_data::api::ASSETS_CACHE_MAX_AGE_SECS;
use dcapal_market_data::error::DcaError;

#[test]
fn messages_follow_the_taxonomy() {
    assert_eq!(DcaError::Generic("boom".to_string()).message(), "boom");
    assert_eq!(
        DcaError::BadRequest("missing quote".to_string()).message(),
        "Bad Request: missing quote"
    );
    assert_eq!(
        DcaError::PriceNotAvailable("USD".to_string(), "BTC".to_string()).message(),
        "Price for market 'USD/BTC' not available"
    );
    assert_eq!(
        DcaError::MarketNotFound("USD/BTC".to_string()).message(),
        "Market 'USD/BTC' not found"
    );
    assert_eq!(
        DcaError::JsonDeserializationFailure(
            "raw".to_string(),
            "MarketRecord".to_string(),
            vec![],
        )
        .message(),
        "Failed to deserialized into MarketRecord: raw"
    );
    assert_eq!(
        DcaError::RedisPool(vec!["pool timed out".to_string()]).message(),
        "Failed to obtain Redis connection"
    );
    assert_eq!(
        DcaError::Redis("connection reset".to_string(), vec![]).message(),
        "connection reset"
    );
    assert_eq!(
        DcaError::Reqwest(vec![]).message(),
        "Third-party API reqwest failed"
    );
}

#[test]
fn describe_renders_the_causal_chain() {
    let e = DcaError::Redis(
        "connection reset".to_string(),
        vec!["io error".to_string(), "peer closed".to_string()],
    );
    assert_eq!(
        e.describe(),
        "connection reset -- Caused by: io error -- Caused by: peer closed"
    );
}

#[test]
fn describe_without_causes_is_just_the_message() {
    let e = DcaError::MarketNotFound("USD/BTC".to_string());
    assert_eq!(e.describe(), "Market 'USD/BTC' not found");
}

#[test]
fn iter_sources_walks_the_chain_in_order() {
    let e = DcaError::StartupFailure(
        "could not start".to_string(),
        vec!["config missing".to_string(), "file not found".to_string()],
    );
    let mut it = e.iter_sources();
    assert_eq!(it.next(), Some("config missing".to_string()));
    assert_eq!(it.next(), Some("file not found".to_string()));
    assert_eq!(it.next(), None);
}

#[test]
fn iter_sources_is_empty_for_plain_variants() {
    let e = DcaError::BadRequest("nope".to_string());
    let mut it = e.iter_sources();
    assert_eq!(it.next(), None);
}

#[test]
fn response_parts_map_the_error_to_the_boundary() {
    let (code, body) = DcaError::BadRequest("missing quote".to_string()).response_parts();
    assert_eq!((code, body.as_str()), (400, "Bad Request: missing quote"));

    let (code, body) =
        DcaError::PriceNotAvailable("USD".to_string(), "BTC".to_string()).response_parts();
    assert_eq!(
        (code, body.as_str()),
        (404, "Price for market 'USD/BTC' not available")
    );

    let (code, body) = DcaError::Generic("boom".to_string()).response_parts();
    assert_eq!((code, body.as_str()), (500, "Internal Server Error"));

    let (code, _) = DcaError::Config(vec!["bad yaml".to_string()]).response_parts();
    assert_eq!(code, 500);
}

#[test]
fn assets_cache_policy_is_five_minutes() {
    assert_eq!(ASSETS_CACHE_MAX_AGE_SECS, 300);
}
