use dmhelper::cache::{ProductCache, TTL_SECONDS};
use dmhelper::json::JsonValue;
use dmhelper::parse::ParseError;
use dmhelper::record::ProductRecord;
use dmhelper::service::{LookupDecision, LookupError, LookupService};

fn record(identifier: &str, cents: u64) -> ProductRecord {
    ProductRecord {
        identifier: identifier.to_string(),
        name: format!("product {identifier}"),
        unit_price_cents: cents,
        image_reference: None,
    }
}

fn obj(entries: Vec<(&str, JsonValue)>) -> JsonValue {
    JsonValue::Obj(entries.into_iter().map(|(k, v)| (k.to_string(), v)).collect())
}

fn payload(gtin: &str, headline: &str, price: &str) -> JsonValue {
    obj(vec![
        ("gtin", JsonValue::Num(gtin.to_string())),
        ("title", obj(vec![("headline", JsonValue::Str(headline.to_string()))])),
        ("price", obj(vec![("price", JsonValue::Str(price.to_string()))])),
        ("images", JsonValue::Arr(vec![])),
    ])
}

#[test]
fn get_after_put_honours_the_freshness_window() {
    let mut cache = ProductCache::new();
    let t = 1_000_000i64;
    cache.put("4008400109609", record("4008400109609", 299), t);
    assert!(cache.get("4008400109609", t).is_some());
    assert!(cache.get("4008400109609", t + 1).is_some());
    assert!(cache.get("4008400109609", t + TTL_SECONDS).is_some());
    assert!(cache.get("4008400109609", t + TTL_SECONDS + 1).is_none());
}

#[test]
fn get_returns_the_stored_record() {
    let mut cache = ProductCache::new();
    cache.put("1", record("1", 150), 0);
    let got = cache.get("1", 10).unwrap();
    assert_eq!(got.identifier, "1");
    assert_eq!(got.unit_price_cents, 150);
}

#[test]
fn get_misses_on_absent_identifier() {
    let cache = ProductCache::new();
    assert!(cache.get("42", 0).is_none());
}

#[test]
fn put_overwrites_an_existing_entry() {
    let mut cache = ProductCache::new();
    cache.put("1", record("1", 100), 0);
    cache.put("1", record("1", 250), 10);
    let got = cache.get("1", 20).unwrap();
    assert_eq!(got.unit_price_cents, 250);
    // The fresh entry also pushed the expiry forward.
    assert!(cache.get("1", 10 + TTL_SECONDS).is_some());
}

#[test]
fn stale_entry_reads_as_a_miss_and_can_be_overwritten() {
    let mut cache = ProductCache::new();
    cache.put("1", record("1", 100), 0);
    assert!(cache.get("1", TTL_SECONDS + 1).is_none());
    cache.put("1", record("1", 300), TTL_SECONDS + 1);
    assert_eq!(cache.get("1", TTL_SECONDS + 2).unwrap().unit_price_cents, 300);
}

#[test]
fn lookup_misses_then_hits_within_the_window() {
    let mut service = LookupService::new();
    let t = 500i64;
    let url = match service.lookup_local("4008400109609", t) {
        LookupDecision::Fetch(url) => url,
        LookupDecision::Hit(_) => panic!("empty cache cannot hit"),
    };
    assert_eq!(url, "https://products.dm.de/product/DE/products/detail/gtin/4008400109609");
    let fetched = service
        .apply_fetch("4008400109609", Ok(payload("4008400109609", "Nivea Creme", "2.99")), t)
        .unwrap();
    assert_eq!(fetched.name, "Nivea Creme");
    // A second lookup inside the window is served from the cache: no URL is
    // handed out, so no second network call happens.
    match service.lookup_local("4008400109609", t + TTL_SECONDS) {
        LookupDecision::Hit(p) => {
            assert_eq!(p.identifier, "4008400109609");
            assert_eq!(p.unit_price_cents, 299);
        },
        LookupDecision::Fetch(_) => panic!("second lookup within the window must hit"),
    }
    // Past the window the entry is stale and a fetch is due again.
    match service.lookup_local("4008400109609", t + TTL_SECONDS + 1) {
        LookupDecision::Fetch(_) => {},
        LookupDecision::Hit(_) => panic!("stale entry must not hit"),
    }
}

#[test]
fn identifiers_are_normalized_on_read_and_write() {
    let mut service = LookupService::new();
    service
        .apply_fetch("  4008400109609 ", Ok(payload("4008400109609", "Nivea Creme", "2.99")), 0)
        .unwrap();
    match service.lookup_local(" 4008400109609  ", 10) {
        LookupDecision::Hit(p) => assert_eq!(p.name, "Nivea Creme"),
        LookupDecision::Fetch(_) => panic!("normalized identifiers must share a cache key"),
    }
    match service.lookup_local("ABC", 10) {
        LookupDecision::Fetch(url) => {
            assert_eq!(url, "https://products.dm.de/product/DE/products/detail/gtin/abc")
        },
        LookupDecision::Hit(_) => panic!("unknown identifier cannot hit"),
    }
}

#[test]
fn transport_failure_surfaces_and_caches_nothing() {
    let mut service = LookupService::new();
    let r = service.apply_fetch("1", Err("connection refused".to_string()), 0);
    match r {
        Err(LookupError::Transport(msg)) => assert_eq!(msg, "connection refused"),
        _ => panic!("a transport failure must surface as LookupError::Transport"),
    }
    match service.lookup_local("1", 1) {
        LookupDecision::Fetch(_) => {},
        LookupDecision::Hit(_) => panic!("a failed fetch must not populate the cache"),
    }
}

#[test]
fn malformed_payload_surfaces_and_caches_nothing() {
    let mut service = LookupService::new();
    let r = service.apply_fetch("1", Ok(obj(vec![])), 0);
    match r {
        Err(LookupError::InvalidResponse(ParseError::UnexpectedShape)) => {},
        _ => panic!("an empty payload must surface as an invalid response"),
    }
    match service.lookup_local("1", 1) {
        LookupDecision::Fetch(_) => {},
        LookupDecision::Hit(_) => panic!("a failed parse must not populate the cache"),
    }
}
