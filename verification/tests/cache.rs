use soldr::cache::OriginCache;
use soldr::error::AppError;
use soldr::error::StoreError;
use soldr::origin::Origin;

fn origin(domain: &str, origin_uri: &str) -> Origin {
    Origin { domain: domain.to_string(), origin_uri: origin_uri.to_string() }
}

#[test]
fn initial_state_absent() {
    let cache = OriginCache::new();
    assert_eq!(cache.get("a.com"), None);
    assert_eq!(cache.get("b.com"), None);
    assert_eq!(cache.get(""), None);
}

#[test]
fn load_correctness() {
    let mut cache = OriginCache::new();
    let records = vec![origin("a.com", "http://a.internal:8080"), origin("b.com", "http://b.internal:8080")];
    assert!(cache.refresh(Ok(records)).is_ok());
    assert_eq!(cache.get("a.com"), Some(origin("a.com", "http://a.internal:8080")));
    assert_eq!(cache.get("b.com"), Some(origin("b.com", "http://b.internal:8080")));
    assert_eq!(cache.get("c.com"), None);
}

#[test]
fn lookup_is_case_sensitive() {
    let mut cache = OriginCache::new();
    assert!(cache.refresh(Ok(vec![origin("a.com", "http://a.internal")])).is_ok());
    assert_eq!(cache.get("A.com"), None);
    assert_eq!(cache.get("a.com "), None);
}

#[test]
fn atomic_replacement() {
    let mut cache = OriginCache::new();
    assert!(cache.refresh(Ok(vec![origin("a.com", "http://a1"), origin("b.com", "http://b1")])).is_ok());
    assert!(cache.refresh(Ok(vec![origin("b.com", "http://b2"), origin("c.com", "http://c2")])).is_ok());
    assert_eq!(cache.get("a.com"), None);
    assert_eq!(cache.get("b.com"), Some(origin("b.com", "http://b2")));
    assert_eq!(cache.get("c.com"), Some(origin("c.com", "http://c2")));
}

#[test]
fn failure_isolation() {
    let mut cache = OriginCache::new();
    assert!(cache.refresh(Ok(vec![origin("a.com", "http://a1")])).is_ok());
    let failed = cache.refresh(Err(StoreError::Connectivity));
    assert_eq!(failed, Err(AppError::Store(StoreError::Connectivity)));
    assert_eq!(cache.get("a.com"), Some(origin("a.com", "http://a1")));
    assert_eq!(cache.get("b.com"), None);
}

#[test]
fn failure_on_empty_cache_stays_empty() {
    let mut cache = OriginCache::new();
    let failed = cache.refresh(Err(StoreError::Malformed));
    assert_eq!(failed, Err(AppError::Store(StoreError::Malformed)));
    assert_eq!(cache.get("a.com"), None);
}

#[test]
fn refresh_surfaces_each_store_error() {
    let mut cache = OriginCache::new();
    assert_eq!(
        cache.refresh(Err(StoreError::Connectivity)),
        Err(AppError::Store(StoreError::Connectivity))
    );
    assert_eq!(
        cache.refresh(Err(StoreError::Malformed)),
        Err(AppError::Store(StoreError::Malformed))
    );
    assert_eq!(cache.refresh(Err(StoreError::Timeout)), Err(AppError::Store(StoreError::Timeout)));
}

#[test]
fn duplicate_domain_last_wins() {
    let mut cache = OriginCache::new();
    let records = vec![origin("dup.com", "http://first"), origin("dup.com", "http://second")];
    assert!(cache.refresh(Ok(records)).is_ok());
    assert_eq!(cache.get("dup.com"), Some(origin("dup.com", "http://second")));
    // Stable across repeated refreshes with the same input ordering.
    let records = vec![origin("dup.com", "http://first"), origin("dup.com", "http://second")];
    assert!(cache.refresh(Ok(records)).is_ok());
    assert_eq!(cache.get("dup.com"), Some(origin("dup.com", "http://second")));
}

#[test]
fn duplicate_domain_among_others() {
    let mut cache = OriginCache::new();
    let records = vec![
        origin("a.com", "http://a1"),
        origin("dup.com", "http://first"),
        origin("b.com", "http://b1"),
        origin("dup.com", "http://second"),
    ];
    assert!(cache.refresh(Ok(records)).is_ok());
    assert_eq!(cache.get("dup.com"), Some(origin("dup.com", "http://second")));
    assert_eq!(cache.get("a.com"), Some(origin("a.com", "http://a1")));
    assert_eq!(cache.get("b.com"), Some(origin("b.com", "http://b1")));
}

#[test]
fn empty_store_clears() {
    let mut cache = OriginCache::new();
    assert!(cache.refresh(Ok(vec![origin("a.com", "http://a1")])).is_ok());
    assert!(cache.refresh(Ok(Vec::new())).is_ok());
    assert_eq!(cache.get("a.com"), None);
    assert_eq!(cache.get("b.com"), None);
}

#[test]
fn from_records_builds_mapping() {
    let cache = OriginCache::from_records(vec![origin("a.com", "http://a1")]);
    assert_eq!(cache.get("a.com"), Some(origin("a.com", "http://a1")));
    assert_eq!(cache.get("b.com"), None);
}

#[test]
fn lookup_returns_owned_copy() {
    let mut cache = OriginCache::new();
    assert!(cache.refresh(Ok(vec![origin("a.com", "http://a1")])).is_ok());
    let copy = cache.get("a.com").unwrap();
    assert!(cache.refresh(Ok(vec![origin("a.com", "http://a2")])).is_ok());
    // The copy taken before the refresh does not reflect the new generation.
    assert_eq!(copy, origin("a.com", "http://a1"));
    assert_eq!(cache.get("a.com"), Some(origin("a.com", "http://a2")));
}

#[test]
fn clone_copies_every_field() {
    let rec = origin("a.com", "http://a1");
    let copy = rec.clone();
    assert_eq!(copy, rec);
}
