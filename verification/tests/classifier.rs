use managed_cache::hydration::{CacheLookupSuccess, StoreResult};

#[test]
fn classify_valid_is_hit() {
    assert_eq!(
        CacheLookupSuccess::new(StoreResult::Valid, false, 7u64),
        CacheLookupSuccess::Hit(7)
    );
    assert_eq!(
        CacheLookupSuccess::new(StoreResult::Valid, true, 7u64),
        CacheLookupSuccess::Hit(7)
    );
}

#[test]
fn classify_not_found_is_miss() {
    assert_eq!(
        CacheLookupSuccess::new(StoreResult::NotFound, true, String::from("v")),
        CacheLookupSuccess::Miss(String::from("v"))
    );
}

#[test]
fn classify_invalid_hydrated_is_refresh() {
    assert_eq!(
        CacheLookupSuccess::new(StoreResult::Invalid, true, 3u64),
        CacheLookupSuccess::Refresh(3)
    );
}

#[test]
fn classify_invalid_not_hydrated_is_stale() {
    assert_eq!(
        CacheLookupSuccess::new(StoreResult::Invalid, false, 3u64),
        CacheLookupSuccess::Stale(3)
    );
}
