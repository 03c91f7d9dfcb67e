use outside::cache::{cache_file_name, cache_file_name_for};
use std::collections::hash_map::DefaultHasher;
use std::hash::{Hash, Hasher};

#[test]
fn cache_file_names() {
    assert_eq!(cache_file_name("location", 0), "location-0.cache");
    assert_eq!(cache_file_name("location", 0xdead_beef_01), "location-deadbeef01.cache");
    assert_eq!(cache_file_name("locations", u64::MAX), "locations-ffffffffffffffff.cache");
    assert_eq!(cache_file_name("x", 255), format!("x-{:x}.cache", 255u64));
}

#[test]
fn cache_file_names_for_keys() {
    let mut hasher = DefaultHasher::new();
    "London, GB".hash(&mut hasher);
    let expected = format!("location-{:x}.cache", hasher.finish());
    assert_eq!(cache_file_name_for("location", "London, GB"), expected);
    assert_eq!(cache_file_name_for("location", "London, GB"), cache_file_name_for("location", "London, GB"));
    assert_ne!(cache_file_name_for("location", "London, GB"), cache_file_name_for("location", "Paris, FR"));
}
