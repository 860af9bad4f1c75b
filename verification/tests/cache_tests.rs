use darken::cache::{ImageCache, CacheEntry};
use darken::image_data::DecodedImage;
use darken::brightness::BrightnessStats;

fn entry(width: u32, height: u32, fill: u8, average: u32) -> CacheEntry {
    let pixels = vec![fill; (4 * width * height) as usize];
    CacheEntry {
        image: DecodedImage::new(width, height, pixels).unwrap(),
        stats: BrightnessStats { average },
    }
}

#[test]
fn get_within_ttl_returns_entry() {
    let mut cache = ImageCache::new(4, 100);
    cache.put(&String::from("a"), entry(1, 1, 7, 1234), 1000);
    let hit = cache.get(&String::from("a"), 1050).unwrap();
    assert_eq!(hit.stats.average, 1234);
    assert_eq!(hit.image.width, 1);
    assert_eq!(hit.image.pixels, vec![7, 7, 7, 7]);
}

#[test]
fn get_at_exact_ttl_is_still_fresh() {
    let mut cache = ImageCache::new(4, 100);
    cache.put(&String::from("a"), entry(1, 1, 0, 1), 1000);
    assert!(cache.get(&String::from("a"), 1100).is_some());
}

#[test]
fn get_past_ttl_misses_and_evicts() {
    let mut cache = ImageCache::new(4, 100);
    cache.put(&String::from("a"), entry(1, 1, 0, 1), 1000);
    assert_eq!(cache.len(), 1);
    assert!(cache.get(&String::from("a"), 1101).is_none());
    assert_eq!(cache.len(), 0);
    assert!(cache.get(&String::from("a"), 1102).is_none());
}

#[test]
fn over_capacity_insert_evicts_least_recently_used() {
    let mut cache = ImageCache::new(2, 1000);
    cache.put(&String::from("a"), entry(1, 1, 1, 1), 10);
    cache.put(&String::from("b"), entry(1, 1, 2, 2), 11);
    cache.put(&String::from("c"), entry(1, 1, 3, 3), 12);
    assert_eq!(cache.len(), 2);
    assert!(cache.get(&String::from("a"), 13).is_none());
    assert!(cache.get(&String::from("b"), 14).is_some());
    assert!(cache.get(&String::from("c"), 15).is_some());
}

#[test]
fn get_touches_recency() {
    let mut cache = ImageCache::new(2, 1000);
    cache.put(&String::from("a"), entry(1, 1, 1, 1), 10);
    cache.put(&String::from("b"), entry(1, 1, 2, 2), 11);
    assert!(cache.get(&String::from("a"), 12).is_some());
    cache.put(&String::from("c"), entry(1, 1, 3, 3), 13);
    assert!(cache.get(&String::from("b"), 14).is_none());
    assert!(cache.get(&String::from("a"), 15).is_some());
    assert!(cache.get(&String::from("c"), 16).is_some());
}

#[test]
fn put_replaces_existing_key() {
    let mut cache = ImageCache::new(2, 1000);
    cache.put(&String::from("a"), entry(1, 1, 1, 100), 10);
    cache.put(&String::from("a"), entry(1, 1, 9, 900), 20);
    assert_eq!(cache.len(), 1);
    let hit = cache.get(&String::from("a"), 21).unwrap();
    assert_eq!(hit.stats.average, 900);
    assert_eq!(hit.image.pixels, vec![9, 9, 9, 9]);
}

#[test]
fn replacement_refreshes_ttl() {
    let mut cache = ImageCache::new(2, 100);
    cache.put(&String::from("a"), entry(1, 1, 1, 1), 0);
    cache.put(&String::from("a"), entry(1, 1, 2, 2), 90);
    assert!(cache.get(&String::from("a"), 150).is_some());
}

#[test]
fn miss_on_absent_key_changes_nothing() {
    let mut cache = ImageCache::new(2, 100);
    cache.put(&String::from("a"), entry(1, 1, 1, 1), 0);
    assert!(cache.get(&String::from("zzz"), 1).is_none());
    assert_eq!(cache.len(), 1);
}
