use social_feed::feed_cache::FeedCache;
use social_feed::post::Post;
use social_feed::CACHE_TTL_SECS;

fn sample_post(id: u64, created_at: u64) -> Post {
    Post { id, author: 1, text: b"body".to_vec(), created_at, updated_at: created_at }
}

#[test]
fn marker_expires_after_one_ttl() {
    let mut cache = FeedCache::new(true);
    cache.mark_materialized(7, 1000);
    assert!(cache.has_materialized(7, 1000));
    assert!(cache.has_materialized(7, 1000 + CACHE_TTL_SECS - 1));
    assert!(!cache.has_materialized(7, 1000 + CACHE_TTL_SECS));
}

#[test]
fn unreachable_cache_reads_as_cold_and_drops_writes() {
    let mut cache = FeedCache::new(false);
    cache.mark_materialized(7, 1000);
    cache.append(7, 1, 10);
    cache.store_body(&sample_post(1, 10), 1000);
    assert!(!cache.has_materialized(7, 1000));
    assert!(cache.markers.is_empty());
    assert!(cache.index.is_empty());
    assert!(cache.bodies.is_empty());
    assert!(cache.page_ids(7, None, None).is_none());
    assert!(cache.hydrate(&vec![1u64], 1000).is_none());
    assert!(cache.read_body(1, 1000).is_none());
}

#[test]
fn page_ids_come_back_newest_first() {
    let mut cache = FeedCache::new(true);
    cache.append(7, 1, 100);
    cache.append(7, 2, 300);
    cache.append(7, 3, 200);
    cache.append(8, 9, 999); // someone else's index
    let ids = cache.page_ids(7, None, None).unwrap();
    assert_eq!(ids, vec![2, 3, 1]);
    let window = cache.page_ids(7, Some(1), Some(1)).unwrap();
    assert_eq!(window, vec![3]);
}

#[test]
fn appending_a_duplicate_id_replaces_its_score() {
    let mut cache = FeedCache::new(true);
    cache.append(7, 1, 100);
    cache.append(7, 2, 200);
    cache.append(7, 1, 300); // same id, new score: moves, never doubles
    let ids = cache.page_ids(7, None, None).unwrap();
    assert_eq!(ids, vec![1, 2]);
    assert_eq!(cache.index.iter().filter(|r| r.viewer == 7 && r.post_id == 1).count(), 1);
}

#[test]
fn equal_scores_order_by_newer_id() {
    let mut cache = FeedCache::new(true);
    cache.append(7, 4, 100);
    cache.append(7, 9, 100);
    let ids = cache.page_ids(7, None, None).unwrap();
    assert_eq!(ids, vec![9, 4]);
}

#[test]
fn hydrate_drops_missing_expired_and_garbled_bodies() {
    let mut cache = FeedCache::new(true);
    let live = sample_post(1, 10);
    cache.store_body(&live, 1000);
    let stale = sample_post(2, 20);
    cache.store_body(&stale, 0); // expires at one TTL
    cache.bodies.push(social_feed::feed_cache::BodyRow {
        post_id: 3,
        bytes: b"shrug".to_vec(), // too short to decode
        expires_at: u64::MAX,
    });
    let got = cache.hydrate(&vec![1u64, 2, 3, 4], CACHE_TTL_SECS + 5).unwrap();
    assert_eq!(got.len(), 1);
    assert_eq!(got[0].id, 1);
    assert_eq!(got[0].text, b"body".to_vec());
}

#[test]
fn stored_body_reads_back_until_expiry() {
    let mut cache = FeedCache::new(true);
    cache.store_body(&sample_post(5, 42), 1000);
    assert!(cache.read_body(5, 1000 + CACHE_TTL_SECS - 1).is_some());
    assert!(cache.read_body(5, 1000 + CACHE_TTL_SECS).is_none());
    cache.remove_body(5);
    assert!(cache.read_body(5, 1001).is_none());
}
