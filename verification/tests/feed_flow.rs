use social_feed::feed_service::FeedService;
use social_feed::post_store::PostError;
use social_feed::StoreFault;

fn make_mutual_friends(svc: &mut FeedService, a: u64, b: u64, t: u64) {
    svc.friends.add_friend(a, b, t).unwrap();
    svc.friends.add_friend(b, a, t + 1).unwrap();
}

#[test]
fn created_post_reads_back() {
    // Scenario: create then point-read.
    let mut svc = FeedService::new();
    let p1 = svc.create(1, b"hello".to_vec(), 100).unwrap();
    let got = svc.get(p1, 101).unwrap();
    assert_eq!(got.text, b"hello".to_vec());
    assert_eq!(got.author, 1);
}

#[test]
fn fresh_post_leads_the_follower_feed() {
    // Scenario: the viewer follows the author; a new post arrives ahead of
    // older ones, in descending creation order.
    let mut svc = FeedService::new();
    make_mutual_friends(&mut svc, 1, 2, 1);
    let old_id = svc.create(1, b"older".to_vec(), 100).unwrap();
    let p2 = svc.create(1, b"shiny".to_vec(), 200).unwrap();
    let page = svc.feed(2, Some(10), Some(0), 300).unwrap();
    let ids: Vec<u64> = page.iter().map(|p| p.id).collect();
    assert_eq!(ids, vec![p2, old_id]);
}

#[test]
fn feed_survives_cache_loss() {
    // Scenario: the cache store dies mid-test; the page still comes back
    // correct from the relational store alone.
    let mut svc = FeedService::new();
    make_mutual_friends(&mut svc, 1, 2, 1);
    let a = svc.create(1, b"a".to_vec(), 100).unwrap();
    svc.feed(2, Some(10), Some(0), 150).unwrap(); // warm the cache
    svc.cache.available = false; // the cache store is killed
    let b = svc.create(1, b"b".to_vec(), 200).unwrap();
    let page = svc.feed(2, Some(10), Some(0), 250).unwrap();
    let ids: Vec<u64> = page.iter().map(|p| p.id).collect();
    assert_eq!(ids, vec![b, a]);
}

#[test]
fn point_read_degrades_to_store_when_cache_is_down() {
    // With the cache entirely unavailable, get equals what the store alone
    // computes, and the only error is the store's own.
    let mut svc = FeedService::new();
    let p1 = svc.create(1, b"body".to_vec(), 100).unwrap();
    svc.cache.available = false;
    let got = svc.get(p1, 101).unwrap();
    assert_eq!(got.text, b"body".to_vec());
    assert!(matches!(svc.get(p1 + 77, 102), Err(PostError::NotFound)));
}

#[test]
fn fanout_populates_follower_indexes() {
    // Every queried follower's ordered index receives the new post id.
    let mut svc = FeedService::new();
    make_mutual_friends(&mut svc, 1, 2, 1);
    make_mutual_friends(&mut svc, 1, 3, 3);
    let pid = svc.create(1, b"to everyone".to_vec(), 100).unwrap();
    for viewer in [2u64, 3] {
        assert!(
            svc.cache.index.iter().any(|row| row.viewer == viewer && row.post_id == pid
                && row.score == 100)
        );
    }
    assert!(svc.cache.bodies.iter().any(|b| b.post_id == pid));
}

#[test]
fn warm_feed_serves_fanned_out_post() {
    // Eventual consistency, branch (a): with a live marker, the next feed
    // call serves the fanned-out post from the cache.
    let mut svc = FeedService::new();
    make_mutual_friends(&mut svc, 1, 2, 1);
    svc.create(1, b"first".to_vec(), 100).unwrap();
    svc.feed(2, Some(10), Some(0), 150).unwrap(); // materializes the marker
    let pid = svc.create(1, b"second".to_vec(), 200).unwrap();
    let page = svc.feed(2, Some(10), Some(0), 250).unwrap();
    assert_eq!(page[0].id, pid);
    assert_eq!(page[0].text, b"second".to_vec());
    assert_eq!(page.len(), 2);
}

#[test]
fn expired_marker_rebuild_recovers_missed_fanout() {
    // Eventual consistency, branch (b): a follower the fan-out missed gets
    // the post once the marker expires and the read path rebuilds.
    let mut svc = FeedService::new();
    make_mutual_friends(&mut svc, 1, 2, 1);
    svc.create(1, b"first".to_vec(), 100).unwrap();
    svc.feed(2, Some(10), Some(0), 150).unwrap(); // marker set, expires at 3750
    svc.cache.available = false;
    let pid = svc.create(1, b"missed".to_vec(), 200).unwrap(); // fan-out dropped
    svc.cache.available = true;
    // Before expiry the stale index would not hold the post id.
    assert!(!svc.cache.index.iter().any(|row| row.viewer == 2 && row.post_id == pid));
    // After the marker expires, the read falls back and rebuilds.
    let page = svc.feed(2, Some(10), Some(0), 4000).unwrap();
    assert_eq!(page[0].id, pid);
    assert!(svc.cache.index.iter().any(|row| row.viewer == 2 && row.post_id == pid));
}

#[test]
fn unusable_cache_page_falls_back_and_repopulates() {
    // A live marker whose hydration yields nothing usable falls back to
    // the store and repopulates.
    let mut svc = FeedService::new();
    make_mutual_friends(&mut svc, 1, 2, 1);
    let pid = svc.create(1, b"body".to_vec(), 100).unwrap();
    svc.feed(2, Some(10), Some(0), 150).unwrap();
    svc.cache.remove_body(pid); // ids remain, bodies gone
    let page = svc.feed(2, Some(10), Some(0), 200).unwrap();
    assert_eq!(page.len(), 1);
    assert_eq!(page[0].id, pid);
    assert!(svc.cache.bodies.iter().any(|b| b.post_id == pid));
}

#[test]
fn update_refreshes_cached_body() {
    let mut svc = FeedService::new();
    let pid = svc.create(1, b"before".to_vec(), 100).unwrap();
    svc.update(1, pid, b"after".to_vec(), 150).unwrap();
    // The cached body was refreshed, so even a cache hit serves new text.
    let got = svc.get(pid, 160).unwrap();
    assert_eq!(got.text, b"after".to_vec());
    assert_eq!(got.updated_at, 150);
    assert_eq!(got.created_at, 100);
}

#[test]
fn delete_drops_cached_body_and_post() {
    let mut svc = FeedService::new();
    let pid = svc.create(1, b"temp".to_vec(), 100).unwrap();
    svc.get(pid, 110).unwrap(); // cache it
    svc.delete(1, pid).unwrap();
    assert!(!svc.cache.bodies.iter().any(|b| b.post_id == pid));
    assert!(matches!(svc.get(pid, 120), Err(PostError::NotFound)));
}

#[test]
fn author_scoped_mutation_through_service() {
    let mut svc = FeedService::new();
    let pid = svc.create(1, b"mine".to_vec(), 100).unwrap();
    assert_eq!(svc.update(2, pid, b"grab".to_vec(), 110), Err(PostError::NotUpdated));
    assert_eq!(svc.delete(2, pid), Err(PostError::NotUpdated));
    assert_eq!(svc.update(1, pid + 500, b"void".to_vec(), 110), Err(PostError::NotUpdated));
    assert_eq!(svc.get(pid, 120).unwrap().text, b"mine".to_vec());
}

#[test]
fn store_errors_propagate_through_service() {
    let mut svc = FeedService::new();
    let pid = svc.create(1, b"x".to_vec(), 100).unwrap();
    svc.posts.fault = Some(StoreFault::Pool);
    assert_eq!(svc.create(1, b"y".to_vec(), 110), Err(PostError::Pool));
    assert_eq!(svc.update(1, pid, b"z".to_vec(), 120), Err(PostError::Pool));
    assert_eq!(svc.delete(1, pid), Err(PostError::Pool));
    // feed with a cold cache hits the store and fails too
    svc.cache.markers.clear();
    assert_eq!(svc.feed(2, None, None, 130).map(|v| v.len()), Err(PostError::Pool));
}

#[test]
fn garbled_cache_entry_forces_recompute() {
    // A cached body that does not deserialize counts as a miss: the store
    // answers and the cache is repopulated.
    let mut svc = FeedService::new();
    let pid = svc.create(1, b"good".to_vec(), 100).unwrap();
    for b in svc.cache.bodies.iter_mut() {
        if b.post_id == pid {
            b.bytes = b"xx".to_vec(); // too short for the header
        }
    }
    let got = svc.get(pid, 110).unwrap();
    assert_eq!(got.text, b"good".to_vec());
    // repopulated: the next read hits a healthy cached body
    let again = svc.get(pid, 120).unwrap();
    assert_eq!(again.text, b"good".to_vec());
    assert!(svc.cache.bodies.iter().any(|b| b.post_id == pid && b.bytes.len() > 2));
}

#[test]
fn follower_query_failure_only_skips_fanout() {
    let mut svc = FeedService::new();
    make_mutual_friends(&mut svc, 1, 2, 1);
    svc.friends.fault = Some(StoreFault::Storage);
    let pid = svc.create(1, b"quiet".to_vec(), 100).unwrap();
    // the post exists, but no follower index was touched
    assert_eq!(svc.get(pid, 110).unwrap().text, b"quiet".to_vec());
    assert!(svc.cache.index.is_empty());
    svc.friends.fault = None;
    // the read path still recovers it from the store
    let page = svc.feed(2, None, None, 120).unwrap();
    assert_eq!(page.len(), 1);
    assert_eq!(page[0].id, pid);
}

#[test]
fn empty_feed_for_a_loner() {
    let mut svc = FeedService::new();
    svc.create(1, b"unseen".to_vec(), 100).unwrap();
    let page = svc.feed(9, None, None, 200).unwrap();
    assert!(page.is_empty());
}

#[test]
fn blocked_author_leaves_the_feed() {
    let mut svc = FeedService::new();
    make_mutual_friends(&mut svc, 1, 2, 1);
    svc.create(1, b"visible".to_vec(), 100).unwrap();
    assert_eq!(svc.feed(2, None, None, 150).unwrap().len(), 1);
    svc.friends.delete_friend(2, 1, true, 160).unwrap(); // u2 blocks u1
    // The stale marker still serves the old cache page until it expires;
    // after expiry the rebuild reflects the blocked edge.
    let page = svc.feed(2, None, None, 5000).unwrap();
    assert!(page.is_empty());
}
