use social_feed::post_store::{PostError, PostStore};
use social_feed::relationship::RelationshipStore;
use social_feed::StoreFault;

#[test]
fn create_assigns_fresh_ids_and_timestamps() {
    let mut posts = PostStore::new();
    let a = posts.create(1, b"first".to_vec(), 100).unwrap();
    let b = posts.create(1, b"second".to_vec(), 200).unwrap();
    assert_ne!(a.id, b.id);
    assert_eq!(a.author, 1);
    assert_eq!(a.created_at, 100);
    assert_eq!(a.updated_at, 100);
    assert_eq!(a.text, b"first".to_vec());
}

#[test]
fn get_returns_stored_post() {
    let mut posts = PostStore::new();
    let p = posts.create(4, b"hello".to_vec(), 50).unwrap();
    let got = posts.get(p.id).unwrap();
    assert_eq!(got.id, p.id);
    assert_eq!(got.author, 4);
    assert_eq!(got.text, b"hello".to_vec());
}

#[test]
fn get_missing_is_not_found() {
    let posts = PostStore::new();
    assert!(matches!(posts.get(99), Err(PostError::NotFound)));
}

#[test]
fn update_rewrites_text_and_update_time_only() {
    let mut posts = PostStore::new();
    let p = posts.create(4, b"old".to_vec(), 50).unwrap();
    let q = posts.update(4, p.id, b"new".to_vec(), 60).unwrap();
    assert_eq!(q.id, p.id);
    assert_eq!(q.text, b"new".to_vec());
    assert_eq!(q.created_at, 50);
    assert_eq!(q.updated_at, 60);
    let got = posts.get(p.id).unwrap();
    assert_eq!(got.text, b"new".to_vec());
}

#[test]
fn foreign_post_and_missing_post_fail_alike_on_update() {
    // Author mismatch is indistinguishable from a missing post.
    let mut posts = PostStore::new();
    let p = posts.create(4, b"mine".to_vec(), 50).unwrap();
    let foreign = posts.update(5, p.id, b"theirs".to_vec(), 60);
    let missing = posts.update(4, p.id + 1000, b"void".to_vec(), 60);
    assert_eq!(foreign.as_ref().err(), missing.as_ref().err());
    assert!(matches!(foreign, Err(PostError::NotUpdated)));
    assert!(matches!(missing, Err(PostError::NotUpdated)));
    assert_eq!(posts.get(p.id).unwrap().text, b"mine".to_vec());
}

#[test]
fn foreign_post_and_missing_post_fail_alike_on_delete() {
    let mut posts = PostStore::new();
    let p = posts.create(4, b"mine".to_vec(), 50).unwrap();
    let foreign = posts.delete(5, p.id);
    let missing = posts.delete(4, p.id + 1000);
    assert_eq!(foreign, Err(PostError::NotUpdated));
    assert_eq!(missing, Err(PostError::NotUpdated));
    assert!(posts.get(p.id).is_ok());
}

#[test]
fn delete_removes_the_post() {
    let mut posts = PostStore::new();
    let p = posts.create(4, b"gone soon".to_vec(), 50).unwrap();
    posts.delete(4, p.id).unwrap();
    assert!(matches!(posts.get(p.id), Err(PostError::NotFound)));
}

#[test]
fn feed_page_orders_by_creation_descending() {
    let mut posts = PostStore::new();
    let mut rels = RelationshipStore::new();
    rels.add_friend(2, 1, 1).unwrap();
    rels.add_friend(1, 2, 2).unwrap();
    let early = posts.create(1, b"early".to_vec(), 100).unwrap();
    let late = posts.create(1, b"late".to_vec(), 300).unwrap();
    let mid = posts.create(1, b"mid".to_vec(), 200).unwrap();
    let page = posts.feed_page(&rels, 2, None, None).unwrap();
    let ids: Vec<u64> = page.iter().map(|p| p.id).collect();
    assert_eq!(ids, vec![late.id, mid.id, early.id]);
}

#[test]
fn feed_page_breaks_creation_ties_by_newer_id() {
    let mut posts = PostStore::new();
    let mut rels = RelationshipStore::new();
    rels.add_friend(2, 1, 1).unwrap();
    rels.add_friend(1, 2, 2).unwrap();
    let a = posts.create(1, b"a".to_vec(), 100).unwrap();
    let b = posts.create(1, b"b".to_vec(), 100).unwrap();
    let page = posts.feed_page(&rels, 2, None, None).unwrap();
    let ids: Vec<u64> = page.iter().map(|p| p.id).collect();
    assert!(b.id > a.id);
    assert_eq!(ids, vec![b.id, a.id]);
}

#[test]
fn feed_page_excludes_own_and_unrelated_posts() {
    let mut posts = PostStore::new();
    let mut rels = RelationshipStore::new();
    rels.add_friend(2, 1, 1).unwrap();
    rels.add_friend(1, 2, 2).unwrap();
    posts.create(2, b"own".to_vec(), 100).unwrap();
    posts.create(3, b"stranger".to_vec(), 200).unwrap();
    let visible = posts.create(1, b"friend".to_vec(), 300).unwrap();
    let page = posts.feed_page(&rels, 2, None, None).unwrap();
    assert_eq!(page.len(), 1);
    assert_eq!(page[0].id, visible.id);
}

#[test]
fn feed_page_applies_limit_and_offset() {
    let mut posts = PostStore::new();
    let mut rels = RelationshipStore::new();
    rels.add_friend(2, 1, 1).unwrap();
    rels.add_friend(1, 2, 2).unwrap();
    let mut ids: Vec<u64> = Vec::new();
    for k in 0..5u64 {
        ids.push(posts.create(1, vec![k as u8], 100 + k).unwrap().id);
    }
    ids.reverse(); // feed order: newest first
    let page = posts.feed_page(&rels, 2, Some(2), Some(1)).unwrap();
    let got: Vec<u64> = page.iter().map(|p| p.id).collect();
    assert_eq!(got, vec![ids[1], ids[2]]);
    let empty = posts.feed_page(&rels, 2, Some(0), None).unwrap();
    assert!(empty.is_empty());
    let beyond = posts.feed_page(&rels, 2, Some(10), Some(100)).unwrap();
    assert!(beyond.is_empty());
}

#[test]
fn feed_page_defaults_to_a_hundred_entries() {
    let mut posts = PostStore::new();
    let mut rels = RelationshipStore::new();
    rels.add_friend(2, 1, 1).unwrap();
    rels.add_friend(1, 2, 2).unwrap();
    for k in 0..105u64 {
        posts.create(1, b"x".to_vec(), 1000 + k).unwrap();
    }
    let page = posts.feed_page(&rels, 2, None, None).unwrap();
    assert_eq!(page.len(), 100);
    assert_eq!(page[0].created_at, 1104);
}

#[test]
fn post_store_faults_propagate() {
    let mut posts = PostStore::new();
    let rels = RelationshipStore::new();
    let p = posts.create(1, b"x".to_vec(), 1).unwrap();
    posts.fault = Some(StoreFault::Storage);
    assert_eq!(posts.create(1, b"y".to_vec(), 2).map(|q| q.id), Err(PostError::Storage));
    assert_eq!(posts.update(1, p.id, b"z".to_vec(), 3).map(|q| q.id), Err(PostError::Storage));
    assert_eq!(posts.delete(1, p.id), Err(PostError::Storage));
    assert_eq!(posts.get(p.id).map(|q| q.id), Err(PostError::Storage));
    assert_eq!(posts.feed_page(&rels, 2, None, None).map(|v| v.len()), Err(PostError::Storage));
    posts.fault = Some(StoreFault::Pool);
    assert_eq!(posts.get(p.id).map(|q| q.id), Err(PostError::Pool));
    posts.fault = None;
    assert_eq!(posts.get(p.id).unwrap().id, p.id);
}

#[test]
fn feed_page_fails_when_relationship_store_is_down() {
    let posts = PostStore::new();
    let mut rels = RelationshipStore::new();
    rels.fault = Some(StoreFault::Pool);
    assert_eq!(posts.feed_page(&rels, 2, None, None).map(|v| v.len()), Err(PostError::Pool));
}
