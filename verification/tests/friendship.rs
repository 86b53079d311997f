use social_feed::relationship::{
    FriendshipCreateResult, FriendshipEndResult, RelationshipError, RelationshipStatus,
    RelationshipStore,
};
use social_feed::StoreFault;

#[test]
fn request_then_reciprocal_accepts() {
    // Scenario: a request and its reciprocal end in one accepted pair,
    // with each party a follower of the other.
    let mut store = RelationshipStore::new();
    let r1 = store.add_friend(1, 2, 10).unwrap();
    assert!(matches!(r1, FriendshipCreateResult::RequestSent));
    let r2 = store.add_friend(2, 1, 11).unwrap();
    assert!(matches!(r2, FriendshipCreateResult::Accepted));
    let followers_of_1 = store.get_follower_ids(1).unwrap();
    let followers_of_2 = store.get_follower_ids(2).unwrap();
    assert_eq!(followers_of_1, vec![2]);
    assert_eq!(followers_of_2, vec![1]);
}

#[test]
fn reciprocal_requests_leave_one_accepted_edge() {
    // Exactly one edge for the pair, never two divergent pending edges.
    let mut store = RelationshipStore::new();
    store.add_friend(7, 9, 1).unwrap();
    store.add_friend(9, 7, 2).unwrap();
    assert_eq!(store.edges.len(), 1);
    assert_eq!(store.edges[0].status, RelationshipStatus::Accepted);
}

#[test]
fn self_request_is_illegal_state() {
    let mut store = RelationshipStore::new();
    for id in [0u64, 1, 42, u64::MAX] {
        let r = store.add_friend(id, id, 5);
        assert_eq!(r, Err(RelationshipError::IllegalState));
    }
    assert_eq!(store.edges.len(), 0);
}

#[test]
fn self_request_rejected_even_with_store_down() {
    // The self-check precedes any store access.
    let mut store = RelationshipStore::new();
    store.fault = Some(StoreFault::Storage);
    assert_eq!(store.add_friend(3, 3, 5), Err(RelationshipError::IllegalState));
}

#[test]
fn duplicate_request_already_exists() {
    let mut store = RelationshipStore::new();
    store.add_friend(1, 2, 10).unwrap();
    let r = store.add_friend(1, 2, 11).unwrap();
    assert!(matches!(r, FriendshipCreateResult::AlreadyExists));
    assert_eq!(store.edges.len(), 1);
    assert_eq!(store.edges[0].status, RelationshipStatus::Pending);
}

#[test]
fn end_missing_relationship_not_in_friendship() {
    // Scenario: ending a relationship that never existed.
    let mut store = RelationshipStore::new();
    let r = store.delete_friend(1, 2, false, 20).unwrap();
    assert!(matches!(r, FriendshipEndResult::NotInFriendship));
}

#[test]
fn end_friendship_leaves_other_party_subscribed() {
    // After u1 unfriends u2, u2 keeps receiving u1's posts, one-way.
    let mut store = RelationshipStore::new();
    store.add_friend(1, 2, 10).unwrap();
    store.add_friend(2, 1, 11).unwrap();
    let r = store.delete_friend(1, 2, false, 12).unwrap();
    assert!(matches!(r, FriendshipEndResult::Subscribed));
    assert_eq!(store.edges.len(), 1);
    assert_eq!(store.edges[0].status, RelationshipStatus::Subscriber);
    assert_eq!(store.edges[0].initiator, 2);
    assert_eq!(store.edges[0].other, 1);
    assert_eq!(store.get_follower_ids(1).unwrap(), vec![2]);
    assert_eq!(store.get_follower_ids(2).unwrap(), Vec::<u64>::new());
}

#[test]
fn end_pending_relationship_not_in_friendship() {
    // A lone request is no friendship; ending it changes nothing.
    let mut store = RelationshipStore::new();
    store.add_friend(1, 2, 10).unwrap();
    let r = store.delete_friend(1, 2, false, 11).unwrap();
    assert!(matches!(r, FriendshipEndResult::NotInFriendship));
    assert_eq!(store.edges[0].status, RelationshipStatus::Pending);
}

#[test]
fn block_overwrites_edge_and_cuts_both_feeds() {
    let mut store = RelationshipStore::new();
    store.add_friend(1, 2, 10).unwrap();
    store.add_friend(2, 1, 11).unwrap();
    let r = store.delete_friend(1, 2, true, 12).unwrap();
    assert!(matches!(r, FriendshipEndResult::Blocked));
    assert_eq!(store.edges[0].status, RelationshipStatus::Blocked);
    assert_eq!(store.get_follower_ids(1).unwrap(), Vec::<u64>::new());
    assert_eq!(store.get_follower_ids(2).unwrap(), Vec::<u64>::new());
}

#[test]
fn reblocking_reports_not_in_friendship() {
    // Blocking is idempotent: the second block finds nothing to change.
    let mut store = RelationshipStore::new();
    store.add_friend(1, 2, 10).unwrap();
    store.delete_friend(1, 2, true, 11).unwrap();
    let r = store.delete_friend(1, 2, true, 12).unwrap();
    assert!(matches!(r, FriendshipEndResult::NotInFriendship));
    assert_eq!(store.edges[0].status, RelationshipStatus::Blocked);
}

#[test]
fn blocking_missing_edge_not_in_friendship() {
    let mut store = RelationshipStore::new();
    let r = store.delete_friend(5, 6, true, 1).unwrap();
    assert!(matches!(r, FriendshipEndResult::NotInFriendship));
}

#[test]
fn store_faults_propagate_as_errors() {
    let mut store = RelationshipStore::new();
    store.add_friend(1, 2, 10).unwrap();
    store.add_friend(2, 1, 11).unwrap();
    store.fault = Some(StoreFault::Storage);
    assert_eq!(store.add_friend(1, 3, 11), Err(RelationshipError::Storage));
    assert_eq!(store.delete_friend(1, 2, false, 12), Err(RelationshipError::Storage));
    assert_eq!(store.get_follower_ids(1), Err(RelationshipError::Storage));
    store.fault = Some(StoreFault::Pool);
    assert_eq!(store.add_friend(1, 3, 13), Err(RelationshipError::Pool));
    assert_eq!(store.get_follower_ids(1), Err(RelationshipError::Pool));
    store.fault = None;
    assert_eq!(store.get_follower_ids(1).unwrap(), vec![2]);
}

#[test]
fn pending_requests_feed_nobody() {
    let mut store = RelationshipStore::new();
    store.add_friend(1, 2, 10).unwrap();
    assert_eq!(store.get_follower_ids(1).unwrap(), Vec::<u64>::new());
    assert_eq!(store.get_follower_ids(2).unwrap(), Vec::<u64>::new());
}
