//! Directed friendship/subscription edges with a status, and the state
//! machine that governs them. At most one edge exists per unordered pair of
//! users; a follow request against an existing edge is a no-op, a reciprocal
//! pending request is promoted to an accepted friendship, ending a friendship
//! demotes the edge to a one-way subscription with the other party as its
//! initiator, and blocking overwrites any non-blocked edge.

use vstd::prelude::*;

use crate::StoreFault;

verus! {

/// Status of the single edge kept for an unordered pair of users.
#[derive(Clone, Copy, Debug, PartialEq, Eq, Structural)]
pub enum RelationshipStatus {
    /// The initiator asked the other party and waits for the reciprocal
    /// request.
    Pending,
    /// Mutual friendship; both parties receive each other's posts.
    Accepted,
    /// One-way: the initiator still receives the other party's posts.
    Subscriber,
    /// No posts flow in either direction.
    Blocked,
}

/// A directed edge: `initiator` acted on `other` last, `updated_at` is the
/// time of that action.
#[derive(Clone, Copy, Debug, PartialEq, Eq, Structural)]
pub struct Relationship {
    pub initiator: u64,
    pub other: u64,
    pub status: RelationshipStatus,
    pub updated_at: u64,
}

/// Outcome of a follow request.
#[derive(Clone, Copy, Debug, PartialEq, Eq, Structural)]
pub enum FriendshipCreateResult {
    Accepted,
    RequestSent,
    AlreadyExists,
}

/// Outcome of ending or blocking a relationship.
#[derive(Clone, Copy, Debug, PartialEq, Eq, Structural)]
pub enum FriendshipEndResult {
    Subscribed,
    Blocked,
    NotInFriendship,
}

/// How a relationship operation fails. Store faults propagate unchanged; a
/// self-request is rejected before the store is touched.
#[derive(Clone, Copy, Debug, PartialEq, Eq, Structural)]
pub enum RelationshipError {
    Storage,
    Pool,
    IllegalState,
}

/// The error a store fault surfaces as.
pub open spec fn rel_err(f: StoreFault) -> RelationshipError {
    match f {
        StoreFault::Storage => RelationshipError::Storage,
        StoreFault::Pool => RelationshipError::Pool,
    }
}

fn rel_err_of(f: StoreFault) -> (r: RelationshipError)
    ensures
        r == rel_err(f),
{
    match f {
        StoreFault::Storage => RelationshipError::Storage,
        StoreFault::Pool => RelationshipError::Pool,
    }
}

/// Whether `e` is the edge for the unordered pair `{a, b}`.
pub open spec fn same_pair(e: Relationship, a: u64, b: u64) -> bool {
    (e.initiator == a && e.other == b) || (e.initiator == b && e.other == a)
}

/// Edge lists are well-formed when no edge is a self-loop and no two edges
/// share an unordered pair.
pub open spec fn wf_edges(edges: Seq<Relationship>) -> bool {
    &&& forall|i: int| 0 <= i < edges.len() ==> (#[trigger] edges[i]).initiator != edges[i].other
    &&& forall|i: int, j: int|
        #![trigger edges[i], edges[j]]
        0 <= i < j < edges.len() ==> !same_pair(edges[i], edges[j].initiator, edges[j].other)
}

/// The edge kept for the pair `{a, b}`, if any (first match; well-formed
/// lists have at most one).
pub open spec fn pair_edge(edges: Seq<Relationship>, a: u64, b: u64) -> Option<Relationship>
    decreases edges.len(),
{
    if edges.len() == 0 {
        None
    } else if same_pair(edges[0], a, b) {
        Some(edges[0])
    } else {
        pair_edge(edges.drop_first(), a, b)
    }
}

/// The edge list with the pair `{a, b}`'s edge replaced by `r` (first match).
pub open spec fn replace_pair_edge(
    edges: Seq<Relationship>,
    a: u64,
    b: u64,
    r: Relationship,
) -> Seq<Relationship>
    decreases edges.len(),
{
    if edges.len() == 0 {
        edges
    } else if same_pair(edges[0], a, b) {
        seq![r] + edges.drop_first()
    } else {
        seq![edges[0]] + replace_pair_edge(edges.drop_first(), a, b, r)
    }
}

/// `v` follows `u`: `v` receives `u`'s posts through this edge. Accepted
/// edges feed both parties; a subscriber edge feeds only its initiator.
/// Pending and blocked edges feed nobody.
pub open spec fn edge_makes_follower(e: Relationship, v: u64, u: u64) -> bool {
    ||| (e.status == RelationshipStatus::Accepted && same_pair(e, u, v) && v != u)
    ||| (e.status == RelationshipStatus::Subscriber && e.initiator == v && e.other == u)
}

/// `v` is a follower of `u` under `edges`.
pub open spec fn is_follower(edges: Seq<Relationship>, v: u64, u: u64) -> bool {
    exists|i: int| 0 <= i < edges.len() && edge_makes_follower(#[trigger] edges[i], v, u)
}

/// The follower ids of `u` in edge-store order: what `get_follower_ids`
/// returns, and the order fan-out walks them in.
pub open spec fn follower_seq(edges: Seq<Relationship>, u: u64) -> Seq<u64>
    decreases edges.len(),
{
    if edges.len() == 0 {
        Seq::empty()
    } else {
        let rest = follower_seq(edges.drop_last(), u);
        let e = edges.last();
        if e.status == RelationshipStatus::Accepted && e.initiator == u {
            rest.push(e.other)
        } else if e.status == RelationshipStatus::Accepted && e.other == u {
            rest.push(e.initiator)
        } else if e.status == RelationshipStatus::Subscriber && e.other == u {
            rest.push(e.initiator)
        } else {
            rest
        }
    }
}

/// The follower list is sound and complete: it holds exactly the followers.
pub proof fn lemma_follower_seq_complete(edges: Seq<Relationship>, u: u64)
    requires
        wf_edges(edges),
    ensures
        forall|v: u64| #[trigger] follower_seq(edges, u).contains(v) <==> is_follower(edges, v, u),
    decreases edges.len(),
{
    if edges.len() == 0 {
        assert forall|v: u64| #[trigger]
            follower_seq(edges, u).contains(v) <==> is_follower(edges, v, u) by {
            assert(!follower_seq(edges, u).contains(v));
            assert(!is_follower(edges, v, u));
        }
    } else {
        let head = edges.drop_last();
        let e = edges.last();
        assert(wf_edges(head)) by {
            assert forall|i: int|
                0 <= i < head.len() implies (#[trigger] head[i]).initiator != head[i].other by {
                assert(edges[i].initiator != edges[i].other);
            }
        }
        lemma_follower_seq_complete(head, u);
        let fs = follower_seq(edges, u);
        let base = follower_seq(head, u);
        assert forall|v: u64| #[trigger] fs.contains(v) <==> is_follower(edges, v, u) by {
            // whom, if anyone, the last edge feeds with u's posts
            let fed: Option<u64> = if e.status == RelationshipStatus::Accepted && e.initiator
                == u {
                Some(e.other)
            } else if e.status == RelationshipStatus::Accepted && e.other == u {
                Some(e.initiator)
            } else if e.status == RelationshipStatus::Subscriber && e.other == u {
                Some(e.initiator)
            } else {
                None
            };
            assert(edge_makes_follower(e, v, u) <==> fed == Some(v)) by {
                assert(e.initiator != e.other);
            }
            if fs.contains(v) {
                let k = choose|k: int| 0 <= k < fs.len() && fs[k] == v;
                if fed is Some {
                    if k < base.len() {
                        assert(base.contains(v));
                        let i = choose|i: int|
                            0 <= i < head.len() && edge_makes_follower(#[trigger] head[i], v, u);
                        assert(edge_makes_follower(edges[i], v, u));
                    } else {
                        assert(v == fed->0);
                        assert(edge_makes_follower(edges[edges.len() - 1], v, u));
                    }
                } else {
                    assert(base.contains(v));
                    let i = choose|i: int|
                        0 <= i < head.len() && edge_makes_follower(#[trigger] head[i], v, u);
                    assert(edge_makes_follower(edges[i], v, u));
                }
            }
            if is_follower(edges, v, u) {
                let i = choose|i: int|
                    0 <= i < edges.len() && edge_makes_follower(#[trigger] edges[i], v, u);
                if i < edges.len() - 1 {
                    assert(edge_makes_follower(head[i], v, u));
                    assert(base.contains(v));
                    let k = choose|k: int| 0 <= k < base.len() && base[k] == v;
                    assert(fs[k] == v);
                } else {
                    assert(fed == Some(v));
                    assert(fs[fs.len() - 1] == v);
                }
            }
        }
    }
}

/// Edge list after a follow request from `a` to `b` at time `now`: promote a
/// reciprocal pending request, leave any other existing edge alone, else
/// insert a pending edge.
pub open spec fn add_friend_edges(
    edges: Seq<Relationship>,
    a: u64,
    b: u64,
    now: u64,
) -> Seq<Relationship> {
    match pair_edge(edges, a, b) {
        Some(e) => {
            if e.initiator == b && e.status == RelationshipStatus::Pending {
                replace_pair_edge(
                    edges,
                    a,
                    b,
                    Relationship {
                        initiator: e.initiator,
                        other: e.other,
                        status: RelationshipStatus::Accepted,
                        updated_at: now,
                    },
                )
            } else {
                edges
            }
        },
        None => edges.push(
            Relationship {
                initiator: a,
                other: b,
                status: RelationshipStatus::Pending,
                updated_at: now,
            },
        ),
    }
}

/// Outcome reported for a follow request from `a` to `b`.
pub open spec fn add_friend_outcome(
    edges: Seq<Relationship>,
    a: u64,
    b: u64,
) -> FriendshipCreateResult {
    match pair_edge(edges, a, b) {
        Some(e) => {
            if e.initiator == b && e.status == RelationshipStatus::Pending {
                FriendshipCreateResult::Accepted
            } else {
                FriendshipCreateResult::AlreadyExists
            }
        },
        None => FriendshipCreateResult::RequestSent,
    }
}

/// Edge list after `a` ends (or blocks) the relationship with `b` at `now`.
/// Without blocking, an accepted edge is demoted to a subscription whose
/// initiator is the other party `b`; with blocking, any non-blocked edge
/// becomes blocked with `a` as initiator. Nothing else changes.
pub open spec fn end_friendship_edges(
    edges: Seq<Relationship>,
    a: u64,
    b: u64,
    block: bool,
    now: u64,
) -> Seq<Relationship> {
    match pair_edge(edges, a, b) {
        Some(e) => {
            if block && e.status != RelationshipStatus::Blocked {
                replace_pair_edge(
                    edges,
                    a,
                    b,
                    Relationship {
                        initiator: a,
                        other: b,
                        status: RelationshipStatus::Blocked,
                        updated_at: now,
                    },
                )
            } else if !block && e.status == RelationshipStatus::Accepted {
                replace_pair_edge(
                    edges,
                    a,
                    b,
                    Relationship {
                        initiator: b,
                        other: a,
                        status: RelationshipStatus::Subscriber,
                        updated_at: now,
                    },
                )
            } else {
                edges
            }
        },
        None => edges,
    }
}

/// Outcome reported when `a` ends (or blocks) the relationship with `b`.
pub open spec fn end_friendship_outcome(
    edges: Seq<Relationship>,
    a: u64,
    b: u64,
    block: bool,
) -> FriendshipEndResult {
    match pair_edge(edges, a, b) {
        Some(e) => {
            if block && e.status != RelationshipStatus::Blocked {
                FriendshipEndResult::Blocked
            } else if !block && e.status == RelationshipStatus::Accepted {
                FriendshipEndResult::Subscribed
            } else {
                FriendshipEndResult::NotInFriendship
            }
        },
        None => FriendshipEndResult::NotInFriendship,
    }
}

/// The relationship store: the persisted edges, plus a fault flag standing
/// for a backing-store connectivity or pool failure. While the flag is set,
/// every operation fails with the matching error and changes nothing.
pub struct RelationshipStore {
    pub fault: Option<StoreFault>,
    pub edges: Vec<Relationship>,
}

// If the pair edge's first match sits at `i`, `pair_edge` returns it.
proof fn lemma_pair_edge_first(edges: Seq<Relationship>, a: u64, b: u64, i: int)
    requires
        0 <= i < edges.len(),
        same_pair(edges[i], a, b),
        forall|j: int| 0 <= j < i ==> !same_pair(#[trigger] edges[j], a, b),
    ensures
        pair_edge(edges, a, b) == Some(edges[i]),
    decreases i,
{
    if i > 0 {
        lemma_pair_edge_first(edges.drop_first(), a, b, i - 1);
    }
}

proof fn lemma_pair_edge_none(edges: Seq<Relationship>, a: u64, b: u64)
    requires
        forall|j: int| 0 <= j < edges.len() ==> !same_pair(#[trigger] edges[j], a, b),
    ensures
        pair_edge(edges, a, b) is None,
    decreases edges.len(),
{
    if edges.len() > 0 {
        lemma_pair_edge_none(edges.drop_first(), a, b);
    }
}

// Replacing the pair edge whose first match sits at `i` is a point update.
proof fn lemma_replace_pair_edge_first(
    edges: Seq<Relationship>,
    a: u64,
    b: u64,
    i: int,
    r: Relationship,
)
    requires
        0 <= i < edges.len(),
        same_pair(edges[i], a, b),
        forall|j: int| 0 <= j < i ==> !same_pair(#[trigger] edges[j], a, b),
    ensures
        replace_pair_edge(edges, a, b, r) == edges.update(i, r),
    decreases i,
{
    if i == 0 {
        assert(seq![r] + edges.drop_first() =~= edges.update(0, r));
    } else {
        lemma_replace_pair_edge_first(edges.drop_first(), a, b, i - 1, r);
        assert(seq![edges[0]] + edges.drop_first().update(i - 1, r) =~= edges.update(i, r));
    }
}

/// Index of the edge for pair `{a, b}`, scanning in store order.
fn find_pair(edges: &Vec<Relationship>, a: u64, b: u64) -> (r: Option<usize>)
    ensures
        match r {
            Some(i) => i < edges@.len() && same_pair(edges@[i as int], a, b) && forall|j: int|
                0 <= j < i ==> !same_pair(#[trigger] edges@[j], a, b),
            None => forall|j: int| 0 <= j < edges@.len() ==> !same_pair(#[trigger] edges@[j], a, b),
        },
{
    let mut i: usize = 0;
    while i < edges.len()
        invariant
            i <= edges@.len(),
            forall|j: int| 0 <= j < i ==> !same_pair(#[trigger] edges@[j], a, b),
        decreases edges@.len() - i,
    {
        let e = edges[i];
        if (e.initiator == a && e.other == b) || (e.initiator == b && e.other == a) {
            return Some(i);
        }
        i = i + 1;
    }
    None
}

impl RelationshipStore {
    /// An empty, healthy store.
    pub fn new() -> (r: RelationshipStore)
        ensures
            r.wf(),
            r.fault is None,
            r.edges@ =~= Seq::<Relationship>::empty(),
    {
        RelationshipStore { fault: None, edges: Vec::new() }
    }

    /// The store's invariant: at most one edge per unordered pair, no
    /// self-loops.
    pub open spec fn wf(self) -> bool {
        wf_edges(self.edges@)
    }

    /// A follow request from `initiator` towards `other` at time `now`: the
    /// accept-or-request transition of the friendship state machine. A
    /// self-request is rejected with `IllegalState` before the store is
    /// consulted; a store fault propagates; otherwise the edges move to
    /// `add_friend_edges` and the reported outcome is `add_friend_outcome`.
    pub fn add_friend(&mut self, initiator: u64, other: u64, now: u64) -> (r: Result<
        FriendshipCreateResult,
        RelationshipError,
    >)
        requires
            old(self).wf(),
        ensures
            final(self).wf(),
            final(self).fault == old(self).fault,
            (initiator == other) <==> r == Err::<FriendshipCreateResult, RelationshipError>(
                RelationshipError::IllegalState,
            ),
            initiator == other ==> *final(self) == *old(self),
            initiator != other && old(self).fault is Some ==> r == Err::<
                FriendshipCreateResult,
                RelationshipError,
            >(rel_err(old(self).fault->0)) && *final(self) == *old(self),
            initiator != other && old(self).fault is None ==> {
                &&& final(self).edges@ == add_friend_edges(old(self).edges@, initiator, other, now)
                &&& r == Ok::<FriendshipCreateResult, RelationshipError>(
                    add_friend_outcome(old(self).edges@, initiator, other),
                )
            },
    {
        if initiator == other {
            return Err(RelationshipError::IllegalState);
        }
        if let Some(f) = self.fault {
            return Err(rel_err_of(f));
        }
        match find_pair(&self.edges, initiator, other) {
            Some(i) => {
                let e = self.edges[i];
                proof {
                    lemma_pair_edge_first(self.edges@, initiator, other, i as int);
                }
                if e.initiator == other && e.status == RelationshipStatus::Pending {
                    let promoted = Relationship {
                        initiator: e.initiator,
                        other: e.other,
                        status: RelationshipStatus::Accepted,
                        updated_at: now,
                    };
                    proof {
                        lemma_replace_pair_edge_first(
                            self.edges@,
                            initiator,
                            other,
                            i as int,
                            promoted,
                        );
                    }
                    self.edges.set(i, promoted);
                    proof {
                        lemma_wf_after_update(old(self).edges@, i as int, promoted);
                    }
                    Ok(FriendshipCreateResult::Accepted)
                } else {
                    Ok(FriendshipCreateResult::AlreadyExists)
                }
            },
            None => {
                proof {
                    lemma_pair_edge_none(self.edges@, initiator, other);
                }
                let fresh = Relationship {
                    initiator,
                    other,
                    status: RelationshipStatus::Pending,
                    updated_at: now,
                };
                self.edges.push(fresh);
                Ok(FriendshipCreateResult::RequestSent)
            },
        }
    }

    /// `initiator` ends (block = false) or blocks (block = true) the
    /// relationship with `other` at time `now`. A store fault propagates;
    /// otherwise the edges move to `end_friendship_edges` and the reported
    /// outcome is `end_friendship_outcome` — `NotInFriendship` whenever no
    /// edge qualified and nothing changed.
    pub fn delete_friend(&mut self, initiator: u64, other: u64, block: bool, now: u64) -> (r:
        Result<FriendshipEndResult, RelationshipError>)
        requires
            old(self).wf(),
        ensures
            final(self).wf(),
            final(self).fault == old(self).fault,
            old(self).fault is Some ==> r == Err::<FriendshipEndResult, RelationshipError>(
                rel_err(old(self).fault->0),
            ) && *final(self) == *old(self),
            old(self).fault is None ==> {
                &&& final(self).edges@ == end_friendship_edges(
                    old(self).edges@,
                    initiator,
                    other,
                    block,
                    now,
                )
                &&& r == Ok::<FriendshipEndResult, RelationshipError>(
                    end_friendship_outcome(old(self).edges@, initiator, other, block),
                )
            },
    {
        if let Some(f) = self.fault {
            return Err(rel_err_of(f));
        }
        match find_pair(&self.edges, initiator, other) {
            Some(i) => {
                let e = self.edges[i];
                proof {
                    lemma_pair_edge_first(self.edges@, initiator, other, i as int);
                    assert(e.initiator != e.other);
                    assert(initiator != other);
                }
                if block && !(e.status == RelationshipStatus::Blocked) {
                    let blocked = Relationship {
                        initiator,
                        other,
                        status: RelationshipStatus::Blocked,
                        updated_at: now,
                    };
                    proof {
                        lemma_replace_pair_edge_first(
                            self.edges@,
                            initiator,
                            other,
                            i as int,
                            blocked,
                        );
                    }
                    self.edges.set(i, blocked);
                    proof {
                        lemma_wf_after_update(old(self).edges@, i as int, blocked);
                    }
                    Ok(FriendshipEndResult::Blocked)
                } else if !block && e.status == RelationshipStatus::Accepted {
                    let demoted = Relationship {
                        initiator: other,
                        other: initiator,
                        status: RelationshipStatus::Subscriber,
                        updated_at: now,
                    };
                    proof {
                        lemma_replace_pair_edge_first(
                            self.edges@,
                            initiator,
                            other,
                            i as int,
                            demoted,
                        );
                    }
                    self.edges.set(i, demoted);
                    proof {
                        lemma_wf_after_update(old(self).edges@, i as int, demoted);
                    }
                    Ok(FriendshipEndResult::Subscribed)
                } else {
                    Ok(FriendshipEndResult::NotInFriendship)
                }
            },
            None => {
                proof {
                    lemma_pair_edge_none(self.edges@, initiator, other);
                }
                Ok(FriendshipEndResult::NotInFriendship)
            },
        }
    }

    /// Whether `v` currently follows `u`, read straight off the edges (the
    /// membership test behind the feed's join).
    pub fn is_follower_of(&self, v: u64, u: u64) -> (r: bool)
        ensures
            r == is_follower(self.edges@, v, u),
    {
        let mut i: usize = 0;
        while i < self.edges.len()
            invariant
                i <= self.edges@.len(),
                forall|j: int|
                    0 <= j < i ==> !edge_makes_follower(#[trigger] self.edges@[j], v, u),
            decreases self.edges@.len() - i,
        {
            let e = self.edges[i];
            let hit = (e.status == RelationshipStatus::Accepted
                && ((e.initiator == u && e.other == v) || (e.initiator == v && e.other == u))
                && v != u) || (e.status == RelationshipStatus::Subscriber && e.initiator == v
                && e.other == u);
            if hit {
                assert(edge_makes_follower(self.edges@[i as int], v, u));
                return true;
            }
            i = i + 1;
        }
        false
    }

    /// Ids of the users who should receive `user_id`'s posts: both parties
    /// of an accepted edge, the initiator of a subscription towards
    /// `user_id`; blocked and pending edges feed nobody. Duplicate-free.
    pub fn get_follower_ids(&self, user_id: u64) -> (r: Result<Vec<u64>, RelationshipError>)
        requires
            self.wf(),
        ensures
            self.fault is Some ==> r == Err::<Vec<u64>, RelationshipError>(
                rel_err(self.fault->0),
            ),
            self.fault is None ==> r is Ok,
            r is Ok ==> {
                &&& r->Ok_0@ == follower_seq(self.edges@, user_id)
                &&& forall|v: u64|
                    r->Ok_0@.contains(v) <==> is_follower(self.edges@, v, user_id)
                &&& forall|k: int, l: int|
                    0 <= k < l < r->Ok_0@.len() ==> r->Ok_0@[k] != r->Ok_0@[l]
            },
    {
        if let Some(f) = self.fault {
            return Err(rel_err_of(f));
        }
        let mut out: Vec<u64> = Vec::new();
        let mut i: usize = 0;
        while i < self.edges.len()
            invariant
                self.wf(),
                i <= self.edges@.len(),
                out@ == follower_seq(self.edges@.take(i as int), user_id),
                forall|v: u64|
                    out@.contains(v) <==> exists|j: int|
                        0 <= j < i && edge_makes_follower(#[trigger] self.edges@[j], v, user_id),
                forall|k: int, l: int| 0 <= k < l < out@.len() ==> out@[k] != out@[l],
                forall|k: int|
                    0 <= k < out@.len() ==> is_follower(self.edges@, #[trigger] out@[k], user_id),
            decreases self.edges@.len() - i,
        {
            proof {
                assert(self.edges@.take(i + 1 as int).drop_last() =~= self.edges@.take(i as int));
                assert(self.edges@.take(i + 1 as int).last() == self.edges@[i as int]);
            }
            let e = self.edges[i];
            let mut candidate: Option<u64> = None;
            if e.status == RelationshipStatus::Accepted && e.initiator == user_id {
                candidate = Some(e.other);
            } else if e.status == RelationshipStatus::Accepted && e.other == user_id {
                candidate = Some(e.initiator);
            } else if e.status == RelationshipStatus::Subscriber && e.other == user_id {
                candidate = Some(e.initiator);
            }
            match candidate {
                Some(v) => {
                    proof {
                        assert(edge_makes_follower(self.edges@[i as int], v, user_id));
                        // `v` cannot already be collected: its edge would
                        // share the pair `{user_id, v}` with this one.
                        assert(!out@.contains(v)) by {
                            if out@.contains(v) {
                                let j = choose|j: int|
                                    0 <= j < i && edge_makes_follower(
                                        #[trigger] self.edges@[j],
                                        v,
                                        user_id,
                                    );
                                assert(same_pair(self.edges@[j], self.edges@[i as int].initiator,
                                    self.edges@[i as int].other));
                            }
                        }
                    }
                    let ghost prev = out@;
                    out.push(v);
                    proof {
                        assert forall|w: u64| out@.contains(w) <==> (exists|j: int|
                            0 <= j < i + 1 && edge_makes_follower(
                                #[trigger] self.edges@[j],
                                w,
                                user_id,
                            )) by {
                            if out@.contains(w) {
                                let k = choose|k: int| 0 <= k < out@.len() && out@[k] == w;
                                if k < prev.len() {
                                    assert(prev.contains(w));
                                } else {
                                    assert(w == v);
                                }
                            }
                            if exists|j: int|
                                0 <= j < i + 1 && edge_makes_follower(
                                    #[trigger] self.edges@[j],
                                    w,
                                    user_id,
                                ) {
                                let j = choose|j: int|
                                    0 <= j < i + 1 && edge_makes_follower(
                                        #[trigger] self.edges@[j],
                                        w,
                                        user_id,
                                    );
                                if j < i {
                                    assert(prev.contains(w));
                                    let k = choose|k: int| 0 <= k < prev.len() && prev[k] == w;
                                    assert(out@[k] == w);
                                } else {
                                    assert(w == v);
                                    assert(out@[out@.len() - 1] == w);
                                }
                            }
                        }
                    }
                },
                None => {
                    proof {
                        // this edge feeds nobody, so the collected prefix is
                        // unchanged and still complete
                        assert(forall|w: u64|
                            !edge_makes_follower(self.edges@[i as int], w, user_id));
                    }
                },
            }
            i = i + 1;
        }
        proof {
            assert(self.edges@.take(self.edges@.len() as int) =~= self.edges@);
        }
        Ok(out)
    }
}

// A point update that keeps the unordered pair and distinct endpoints keeps
// the edge list well-formed.
proof fn lemma_wf_after_update(edges: Seq<Relationship>, i: int, r: Relationship)
    requires
        wf_edges(edges),
        0 <= i < edges.len(),
        same_pair(r, edges[i].initiator, edges[i].other),
        r.initiator != r.other,
    ensures
        wf_edges(edges.update(i, r)),
{
    let upd = edges.update(i, r);
    assert forall|x: int, y: int|
        #![trigger upd[x], upd[y]]
        0 <= x < y < upd.len() implies !same_pair(upd[x], upd[y].initiator, upd[y].other) by {
        assert(!same_pair(edges[x], edges[y].initiator, edges[y].other));
    }
}

/// Law: a follow request and its immediate reciprocal leave exactly one
/// accepted edge on the pair — never two divergent pending edges — and each
/// party a follower of the other.
pub proof fn lemma_friendship_symmetry(edges: Seq<Relationship>, a: u64, b: u64, t1: u64, t2: u64)
    requires
        wf_edges(edges),
        a != b,
        pair_edge(edges, a, b) is None,
    ensures
        ({
            let once = add_friend_edges(edges, a, b, t1);
            let twice = add_friend_edges(once, b, a, t2);
            &&& add_friend_outcome(edges, a, b) == FriendshipCreateResult::RequestSent
            &&& add_friend_outcome(once, b, a) == FriendshipCreateResult::Accepted
            &&& wf_edges(twice)
            &&& pair_edge(twice, a, b) == Some(
                Relationship {
                    initiator: a,
                    other: b,
                    status: RelationshipStatus::Accepted,
                    updated_at: t2,
                },
            )
            &&& is_follower(twice, a, b)
            &&& is_follower(twice, b, a)
        }),
{
    let pending = Relationship {
        initiator: a,
        other: b,
        status: RelationshipStatus::Pending,
        updated_at: t1,
    };
    let accepted = Relationship {
        initiator: a,
        other: b,
        status: RelationshipStatus::Accepted,
        updated_at: t2,
    };
    let once = add_friend_edges(edges, a, b, t1);
    lemma_pair_edge_none_all(edges, a, b);
    assert(once == edges.push(pending));
    let n = edges.len() as int;
    assert(once[n] == pending);
    lemma_pair_edge_first(once, b, a, n);
    lemma_replace_pair_edge_first(once, b, a, n, accepted);
    let twice = add_friend_edges(once, b, a, t2);
    assert(twice == once.update(n, accepted));
    assert(wf_edges(once)) by {
        assert forall|x: int, y: int|
            #![trigger once[x], once[y]]
            0 <= x < y < once.len() implies !same_pair(once[x], once[y].initiator, once[y].other)
        by {
            if y < n {
                assert(!same_pair(edges[x], edges[y].initiator, edges[y].other));
            }
        }
    }
    lemma_wf_after_update(once, n, accepted);
    lemma_pair_edge_first(twice, a, b, n);
    assert(edge_makes_follower(twice[n], a, b));
    assert(edge_makes_follower(twice[n], b, a));
}

// `pair_edge` finding nothing means no edge matches the pair.
proof fn lemma_pair_edge_none_all(edges: Seq<Relationship>, a: u64, b: u64)
    requires
        pair_edge(edges, a, b) is None,
    ensures
        forall|j: int| 0 <= j < edges.len() ==> !same_pair(#[trigger] edges[j], a, b),
    decreases edges.len(),
{
    if edges.len() > 0 {
        lemma_pair_edge_none_all(edges.drop_first(), a, b);
        assert forall|j: int| 0 <= j < edges.len() implies !same_pair(
            #[trigger] edges[j],
            a,
            b,
        ) by {
            if j > 0 {
                assert(edges.drop_first()[j - 1] == edges[j]);
            }
        }
    }
}

} // verus!
