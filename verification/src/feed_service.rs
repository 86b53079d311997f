//! The feed service: the thin coordinator over the post store, the
//! relationship store, and the feed cache. Writes go through the
//! authoritative post store and then refresh the cache opportunistically;
//! point reads go through the cache-aside helper; feed reads follow the
//! two-tier cache protocol and fall back to the stores' joined query. Store
//! errors propagate; cache faults never do.

use vstd::prelude::*;

use crate::cache_aside;
use crate::cache_aside::{cached_hit, compute_spec, post_result_view};
use crate::codec::{decode_spec, encode_spec};
use crate::expiry_at;
use crate::feed_cache::{
    FeedCache, fanout_index, hydrate_spec, marker_live, page_ids_spec, put_body, put_marker,
    drop_body, rebuild_bodies, rebuild_index,
};
use crate::post::{Post, PostView, newer_than, post_seq_view};
use crate::post_store::{
    PostError, PostStore, authored_post, feed_page_spec, insert_feed, post_err, remove_authored,
    update_authored, with_new_text,
};
use crate::relationship::{RelationshipStore, follower_seq};

verus! {

/// The view of a feed-or-error result.
pub open spec fn feed_result_view(r: Result<Vec<Post>, PostError>) -> Result<
    Seq<PostView>,
    PostError,
> {
    match r {
        Ok(v) => Ok(post_seq_view(v@)),
        Err(e) => Err(e),
    }
}

/// What a feed read computes from the authoritative stores alone: a fault
/// of either store propagates, else the joined, ordered, windowed page.
pub open spec fn feed_fallback_spec(
    posts: PostStore,
    friends: RelationshipStore,
    viewer: u64,
    limit: Option<u64>,
    offset: Option<u64>,
) -> Result<Seq<PostView>, PostError> {
    if posts.fault is Some {
        Err(post_err(posts.fault->0))
    } else if friends.fault is Some {
        Err(post_err(friends.fault->0))
    } else {
        Ok(feed_page_spec(posts.posts_view(), friends.edges@, viewer, limit, offset))
    }
}

/// What the cache alone serves a viewer on the warm path: the hydration of
/// the windowed ids of the viewer's index.
pub open spec fn cache_served(
    cache: FeedCache,
    viewer: u64,
    limit: Option<u64>,
    offset: Option<u64>,
    now: u64,
) -> Seq<PostView> {
    hydrate_spec(cache.bodies_view(), page_ids_spec(cache.index@, viewer, limit, offset), now)
}

/// The feed service, owning the handles to its three collaborators.
pub struct FeedService {
    pub posts: PostStore,
    pub friends: RelationshipStore,
    pub cache: FeedCache,
}

impl FeedService {
    /// All three collaborators are well-formed.
    pub open spec fn wf(self) -> bool {
        &&& self.posts.wf()
        &&& self.friends.wf()
        &&& self.cache.wf()
    }

    /// A service over empty, healthy stores and a reachable, empty cache.
    pub fn new() -> (r: FeedService)
        ensures
            r.wf(),
            r.posts.fault is None,
            r.posts.can_assign_id(),
            r.posts.posts_view() =~= Seq::<PostView>::empty(),
            r.posts.next_id == 1,
            r.friends.fault is None,
            r.friends.edges@ =~= Seq::<crate::relationship::Relationship>::empty(),
            r.cache.available,
    {
        FeedService {
            posts: PostStore::new(),
            friends: RelationshipStore::new(),
            cache: FeedCache::new(true),
        }
    }

    /// Creates a post and fans it out: the write goes through the post
    /// store; then, best-effort, the body is cached once and the post id is
    /// appended to every follower's index, scored by creation time. A
    /// follower query failure, like any cache fault, only skips the
    /// fan-out — the created post's id is still returned.
    pub fn create(&mut self, user_id: u64, text: Vec<u8>, now: u64) -> (r: Result<u64, PostError>)
        requires
            old(self).wf(),
            old(self).posts.can_assign_id(),
        ensures
            final(self).wf(),
            final(self).friends == old(self).friends,
            final(self).posts.fault == old(self).posts.fault,
            final(self).cache.available == old(self).cache.available,
            final(self).cache.markers == old(self).cache.markers,
            old(self).posts.fault is Some ==> r == Err::<u64, PostError>(
                post_err(old(self).posts.fault->0),
            ) && final(self).posts == old(self).posts && final(self).cache == old(self).cache,
            old(self).posts.fault is None ==> ({
                let pid = old(self).posts.next_id;
                let p = (PostView {
                    id: pid,
                    author: user_id,
                    text: text@,
                    created_at: now,
                    updated_at: now,
                });
                &&& r == Ok::<u64, PostError>(pid)
                &&& final(self).posts.posts_view() == insert_feed(old(self).posts.posts_view(), p)
                &&& final(self).posts.next_id == pid + 1
                &&& !old(self).cache.available ==> final(self).cache == old(self).cache
                &&& old(self).cache.available ==> final(self).cache.bodies_view() == put_body(
                    old(self).cache.bodies_view(),
                    pid,
                    encode_spec(p),
                    expiry_at(now),
                )
                &&& old(self).cache.available && old(self).friends.fault is None ==> final(self).cache.index@ == fanout_index(
                    old(self).cache.index@,
                    follower_seq(old(self).friends.edges@, user_id),
                    pid,
                    now,
                )
                &&& old(self).cache.available && old(self).friends.fault is Some ==> final(self).cache.index == old(self).cache.index
            }),
    {
        let created = match self.posts.create(user_id, text, now) {
            Ok(p) => p,
            Err(e) => {
                return Err(e);
            },
        };
        let pid = created.id;
        self.cache.store_body(&created, now);
        match self.friends.get_follower_ids(user_id) {
            Ok(fl) => {
                let ghost snap = *self;
                let ghost target = fanout_index(self.cache.index@, fl@, pid, now);
                proof {
                    assert(fl@.skip(0) =~= fl@);
                }
                let mut k: usize = 0;
                while k < fl.len()
                    invariant
                        k <= fl@.len(),
                        created.created_at == now,
                        self.posts == snap.posts,
                        self.friends == snap.friends,
                        self.cache.wf(),
                        self.cache.available == snap.cache.available,
                        self.cache.bodies == snap.cache.bodies,
                        self.cache.markers == snap.cache.markers,
                        !self.cache.available ==> self.cache.index == snap.cache.index,
                        self.cache.available ==> fanout_index(
                            self.cache.index@,
                            fl@.skip(k as int),
                            pid,
                            now,
                        ) == target,
                        target == fanout_index(snap.cache.index@, fl@, pid, now),
                    decreases fl@.len() - k,
                {
                    proof {
                        assert(fl@.skip(k as int).drop_first() =~= fl@.skip(k + 1 as int));
                        assert(fl@.skip(k as int)[0] == fl@[k as int]);
                    }
                    self.cache.append(fl[k], pid, created.created_at);
                    k = k + 1;
                }
                proof {
                    if self.cache.available {
                        assert(fl@.skip(fl@.len() as int) =~= Seq::<u64>::empty());
                    }
                }
            },
            Err(_) => {},
        }
        Ok(pid)
    }

    /// Replaces the text of the caller's own post, then refreshes its
    /// cached body best-effort. The store's author-scoped miss semantics
    /// propagate unchanged.
    pub fn update(&mut self, user_id: u64, post_id: u64, text: Vec<u8>, now: u64) -> (r: Result<
        (),
        PostError,
    >)
        requires
            old(self).wf(),
        ensures
            final(self).wf(),
            final(self).friends == old(self).friends,
            final(self).posts.fault == old(self).posts.fault,
            final(self).posts.next_id == old(self).posts.next_id,
            final(self).cache.available == old(self).cache.available,
            final(self).cache.markers == old(self).cache.markers,
            final(self).cache.index == old(self).cache.index,
            old(self).posts.fault is Some ==> r == Err::<(), PostError>(
                post_err(old(self).posts.fault->0),
            ) && final(self).posts == old(self).posts && final(self).cache == old(self).cache,
            old(self).posts.fault is None ==> match authored_post(
                old(self).posts.posts_view(),
                post_id,
                user_id,
            ) {
                Some(q) => {
                    &&& r == Ok::<(), PostError>(())
                    &&& final(self).posts.posts_view() == update_authored(
                        old(self).posts.posts_view(),
                        post_id,
                        user_id,
                        text@,
                        now,
                    )
                    &&& !old(self).cache.available ==> final(self).cache == old(self).cache
                    &&& old(self).cache.available ==> final(self).cache.bodies_view()
                        == put_body(
                        old(self).cache.bodies_view(),
                        post_id,
                        encode_spec(with_new_text(q, text@, now)),
                        expiry_at(now),
                    )
                },
                None => r == Err::<(), PostError>(PostError::NotUpdated) && final(self).posts
                    == old(self).posts && final(self).cache == old(self).cache,
            },
    {
        match self.posts.update(user_id, post_id, text, now) {
            Ok(p) => {
                proof {
                    crate::post_store::lemma_authored_ids(
                        old(self).posts.posts_view(),
                        post_id,
                        user_id,
                    );
                }
                self.cache.store_body(&p, now);
                Ok(())
            },
            Err(e) => Err(e),
        }
    }

    /// Deletes the caller's own post, then drops its cached body
    /// best-effort. The store's author-scoped miss semantics propagate
    /// unchanged.
    pub fn delete(&mut self, user_id: u64, post_id: u64) -> (r: Result<(), PostError>)
        requires
            old(self).wf(),
        ensures
            final(self).wf(),
            final(self).friends == old(self).friends,
            final(self).posts.fault == old(self).posts.fault,
            final(self).posts.next_id == old(self).posts.next_id,
            final(self).cache.available == old(self).cache.available,
            final(self).cache.markers == old(self).cache.markers,
            final(self).cache.index == old(self).cache.index,
            old(self).posts.fault is Some ==> r == Err::<(), PostError>(
                post_err(old(self).posts.fault->0),
            ) && final(self).posts == old(self).posts && final(self).cache == old(self).cache,
            old(self).posts.fault is None ==> match authored_post(
                old(self).posts.posts_view(),
                post_id,
                user_id,
            ) {
                Some(q) => {
                    &&& r == Ok::<(), PostError>(())
                    &&& final(self).posts.posts_view() == remove_authored(
                        old(self).posts.posts_view(),
                        post_id,
                        user_id,
                    )
                    &&& !old(self).cache.available ==> final(self).cache == old(self).cache
                    &&& old(self).cache.available ==> final(self).cache.bodies_view()
                        == drop_body(old(self).cache.bodies_view(), post_id)
                },
                None => r == Err::<(), PostError>(PostError::NotUpdated) && final(self).posts
                    == old(self).posts && final(self).cache == old(self).cache,
            },
    {
        match self.posts.delete(user_id, post_id) {
            Ok(()) => {
                self.cache.remove_body(post_id);
                Ok(())
            },
            Err(e) => Err(e),
        }
    }

    /// Point read of a post through the cache-aside helper: a cached body
    /// that deserializes is served as is; otherwise the post store answers
    /// and, on success, a reachable cache is repopulated. With the cache
    /// entirely unavailable the result is exactly the store's.
    pub fn get(&mut self, post_id: u64, now: u64) -> (r: Result<Post, PostError>)
        requires
            old(self).wf(),
        ensures
            final(self).wf(),
            final(self).posts == old(self).posts,
            final(self).friends == old(self).friends,
            final(self).cache.available == old(self).cache.available,
            final(self).cache.markers == old(self).cache.markers,
            final(self).cache.index == old(self).cache.index,
            old(self).cache.available && cached_hit(old(self).cache, post_id, now) is Some ==> r
                is Ok && r->Ok_0@ == cached_hit(old(self).cache, post_id, now)->0 && final(self).cache.bodies == old(self).cache.bodies,
            !(old(self).cache.available && cached_hit(old(self).cache, post_id, now) is Some)
                ==> post_result_view(r) == compute_spec(old(self).posts, post_id),
            old(self).cache.available && cached_hit(old(self).cache, post_id, now) is None
                && compute_spec(old(self).posts, post_id) is Ok ==> final(self).cache.bodies_view() == put_body(
                old(self).cache.bodies_view(),
                post_id,
                encode_spec(compute_spec(old(self).posts, post_id)->Ok_0),
                expiry_at(now),
            ),
            !old(self).cache.available ==> final(self).cache == old(self).cache,
            compute_spec(old(self).posts, post_id) is Err && cached_hit(
                old(self).cache,
                post_id,
                now,
            ) is None ==> final(self).cache.bodies == old(self).cache.bodies,
    {
        cache_aside::get_or_compute(&mut self.cache, &self.posts, post_id, now)
    }

    /// Serves a viewer's feed page by the two-tier cache protocol. With the
    /// cache unreachable, the authoritative query answers and nothing is
    /// written. On a live marker whose index hydrates to something, the
    /// cached page is served unchanged. Otherwise the authoritative query
    /// answers and, on success, the page is materialized back into the
    /// cache — bodies, index entries, then the marker.
    pub fn feed(&mut self, user_id: u64, limit: Option<u64>, offset: Option<u64>, now: u64) -> (r:
        Result<Vec<Post>, PostError>)
        requires
            old(self).wf(),
        ensures
            final(self).wf(),
            final(self).posts == old(self).posts,
            final(self).friends == old(self).friends,
            final(self).cache.available == old(self).cache.available,
            !old(self).cache.available ==> feed_result_view(r) == feed_fallback_spec(
                old(self).posts,
                old(self).friends,
                user_id,
                limit,
                offset,
            ) && final(self).cache == old(self).cache,
            old(self).cache.available && marker_live(old(self).cache.markers@, user_id, now)
                && cache_served(old(self).cache, user_id, limit, offset, now).len() > 0 ==> r
                is Ok && post_seq_view(r->Ok_0@) == cache_served(
                old(self).cache,
                user_id,
                limit,
                offset,
                now,
            ) && final(self).cache == old(self).cache,
            old(self).cache.available && !(marker_live(old(self).cache.markers@, user_id, now)
                && cache_served(old(self).cache, user_id, limit, offset, now).len() > 0) ==> {
                &&& feed_result_view(r) == feed_fallback_spec(
                    old(self).posts,
                    old(self).friends,
                    user_id,
                    limit,
                    offset,
                )
                &&& feed_fallback_spec(
                    old(self).posts,
                    old(self).friends,
                    user_id,
                    limit,
                    offset,
                ) is Err ==> final(self).cache == old(self).cache
                &&& feed_fallback_spec(
                    old(self).posts,
                    old(self).friends,
                    user_id,
                    limit,
                    offset,
                ) matches Ok(page) ==> {
                    &&& final(self).cache.bodies_view() == rebuild_bodies(
                        old(self).cache.bodies_view(),
                        page,
                        now,
                    )
                    &&& final(self).cache.index@ == rebuild_index(
                        old(self).cache.index@,
                        user_id,
                        page,
                    )
                    &&& final(self).cache.markers@ == put_marker(
                        old(self).cache.markers@,
                        user_id,
                        expiry_at(now),
                    )
                }
            },
    {
        if !self.cache.available {
            return self.posts.feed_page(&self.friends, user_id, limit, offset);
        }
        if self.cache.has_materialized(user_id, now) {
            let ids = match self.cache.page_ids(user_id, limit, offset) {
                Some(v) => v,
                None => vstd::pervasive::unreached(),
            };
            let cached = match self.cache.hydrate(&ids, now) {
                Some(v) => v,
                None => vstd::pervasive::unreached(),
            };
            if cached.len() > 0 {
                return Ok(cached);
            }
        }
        let page = match self.posts.feed_page(&self.friends, user_id, limit, offset) {
            Ok(v) => v,
            Err(e) => {
                return Err(e);
            },
        };
        let ghost snap = *self;
        let ghost pv = post_seq_view(page@);
        let ghost btarget = rebuild_bodies(self.cache.bodies_view(), pv, now);
        let ghost itarget = rebuild_index(self.cache.index@, user_id, pv);
        proof {
            assert(pv.skip(0) =~= pv);
        }
        let mut k: usize = 0;
        while k < page.len()
            invariant
                k <= page@.len(),
                pv == post_seq_view(page@),
                self.posts == snap.posts,
                self.friends == snap.friends,
                self.cache.wf(),
                self.cache.available,
                self.cache.markers == snap.cache.markers,
                rebuild_bodies(self.cache.bodies_view(), pv.skip(k as int), now) == btarget,
                rebuild_index(self.cache.index@, user_id, pv.skip(k as int)) == itarget,
                btarget == rebuild_bodies(snap.cache.bodies_view(), pv, now),
                itarget == rebuild_index(snap.cache.index@, user_id, pv),
            decreases page@.len() - k,
        {
            proof {
                assert(pv.skip(k as int).drop_first() =~= pv.skip(k + 1 as int));
                assert(pv.skip(k as int)[0] == pv[k as int]);
            }
            let ghost mid_index = self.cache.index@;
            self.cache.store_body(&page[k], now);
            proof {
                assert(self.cache.index@ == mid_index);
            }
            self.cache.append(user_id, page[k].id, page[k].created_at);
            k = k + 1;
        }
        proof {
            assert(pv.skip(pv.len() as int) =~= Seq::<PostView>::empty());
        }
        self.cache.mark_materialized(user_id, now);
        Ok(page)
    }
}

/// The post a successful `create` call persists: the store's next id, the
/// given author and text, creation and update time both `now`.
pub open spec fn created_post_view(
    posts: PostStore,
    author: u64,
    text: Seq<u8>,
    now: u64,
) -> PostView {
    PostView { id: posts.next_id, author, text, created_at: now, updated_at: now }
}

/// Law: fan-out eventual consistency. `before` is the healthy state a
/// successful `create` by `author` at `now` ran against; `after` is the
/// state `create`'s contract says it left. Take any follower of the author
/// reading the top of the feed at a time `t` before the cached body's TTL
/// ends, with room for the whole index in the page. Then both roads from
/// `feed`'s contract carry the new post: the page the cache serves the
/// follower contains it, and the authoritative page an absent or expired
/// marker falls back to opens with it — so the follower's next read shows
/// the post, or shows it as soon as the marker has lapsed and the rebuild
/// runs.
pub proof fn lemma_fanout_eventual_consistency(
    before: FeedService,
    after: FeedService,
    author: u64,
    text: Seq<u8>,
    now: u64,
    viewer: u64,
    t: u64,
    limit: Option<u64>,
    offset: Option<u64>,
)
    requires
        before.wf(),
        before.posts.fault is None,
        before.friends.fault is None,
        before.cache.available,
        // what create's contract says of the state it left
        after.posts.fault is None,
        after.posts.posts_view() == insert_feed(
            before.posts.posts_view(),
            created_post_view(before.posts, author, text, now),
        ),
        after.friends == before.friends,
        after.cache.bodies_view() == put_body(
            before.cache.bodies_view(),
            before.posts.next_id,
            encode_spec(created_post_view(before.posts, author, text, now)),
            expiry_at(now),
        ),
        after.cache.index@ == fanout_index(
            before.cache.index@,
            follower_seq(before.friends.edges@, author),
            before.posts.next_id,
            now,
        ),
        // the reader follows the author and the post is the freshest
        crate::relationship::is_follower(before.friends.edges@, viewer, author),
        forall|i: int|
            0 <= i < before.posts.posts_view().len() ==> newer_than(
                created_post_view(before.posts, author, text, now),
                #[trigger] before.posts.posts_view()[i],
            ),
        // the read: top of the feed, page wide enough, body not yet expired
        t < expiry_at(now),
        crate::post_store::eff_offset(offset) == 0,
        crate::post_store::eff_limit(limit) >= 1,
        crate::feed_cache::entries_of(after.cache.index@, viewer).len()
            <= crate::post_store::eff_limit(limit),
    ensures
        // (a) the warm read serves the post from the cache
        exists|j: int|
            0 <= j < cache_served(after.cache, viewer, limit, offset, t).len()
                && #[trigger] cache_served(after.cache, viewer, limit, offset, t)[j]
                == created_post_view(before.posts, author, text, now),
        // (b) the fallback a lapsed marker forces rebuilds a page opening
        // with the post
        feed_fallback_spec(after.posts, after.friends, viewer, limit, offset) matches Ok(page)
            && page.len() > 0 && page[0] == created_post_view(before.posts, author, text, now),
{
    let p = created_post_view(before.posts, author, text, now);
    let fl = follower_seq(before.friends.edges@, author);
    crate::relationship::lemma_follower_seq_complete(before.friends.edges@, author);
    assert(fl.contains(viewer));
    let k = choose|k: int| 0 <= k < fl.len() && fl[k] == viewer;
    crate::feed_cache::lemma_fanout_reaches_followers(before.cache.index@, fl, p.id, now);
    assert(crate::feed_cache::index_has(after.cache.index@, viewer, p.id));
    crate::feed_cache::lemma_stored_body_serves(before.cache.bodies_view(), p, now, t);
    lemma_warm_feed_serves_entry(after.cache, viewer, p, limit, offset, t);
    crate::post_store::lemma_rebuild_includes_post(
        before.posts.posts_view(),
        before.friends.edges@,
        viewer,
        p,
        limit,
        offset,
    );
}

/// Law: a warm feed read serves a fanned-out post. When a follower's index
/// holds a post's id, its live cached body is the post's encoding, and the
/// read window starts at the top with room for the follower's whole index,
/// the page the cache serves that follower contains the post.
pub proof fn lemma_warm_feed_serves_entry(
    cache: FeedCache,
    viewer: u64,
    p: PostView,
    limit: Option<u64>,
    offset: Option<u64>,
    now: u64,
)
    requires
        crate::feed_cache::index_has(cache.index@, viewer, p.id),
        crate::feed_cache::live_body(cache.bodies_view(), p.id, now) == Some(encode_spec(p)),
        crate::post_store::eff_offset(offset) == 0,
        crate::feed_cache::entries_of(cache.index@, viewer).len()
            <= crate::post_store::eff_limit(limit),
    ensures
        exists|j: int|
            0 <= j < cache_served(cache, viewer, limit, offset, now).len()
                && #[trigger] cache_served(cache, viewer, limit, offset, now)[j] == p,
{
    let entries = crate::feed_cache::entries_of(cache.index@, viewer);
    let ids = page_ids_spec(cache.index@, viewer, limit, offset);
    crate::feed_cache::lemma_entries_of_has(cache.index@, viewer, p.id);
    let k = choose|k: int|
        0 <= k < entries.len() && (#[trigger] entries[k]).post_id == p.id;
    assert(ids =~= entries.map_values(|r: crate::feed_cache::IndexRow| r.post_id)) by {
        assert(entries.subrange(0, entries.len() as int) =~= entries);
    }
    assert(ids[k] == p.id);
    crate::codec::lemma_codec_round_trip(p);
    crate::feed_cache::lemma_hydrate_includes(cache.bodies_view(), ids, now, k);
    let h = hydrate_spec(cache.bodies_view(), ids, now);
    let served = decode_spec(
        crate::feed_cache::live_body(cache.bodies_view(), ids[k], now)->0,
    )->0;
    assert(served == p);
    let j = choose|j: int| 0 <= j < h.len() && #[trigger] h[j] == served;
    assert(cache_served(cache, viewer, limit, offset, now)[j] == p);
}

} // verus!
