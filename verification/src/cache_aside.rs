//! The cache-aside read primitive, instantiated at its one point of use:
//! reading a post by id through the shared body store. Read the cache; on a
//! hit deserialize and return; on unavailability, a missing or expired
//! entry, or a body that does not deserialize, compute from the
//! authoritative store and, when that succeeds, repopulate the cache for one
//! TTL. Cache faults never fail the call: with the cache entirely
//! unavailable the result is exactly the computed one, and the only error
//! that can surface is the compute's own.

use vstd::prelude::*;

use crate::codec::{decode_spec, decode_post, encode_spec};
use crate::feed_cache::{FeedCache, live_body, put_body};
use crate::post::{Post, PostView};
use crate::post_store::{PostError, PostStore, find_post, post_err};

verus! {

/// The result the authoritative store alone would give: what `compute`
/// returns in the cache-aside contract.
pub open spec fn compute_spec(store: PostStore, post_id: u64) -> Result<PostView, PostError> {
    if store.fault is Some {
        Err(post_err(store.fault->0))
    } else {
        match find_post(store.posts_view(), post_id) {
            Some(q) => Ok(q),
            None => Err(PostError::NotFound),
        }
    }
}

/// The view of a post-or-error result.
pub open spec fn post_result_view(r: Result<Post, PostError>) -> Result<PostView, PostError> {
    match r {
        Ok(p) => Ok(p@),
        Err(e) => Err(e),
    }
}

/// The post the cache alone can serve for `post_id` at `now`: a live body
/// that deserializes.
pub open spec fn cached_hit(cache: FeedCache, post_id: u64, now: u64) -> Option<PostView> {
    match live_body(cache.bodies_view(), post_id, now) {
        Some(bytes) => decode_spec(bytes),
        None => None,
    }
}

/// Cache-aside read of a post. The laws of the degrade policy are the
/// contract: a hit is served as cached with nothing recomputed; every other
/// case returns exactly the computed result, so with the cache entirely
/// unavailable the call equals the compute alone, changes nothing, and
/// surfaces no error the compute itself did not produce.
pub fn get_or_compute(cache: &mut FeedCache, store: &PostStore, post_id: u64, now: u64) -> (r:
    Result<Post, PostError>)
    requires
        old(cache).wf(),
        store.wf(),
    ensures
        final(cache).wf(),
        final(cache).available == old(cache).available,
        final(cache).markers == old(cache).markers,
        final(cache).index == old(cache).index,
        // hit: served from the cache, nothing recomputed or written
        old(cache).available && cached_hit(*old(cache), post_id, now) is Some ==> r is Ok
            && r->Ok_0@ == cached_hit(*old(cache), post_id, now)->0 && final(cache).bodies == old(
            cache,
        ).bodies,
        // miss or unavailable: exactly the computed result
        !(old(cache).available && cached_hit(*old(cache), post_id, now) is Some)
            ==> post_result_view(r) == compute_spec(*store, post_id),
        // a successful compute repopulates a reachable cache for one TTL
        old(cache).available && cached_hit(*old(cache), post_id, now) is None && compute_spec(
            *store,
            post_id,
        ) is Ok ==> final(cache).bodies_view() == put_body(
            old(cache).bodies_view(),
            post_id,
            encode_spec(compute_spec(*store, post_id)->Ok_0),
            crate::expiry_at(now),
        ),
        // an unreachable cache, and a failed compute, write nothing
        !old(cache).available ==> final(cache).bodies == old(cache).bodies,
        compute_spec(*store, post_id) is Err && cached_hit(*old(cache), post_id, now) is None
            ==> final(cache).bodies == old(cache).bodies,
{
    match cache.read_body(post_id, now) {
        Some(bytes) => {
            match decode_post(&bytes) {
                Some(p) => {
                    return Ok(p);
                },
                None => {},
            }
        },
        None => {},
    }
    match store.get(post_id) {
        Ok(p) => {
            proof {
                crate::post_store::lemma_find_post_id(store.posts_view(), post_id);
            }
            cache.store_body(&p, now);
            Ok(p)
        },
        Err(e) => Err(e),
    }
}

} // verus!
