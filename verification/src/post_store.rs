//! The authoritative post store. Posts are kept in feed order — newest
//! creation time first, ties towards the larger id — so a feed page is a
//! slice of a filter. Mutation is author-scoped: updating or deleting a post
//! that does not exist and one the caller does not own fail with the same
//! `NotUpdated` error, indistinguishable by design.

use vstd::prelude::*;

use crate::{DEFAULT_FEED_SIZE, StoreFault};
use crate::post::{Post, PostView, lemma_post_seq_view_push, newer_than, post_seq_view};
use crate::relationship::{RelationshipStore, is_follower};

verus! {

/// How a post operation fails. `NotUpdated` covers a mutation whose id and
/// caller matched no row; `NotFound` a point lookup of an absent id.
#[derive(Clone, Copy, Debug, PartialEq, Eq, Structural)]
pub enum PostError {
    Storage,
    Pool,
    NotUpdated,
    NotFound,
}

/// The error a store fault surfaces as.
pub open spec fn post_err(f: StoreFault) -> PostError {
    match f {
        StoreFault::Storage => PostError::Storage,
        StoreFault::Pool => PostError::Pool,
    }
}

fn post_err_of(f: StoreFault) -> (r: PostError)
    ensures
        r == post_err(f),
{
    match f {
        StoreFault::Storage => PostError::Storage,
        StoreFault::Pool => PostError::Pool,
    }
}

/// Feed order: strictly descending by creation time, ties towards the
/// larger id.
pub open spec fn sorted_feed_order(s: Seq<PostView>) -> bool {
    forall|i: int, j: int|
        #![trigger s[i], s[j]]
        0 <= i < j < s.len() ==> newer_than(s[i], s[j])
}

/// The post with this id, if any (first match; ids are unique in a
/// well-formed store).
pub open spec fn find_post(s: Seq<PostView>, id: u64) -> Option<PostView>
    decreases s.len(),
{
    if s.len() == 0 {
        None
    } else if s[0].id == id {
        Some(s[0])
    } else {
        find_post(s.drop_first(), id)
    }
}

/// The post with this id and author, if any (first match).
pub open spec fn authored_post(s: Seq<PostView>, id: u64, author: u64) -> Option<PostView>
    decreases s.len(),
{
    if s.len() == 0 {
        None
    } else if s[0].id == id && s[0].author == author {
        Some(s[0])
    } else {
        authored_post(s.drop_first(), id, author)
    }
}

/// `p` with a new text body and update time; id, author and creation time
/// keep their places.
pub open spec fn with_new_text(p: PostView, text: Seq<u8>, now: u64) -> PostView {
    PostView { text, updated_at: now, ..p }
}

/// The store's posts after an author-scoped text update (first match).
pub open spec fn update_authored(
    s: Seq<PostView>,
    id: u64,
    author: u64,
    text: Seq<u8>,
    now: u64,
) -> Seq<PostView>
    decreases s.len(),
{
    if s.len() == 0 {
        s
    } else if s[0].id == id && s[0].author == author {
        seq![with_new_text(s[0], text, now)] + s.drop_first()
    } else {
        seq![s[0]] + update_authored(s.drop_first(), id, author, text, now)
    }
}

/// The store's posts after an author-scoped deletion (first match).
pub open spec fn remove_authored(s: Seq<PostView>, id: u64, author: u64) -> Seq<PostView>
    decreases s.len(),
{
    if s.len() == 0 {
        s
    } else if s[0].id == id && s[0].author == author {
        s.drop_first()
    } else {
        seq![s[0]] + remove_authored(s.drop_first(), id, author)
    }
}

/// `s` with `p` placed at its feed position: before the first entry it is
/// newer than.
pub open spec fn insert_feed(s: Seq<PostView>, p: PostView) -> Seq<PostView>
    decreases s.len(),
{
    if s.len() == 0 {
        seq![p]
    } else if newer_than(p, s[0]) {
        seq![p] + s
    } else {
        seq![s[0]] + insert_feed(s.drop_first(), p)
    }
}

/// The posts of `s` whose author `viewer` follows, in store (feed) order.
pub open spec fn visible_posts(
    s: Seq<PostView>,
    edges: Seq<crate::relationship::Relationship>,
    viewer: u64,
) -> Seq<PostView>
    decreases s.len(),
{
    if s.len() == 0 {
        Seq::empty()
    } else {
        let rest = visible_posts(s.drop_last(), edges, viewer);
        if is_follower(edges, viewer, s.last().author) {
            rest.push(s.last())
        } else {
            rest
        }
    }
}

/// The page limit actually applied: the default page size when unset.
pub open spec fn eff_limit(limit: Option<u64>) -> u64 {
    match limit {
        Some(l) => l,
        None => DEFAULT_FEED_SIZE,
    }
}

/// The offset actually applied: zero when unset.
pub open spec fn eff_offset(offset: Option<u64>) -> u64 {
    match offset {
        Some(o) => o,
        None => 0,
    }
}

/// The `offset`/`limit` window of `s`, clamped to its length.
pub open spec fn page_of(s: Seq<PostView>, offset: u64, limit: u64) -> Seq<PostView> {
    let n = s.len() as int;
    let start: int = if offset as int <= n {
        offset as int
    } else {
        n
    };
    let end: int = if offset as int + limit as int <= n {
        offset as int + limit as int
    } else {
        n
    };
    s.subrange(start, end)
}

/// What a feed read returns straight from the authoritative stores.
pub open spec fn feed_page_spec(
    posts: Seq<PostView>,
    edges: Seq<crate::relationship::Relationship>,
    viewer: u64,
    limit: Option<u64>,
    offset: Option<u64>,
) -> Seq<PostView> {
    page_of(visible_posts(posts, edges, viewer), eff_offset(offset), eff_limit(limit))
}

/// The post store: persisted posts in feed order, the next id to assign,
/// and a fault flag standing for a backing-store connectivity or pool
/// failure. While the flag is set, every operation fails with the matching
/// error and changes nothing.
pub struct PostStore {
    pub fault: Option<StoreFault>,
    pub posts: Vec<Post>,
    pub next_id: u64,
}

impl PostStore {
    /// The store's posts as mathematical values.
    pub open spec fn posts_view(self) -> Seq<PostView> {
        post_seq_view(self.posts@)
    }

    /// The store's invariant: feed order, unique ids, all ids below the
    /// next one to assign.
    pub open spec fn wf(self) -> bool {
        &&& sorted_feed_order(self.posts_view())
        &&& forall|i: int, j: int|
            #![trigger self.posts_view()[i].id, self.posts_view()[j].id]
            0 <= i < j < self.posts_view().len() ==> self.posts_view()[i].id
                != self.posts_view()[j].id
        &&& forall|i: int|
            0 <= i < self.posts_view().len() ==> (#[trigger] self.posts_view()[i]).id
                < self.next_id
    }

    /// Whether an id is left to assign.
    pub open spec fn can_assign_id(self) -> bool {
        self.next_id < u64::MAX
    }

    /// An empty, healthy store that assigns ids from `1`.
    pub fn new() -> (r: PostStore)
        ensures
            r.wf(),
            r.fault is None,
            r.can_assign_id(),
            r.posts_view() =~= Seq::<PostView>::empty(),
            r.next_id == 1,
    {
        PostStore { fault: None, posts: Vec::new(), next_id: 1 }
    }

    /// Persists a new post by `author` at time `now`: it gets the next id,
    /// equal creation and update times, and its place in feed order. The
    /// created post is returned; a store fault propagates and changes
    /// nothing.
    pub fn create(&mut self, author: u64, text: Vec<u8>, now: u64) -> (r: Result<Post, PostError>)
        requires
            old(self).wf(),
            old(self).can_assign_id(),
        ensures
            final(self).wf(),
            final(self).fault == old(self).fault,
            old(self).fault is Some ==> r == Err::<Post, PostError>(post_err(old(self).fault->0))
                && *final(self) == *old(self),
            old(self).fault is None ==> ({
                let p = (PostView {
                    id: old(self).next_id,
                    author,
                    text: text@,
                    created_at: now,
                    updated_at: now,
                });
                &&& r is Ok
                &&& r->Ok_0@ == p
                &&& final(self).posts_view() == insert_feed(old(self).posts_view(), p)
                &&& final(self).next_id == old(self).next_id + 1
            }),
    {
        if let Some(f) = self.fault {
            return Err(post_err_of(f));
        }
        let id = self.next_id;
        self.next_id = self.next_id + 1;
        let post = Post { id, author, text, created_at: now, updated_at: now };
        let ret = post.duplicate();
        let pos = find_feed_position(&self.posts, &post);
        proof {
            lemma_insert_feed_at(old(self).posts_view(), post@, pos as int);
            lemma_wf_insert_feed(old(self).posts_view(), post@, pos as int, self.next_id);
        }
        self.posts.insert(pos, post);
        proof {
            assert(self.posts_view() =~= old(self).posts_view().insert(pos as int, ret@));
        }
        Ok(ret)
    }

    /// Replaces the text of the caller's post `post_id` at time `now` and
    /// returns the updated post. When no post has this id and author —
    /// whether the id is absent or the post belongs to someone else is not
    /// distinguishable — nothing changes and the result is `NotUpdated`.
    pub fn update(&mut self, author: u64, post_id: u64, text: Vec<u8>, now: u64) -> (r: Result<
        Post,
        PostError,
    >)
        requires
            old(self).wf(),
        ensures
            final(self).wf(),
            final(self).fault == old(self).fault,
            final(self).next_id == old(self).next_id,
            old(self).fault is Some ==> r == Err::<Post, PostError>(post_err(old(self).fault->0))
                && *final(self) == *old(self),
            old(self).fault is None ==> match authored_post(
                old(self).posts_view(),
                post_id,
                author,
            ) {
                Some(q) => r is Ok && r->Ok_0@ == with_new_text(q, text@, now) && final(self).posts_view() == update_authored(
                    old(self).posts_view(),
                    post_id,
                    author,
                    text@,
                    now,
                ),
                None => r == Err::<Post, PostError>(PostError::NotUpdated) && *final(self)
                    == *old(self),
            },
    {
        if let Some(f) = self.fault {
            return Err(post_err_of(f));
        }
        match find_index_authored(&self.posts, post_id, author) {
            Some(i) => {
                proof {
                    lemma_authored_first(self.posts_view(), post_id, author, i as int);
                    lemma_update_authored_first(
                        self.posts_view(),
                        post_id,
                        author,
                        i as int,
                        text@,
                        now,
                    );
                }
                let cur_created = self.posts[i].created_at;
                let updated = Post {
                    id: post_id,
                    author,
                    text,
                    created_at: cur_created,
                    updated_at: now,
                };
                let ret = updated.duplicate();
                proof {
                    lemma_wf_point_update(old(self).posts_view(), i as int, updated@,
                        old(self).next_id);
                }
                self.posts.set(i, updated);
                proof {
                    assert(self.posts_view() =~= old(self).posts_view().update(i as int, ret@));
                }
                Ok(ret)
            },
            None => {
                proof {
                    lemma_authored_none(self.posts_view(), post_id, author);
                }
                Err(PostError::NotUpdated)
            },
        }
    }

    /// Deletes the caller's post `post_id`. The miss case reports
    /// `NotUpdated` exactly as `update` does, and for the same two
    /// indistinguishable reasons.
    pub fn delete(&mut self, author: u64, post_id: u64) -> (r: Result<(), PostError>)
        requires
            old(self).wf(),
        ensures
            final(self).wf(),
            final(self).fault == old(self).fault,
            final(self).next_id == old(self).next_id,
            old(self).fault is Some ==> r == Err::<(), PostError>(post_err(old(self).fault->0))
                && *final(self) == *old(self),
            old(self).fault is None ==> match authored_post(
                old(self).posts_view(),
                post_id,
                author,
            ) {
                Some(q) => r is Ok && final(self).posts_view() == remove_authored(
                    old(self).posts_view(),
                    post_id,
                    author,
                ),
                None => r == Err::<(), PostError>(PostError::NotUpdated) && *final(self)
                    == *old(self),
            },
    {
        if let Some(f) = self.fault {
            return Err(post_err_of(f));
        }
        match find_index_authored(&self.posts, post_id, author) {
            Some(i) => {
                proof {
                    lemma_authored_first(self.posts_view(), post_id, author, i as int);
                    lemma_remove_authored_first(self.posts_view(), post_id, author, i as int);
                    lemma_wf_remove(old(self).posts_view(), i as int, old(self).next_id);
                }
                self.posts.remove(i);
                proof {
                    assert(self.posts_view() =~= old(self).posts_view().remove(i as int));
                }
                Ok(())
            },
            None => {
                proof {
                    lemma_authored_none(self.posts_view(), post_id, author);
                }
                Err(PostError::NotUpdated)
            },
        }
    }

    /// Point lookup: the post with this id, or `NotFound`.
    pub fn get(&self, post_id: u64) -> (r: Result<Post, PostError>)
        requires
            self.wf(),
        ensures
            self.fault is Some ==> r == Err::<Post, PostError>(post_err(self.fault->0)),
            self.fault is None ==> match find_post(self.posts_view(), post_id) {
                Some(q) => r is Ok && r->Ok_0@ == q,
                None => r == Err::<Post, PostError>(PostError::NotFound),
            },
    {
        if let Some(f) = self.fault {
            return Err(post_err_of(f));
        }
        match find_index_by_id(&self.posts, post_id) {
            Some(i) => {
                proof {
                    lemma_find_post_first(self.posts_view(), post_id, i as int);
                }
                Ok(self.posts[i].duplicate())
            },
            None => {
                proof {
                    lemma_find_post_none(self.posts_view(), post_id);
                }
                Err(PostError::NotFound)
            },
        }
    }

    /// The authoritative feed query: posts authored by users the viewer
    /// follows, in feed order, windowed by `offset` (default 0) and `limit`
    /// (default `DEFAULT_FEED_SIZE`). Reads both stores; a fault in either
    /// propagates.
    pub fn feed_page(
        &self,
        rels: &RelationshipStore,
        viewer: u64,
        limit: Option<u64>,
        offset: Option<u64>,
    ) -> (r: Result<Vec<Post>, PostError>)
        requires
            self.wf(),
        ensures
            self.fault is Some ==> r == Err::<Vec<Post>, PostError>(post_err(self.fault->0)),
            self.fault is None && rels.fault is Some ==> r == Err::<Vec<Post>, PostError>(
                post_err(rels.fault->0),
            ),
            self.fault is None && rels.fault is None ==> r is Ok && post_seq_view(r->Ok_0@)
                == feed_page_spec(self.posts_view(), rels.edges@, viewer, limit, offset),
    {
        if let Some(f) = self.fault {
            return Err(post_err_of(f));
        }
        if let Some(f) = rels.fault {
            return Err(post_err_of(f));
        }
        let ghost v = self.posts_view();
        let mut vis: Vec<Post> = Vec::new();
        let mut i: usize = 0;
        while i < self.posts.len()
            invariant
                i <= self.posts@.len(),
                v == self.posts_view(),
                post_seq_view(vis@) == visible_posts(v.take(i as int), rels.edges@, viewer),
            decreases self.posts@.len() - i,
        {
            let ghost prev = vis@;
            let p = &self.posts[i];
            proof {
                assert(v.take(i + 1 as int).drop_last() =~= v.take(i as int));
                assert(v.take(i + 1 as int).last() == v[i as int]);
            }
            if rels.is_follower_of(viewer, p.author) {
                vis.push(p.duplicate());
                proof {
                    lemma_post_seq_view_push(prev, vis@.last());
                    assert(vis@ =~= prev.push(vis@.last()));
                }
            }
            i = i + 1;
        }
        proof {
            assert(v.take(self.posts@.len() as int) =~= v);
        }
        let total: usize = vis.len();
        let lim: u64 = match limit {
            Some(l) => l,
            None => DEFAULT_FEED_SIZE,
        };
        let off: u64 = match offset {
            Some(o) => o,
            None => 0,
        };
        let start_w: u64 = if off <= total as u64 {
            off
        } else {
            total as u64
        };
        let reach: u64 = off.saturating_add(lim);
        let end_w: u64 = if reach <= total as u64 {
            reach
        } else {
            total as u64
        };
        let start: usize = start_w as usize;
        let end: usize = end_w as usize;
        let mut out: Vec<Post> = Vec::new();
        let mut k: usize = start;
        while k < end
            invariant
                start <= k <= end,
                end <= vis@.len(),
                post_seq_view(out@) == post_seq_view(vis@).subrange(start as int, k as int),
            decreases end - k,
        {
            let ghost prev = out@;
            out.push(vis[k].duplicate());
            proof {
                lemma_post_seq_view_push(prev, out@.last());
                assert(out@ =~= prev.push(out@.last()));
                assert(post_seq_view(out@) =~= post_seq_view(vis@).subrange(
                    start as int,
                    k + 1 as int,
                ));
            }
            k = k + 1;
        }
        proof {
            assert(post_seq_view(out@) =~= feed_page_spec(
                self.posts_view(),
                rels.edges@,
                viewer,
                limit,
                offset,
            ));
        }
        Ok(out)
    }
}

/// Index of the first post with this id, in store order.
fn find_index_by_id(posts: &Vec<Post>, id: u64) -> (r: Option<usize>)
    ensures
        match r {
            Some(i) => i < posts@.len() && post_seq_view(posts@)[i as int].id == id && forall|
                j: int,
            | 0 <= j < i ==> (#[trigger] post_seq_view(posts@)[j]).id != id,
            None => forall|j: int|
                0 <= j < posts@.len() ==> (#[trigger] post_seq_view(posts@)[j]).id != id,
        },
{
    let mut i: usize = 0;
    while i < posts.len()
        invariant
            i <= posts@.len(),
            forall|j: int| 0 <= j < i ==> (#[trigger] post_seq_view(posts@)[j]).id != id,
        decreases posts@.len() - i,
    {
        if posts[i].id == id {
            return Some(i);
        }
        i = i + 1;
    }
    None
}

/// Index of the first post with this id and author, in store order.
fn find_index_authored(posts: &Vec<Post>, id: u64, author: u64) -> (r: Option<usize>)
    ensures
        match r {
            Some(i) => i < posts@.len() && post_seq_view(posts@)[i as int].id == id
                && post_seq_view(posts@)[i as int].author == author && forall|j: int|
                0 <= j < i ==> !((#[trigger] post_seq_view(posts@)[j]).id == id && post_seq_view(
                    posts@,
                )[j].author == author),
            None => forall|j: int|
                0 <= j < posts@.len() ==> !((#[trigger] post_seq_view(posts@)[j]).id == id
                    && post_seq_view(posts@)[j].author == author),
        },
{
    let mut i: usize = 0;
    while i < posts.len()
        invariant
            i <= posts@.len(),
            forall|j: int|
                0 <= j < i ==> !((#[trigger] post_seq_view(posts@)[j]).id == id && post_seq_view(
                    posts@,
                )[j].author == author),
        decreases posts@.len() - i,
    {
        if posts[i].id == id && posts[i].author == author {
            return Some(i);
        }
        i = i + 1;
    }
    None
}

/// The feed position of `p`: the index of the first stored post it is newer
/// than, or the end.
fn find_feed_position(posts: &Vec<Post>, p: &Post) -> (i: usize)
    ensures
        i <= posts@.len(),
        forall|j: int| 0 <= j < i ==> !newer_than(p@, #[trigger] post_seq_view(posts@)[j]),
        i < posts@.len() ==> newer_than(p@, post_seq_view(posts@)[i as int]),
{
    let mut i: usize = 0;
    while i < posts.len()
        invariant
            i <= posts@.len(),
            forall|j: int| 0 <= j < i ==> !newer_than(p@, #[trigger] post_seq_view(posts@)[j]),
        decreases posts@.len() - i,
    {
        if p.is_newer_than(&posts[i]) {
            return i;
        }
        i = i + 1;
    }
    i
}

// A visible head stays the head of the visible posts.
proof fn lemma_visible_cons(
    p: PostView,
    rest: Seq<PostView>,
    edges: Seq<crate::relationship::Relationship>,
    viewer: u64,
)
    requires
        is_follower(edges, viewer, p.author),
    ensures
        visible_posts(seq![p] + rest, edges, viewer) == seq![p] + visible_posts(
            rest,
            edges,
            viewer,
        ),
    decreases rest.len(),
{
    let s = seq![p] + rest;
    if rest.len() == 0 {
        assert(s.drop_last() =~= rest);
        assert(s.last() == p);
        assert(visible_posts(s, edges, viewer) =~= seq![p] + visible_posts(rest, edges, viewer));
    } else {
        assert(s.drop_last() =~= seq![p] + rest.drop_last());
        assert(s.last() == rest.last());
        lemma_visible_cons(p, rest.drop_last(), edges, viewer);
        if is_follower(edges, viewer, rest.last().author) {
            assert((seq![p] + visible_posts(rest.drop_last(), edges, viewer)).push(rest.last())
                =~= seq![p] + visible_posts(rest.drop_last(), edges, viewer).push(rest.last()));
        }
    }
}

/// Law: an on-demand rebuild includes a fresh post. When a viewer follows a
/// post's author, the post is newer than everything stored, and the read
/// window starts at the top with room for at least one entry, the
/// authoritative feed page opens with that post — so the fallback read a
/// cold or expired marker forces returns it.
pub proof fn lemma_rebuild_includes_post(
    posts: Seq<PostView>,
    edges: Seq<crate::relationship::Relationship>,
    viewer: u64,
    p: PostView,
    limit: Option<u64>,
    offset: Option<u64>,
)
    requires
        is_follower(edges, viewer, p.author),
        forall|i: int| 0 <= i < posts.len() ==> newer_than(p, #[trigger] posts[i]),
        eff_offset(offset) == 0,
        eff_limit(limit) >= 1,
    ensures
        feed_page_spec(insert_feed(posts, p), edges, viewer, limit, offset).len() > 0,
        feed_page_spec(insert_feed(posts, p), edges, viewer, limit, offset)[0] == p,
{
    if posts.len() == 0 {
        assert(insert_feed(posts, p) =~= seq![p] + Seq::<PostView>::empty());
        lemma_visible_cons(p, Seq::<PostView>::empty(), edges, viewer);
    } else {
        assert(insert_feed(posts, p) == seq![p] + posts);
        lemma_visible_cons(p, posts, edges, viewer);
    }
    let vis = visible_posts(insert_feed(posts, p), edges, viewer);
    assert(vis[0] == p);
    let page = page_of(vis, eff_offset(offset), eff_limit(limit));
    assert(page[0] == vis[0]);
}

/// A post found by id and author carries that id and author.
pub proof fn lemma_authored_ids(s: Seq<PostView>, id: u64, author: u64)
    ensures
        authored_post(s, id, author) matches Some(q) ==> q.id == id && q.author == author,
    decreases s.len(),
{
    if s.len() > 0 {
        lemma_authored_ids(s.drop_first(), id, author);
    }
}

/// A found post carries the id it was looked up by.
pub proof fn lemma_find_post_id(s: Seq<PostView>, id: u64)
    ensures
        find_post(s, id) matches Some(q) ==> q.id == id,
    decreases s.len(),
{
    if s.len() > 0 {
        lemma_find_post_id(s.drop_first(), id);
    }
}

proof fn lemma_find_post_first(s: Seq<PostView>, id: u64, i: int)
    requires
        0 <= i < s.len(),
        s[i].id == id,
        forall|j: int| 0 <= j < i ==> (#[trigger] s[j]).id != id,
    ensures
        find_post(s, id) == Some(s[i]),
    decreases i,
{
    if i > 0 {
        lemma_find_post_first(s.drop_first(), id, i - 1);
    }
}

proof fn lemma_find_post_none(s: Seq<PostView>, id: u64)
    requires
        forall|j: int| 0 <= j < s.len() ==> (#[trigger] s[j]).id != id,
    ensures
        find_post(s, id) is None,
    decreases s.len(),
{
    if s.len() > 0 {
        lemma_find_post_none(s.drop_first(), id);
    }
}

proof fn lemma_authored_first(s: Seq<PostView>, id: u64, author: u64, i: int)
    requires
        0 <= i < s.len(),
        s[i].id == id && s[i].author == author,
        forall|j: int| 0 <= j < i ==> !((#[trigger] s[j]).id == id && s[j].author == author),
    ensures
        authored_post(s, id, author) == Some(s[i]),
    decreases i,
{
    if i > 0 {
        lemma_authored_first(s.drop_first(), id, author, i - 1);
    }
}

proof fn lemma_authored_none(s: Seq<PostView>, id: u64, author: u64)
    requires
        forall|j: int|
            0 <= j < s.len() ==> !((#[trigger] s[j]).id == id && s[j].author == author),
    ensures
        authored_post(s, id, author) is None,
    decreases s.len(),
{
    if s.len() > 0 {
        lemma_authored_none(s.drop_first(), id, author);
    }
}

proof fn lemma_update_authored_first(
    s: Seq<PostView>,
    id: u64,
    author: u64,
    i: int,
    text: Seq<u8>,
    now: u64,
)
    requires
        0 <= i < s.len(),
        s[i].id == id && s[i].author == author,
        forall|j: int| 0 <= j < i ==> !((#[trigger] s[j]).id == id && s[j].author == author),
    ensures
        update_authored(s, id, author, text, now) == s.update(
            i,
            with_new_text(s[i], text, now),
        ),
    decreases i,
{
    if i == 0 {
        assert(seq![with_new_text(s[0], text, now)] + s.drop_first() =~= s.update(
            0,
            with_new_text(s[0], text, now),
        ));
    } else {
        lemma_update_authored_first(s.drop_first(), id, author, i - 1, text, now);
        assert(seq![s[0]] + s.drop_first().update(i - 1, with_new_text(s[i], text, now)) =~= s
            .update(i, with_new_text(s[i], text, now)));
    }
}

proof fn lemma_remove_authored_first(s: Seq<PostView>, id: u64, author: u64, i: int)
    requires
        0 <= i < s.len(),
        s[i].id == id && s[i].author == author,
        forall|j: int| 0 <= j < i ==> !((#[trigger] s[j]).id == id && s[j].author == author),
    ensures
        remove_authored(s, id, author) == s.remove(i),
    decreases i,
{
    if i == 0 {
        assert(s.drop_first() =~= s.remove(0));
    } else {
        lemma_remove_authored_first(s.drop_first(), id, author, i - 1);
        assert(seq![s[0]] + s.drop_first().remove(i - 1) =~= s.remove(i));
    }
}

proof fn lemma_insert_feed_at(s: Seq<PostView>, p: PostView, i: int)
    requires
        0 <= i <= s.len(),
        forall|j: int| 0 <= j < i ==> !newer_than(p, #[trigger] s[j]),
        i < s.len() ==> newer_than(p, s[i]),
    ensures
        insert_feed(s, p) == s.insert(i, p),
    decreases i,
{
    if i == 0 {
        if s.len() == 0 {
            assert(seq![p] =~= s.insert(0, p));
        } else {
            assert(seq![p] + s =~= s.insert(0, p));
        }
    } else {
        lemma_insert_feed_at(s.drop_first(), p, i - 1);
        assert(seq![s[0]] + s.drop_first().insert(i - 1, p) =~= s.insert(i, p));
    }
}

// Inserting a post with a fresh, maximal id at its scan position keeps the
// store invariant, for the incremented id bound.
proof fn lemma_wf_insert_feed(s: Seq<PostView>, p: PostView, i: int, bound: u64)
    requires
        sorted_feed_order(s),
        forall|x: int, y: int|
            #![trigger s[x].id, s[y].id]
            0 <= x < y < s.len() ==> s[x].id != s[y].id,
        forall|x: int| 0 <= x < s.len() ==> (#[trigger] s[x]).id < p.id,
        p.id < bound,
        0 <= i <= s.len(),
        forall|j: int| 0 <= j < i ==> !newer_than(p, #[trigger] s[j]),
        i < s.len() ==> newer_than(p, s[i]),
    ensures
        sorted_feed_order(s.insert(i, p)),
        forall|x: int, y: int|
            #![trigger s.insert(i, p)[x].id, s.insert(i, p)[y].id]
            0 <= x < y < s.insert(i, p).len() ==> s.insert(i, p)[x].id != s.insert(i, p)[y].id,
        forall|x: int|
            0 <= x < s.insert(i, p).len() ==> (#[trigger] s.insert(i, p)[x]).id < bound,
{
    let r = s.insert(i, p);
    s.insert_ensures(i, p);
    assert forall|x: int, y: int|
        #![trigger r[x], r[y]]
        0 <= x < y < r.len() implies newer_than(r[x], r[y]) by {
        if x < i && y < i {
            assert(newer_than(s[x], s[y]));
        } else if x < i && y == i {
            // r[y] is p: anything the scan passed over is newer than p,
            // because ids never tie.
            assert(!newer_than(p, s[x]));
            assert(s[x].id != p.id);
        } else if x < i && y > i {
            assert(newer_than(s[x], s[y - 1]));
        } else if x == i && y > i {
            if y - 1 > i {
                assert(newer_than(s[i], s[y - 1]));
            }
            assert(newer_than(p, s[y - 1]));
        } else if x > i && y > i {
            assert(newer_than(s[x - 1], s[y - 1]));
        }
    }
    assert forall|x: int, y: int|
        #![trigger r[x].id, r[y].id]
        0 <= x < y < r.len() implies r[x].id != r[y].id by {
        if x != i && y != i {
            let xo: int = if x < i { x } else { x - 1 };
            let yo: int = if y < i { y } else { y - 1 };
            assert(s[xo].id != s[yo].id);
        }
    }
    assert forall|x: int| 0 <= x < r.len() implies (#[trigger] r[x]).id < bound by {
        if x != i {
            let xo: int = if x < i { x } else { x - 1 };
            assert(s[xo].id < p.id);
        }
    }
}

// A point update that keeps id and creation time keeps the store invariant.
proof fn lemma_wf_point_update(s: Seq<PostView>, i: int, q: PostView, bound: u64)
    requires
        sorted_feed_order(s),
        forall|x: int, y: int|
            #![trigger s[x].id, s[y].id]
            0 <= x < y < s.len() ==> s[x].id != s[y].id,
        forall|x: int| 0 <= x < s.len() ==> (#[trigger] s[x]).id < bound,
        0 <= i < s.len(),
        q.id == s[i].id,
        q.created_at == s[i].created_at,
    ensures
        sorted_feed_order(s.update(i, q)),
        forall|x: int, y: int|
            #![trigger s.update(i, q)[x].id, s.update(i, q)[y].id]
            0 <= x < y < s.update(i, q).len() ==> s.update(i, q)[x].id != s.update(i, q)[y].id,
        forall|x: int|
            0 <= x < s.update(i, q).len() ==> (#[trigger] s.update(i, q)[x]).id < bound,
{
    let r = s.update(i, q);
    assert forall|x: int, y: int|
        #![trigger r[x], r[y]]
        0 <= x < y < r.len() implies newer_than(r[x], r[y]) by {
        assert(newer_than(s[x], s[y]));
    }
}

// Removing an element keeps the store invariant.
proof fn lemma_wf_remove(s: Seq<PostView>, i: int, bound: u64)
    requires
        sorted_feed_order(s),
        forall|x: int, y: int|
            #![trigger s[x].id, s[y].id]
            0 <= x < y < s.len() ==> s[x].id != s[y].id,
        forall|x: int| 0 <= x < s.len() ==> (#[trigger] s[x]).id < bound,
        0 <= i < s.len(),
    ensures
        sorted_feed_order(s.remove(i)),
        forall|x: int, y: int|
            #![trigger s.remove(i)[x].id, s.remove(i)[y].id]
            0 <= x < y < s.remove(i).len() ==> s.remove(i)[x].id != s.remove(i)[y].id,
        forall|x: int| 0 <= x < s.remove(i).len() ==> (#[trigger] s.remove(i)[x]).id < bound,
{
    let r = s.remove(i);
    s.remove_ensures(i);
    assert forall|x: int, y: int|
        #![trigger r[x], r[y]]
        0 <= x < y < r.len() implies newer_than(r[x], r[y]) by {
        let xo: int = if x < i { x } else { x + 1 };
        let yo: int = if y < i { y } else { y + 1 };
        assert(newer_than(s[xo], s[yo]));
    }
    assert forall|x: int, y: int|
        #![trigger r[x].id, r[y].id]
        0 <= x < y < r.len() implies r[x].id != r[y].id by {
        let xo: int = if x < i { x } else { x + 1 };
        let yo: int = if y < i { y } else { y + 1 };
        assert(s[xo].id != s[yo].id);
    }
    assert forall|x: int| 0 <= x < r.len() implies (#[trigger] r[x]).id < bound by {
        let xo: int = if x < i { x } else { x + 1 };
        assert(s[xo].id < bound);
    }
}

} // verus!
