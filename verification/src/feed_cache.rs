//! The per-viewer materialized feed cache, strictly advisory: an ordered
//! index of post ids scored by creation time, a shared denormalized store of
//! serialized post bodies, and TTL-bounded materialization markers. The
//! `available` flag stands for the cache service being reachable; while it is
//! down every write is silently dropped and every read misses, and callers
//! degrade to the authoritative stores.

use vstd::prelude::*;

use crate::expiry_at;
use crate::codec::{decode_spec, decode_post, encode_spec, encode_post};
use crate::post::{Post, PostView, lemma_post_seq_view_push, post_seq_view};
use crate::post_store::{eff_limit, eff_offset};

verus! {

/// One entry of a viewer's ordered feed index: `post_id` scored by `score`
/// (the post's creation time).
#[derive(Clone, Copy, Debug, PartialEq, Eq, Structural)]
pub struct IndexRow {
    pub viewer: u64,
    pub post_id: u64,
    pub score: u64,
}

/// A serialized post body, keyed by post id, expiring at `expires_at`.
pub struct BodyRow {
    pub post_id: u64,
    pub bytes: Vec<u8>,
    pub expires_at: u64,
}

/// Mathematical image of a `BodyRow`.
pub struct BodyRowView {
    pub post_id: u64,
    pub bytes: Seq<u8>,
    pub expires_at: u64,
}

impl View for BodyRow {
    type V = BodyRowView;

    open spec fn view(&self) -> BodyRowView {
        BodyRowView { post_id: self.post_id, bytes: self.bytes@, expires_at: self.expires_at }
    }
}

/// The views of a body list.
pub open spec fn body_seq_view(s: Seq<BodyRow>) -> Seq<BodyRowView> {
    s.map_values(|b: BodyRow| b@)
}

/// A viewer's materialization marker, expiring at `expires_at`.
#[derive(Clone, Copy, Debug, PartialEq, Eq, Structural)]
pub struct MarkerRow {
    pub viewer: u64,
    pub expires_at: u64,
}

/// Storage order of the index: by viewer, then score descending, then post
/// id descending — so each viewer's entries sit together, newest first.
pub open spec fn row_before(a: IndexRow, b: IndexRow) -> bool {
    ||| a.viewer < b.viewer
    ||| (a.viewer == b.viewer && a.score > b.score)
    ||| (a.viewer == b.viewer && a.score == b.score && a.post_id > b.post_id)
}

/// The index is strictly ordered by `row_before`.
pub open spec fn sorted_index(s: Seq<IndexRow>) -> bool {
    forall|i: int, j: int|
        #![trigger s[i], s[j]]
        0 <= i < j < s.len() ==> row_before(s[i], s[j])
}

/// The body stored for a post id, if any (first match).
pub open spec fn body_of(bodies: Seq<BodyRowView>, id: u64) -> Option<BodyRowView>
    decreases bodies.len(),
{
    if bodies.len() == 0 {
        None
    } else if bodies[0].post_id == id {
        Some(bodies[0])
    } else {
        body_of(bodies.drop_first(), id)
    }
}

/// The body bytes readable for a post id at time `now`: stored and not yet
/// expired.
pub open spec fn live_body(bodies: Seq<BodyRowView>, id: u64, now: u64) -> Option<Seq<u8>> {
    match body_of(bodies, id) {
        Some(b) => if now < b.expires_at {
            Some(b.bytes)
        } else {
            None
        },
        None => None,
    }
}

/// The body list after upserting `id` (replace the existing row, else
/// append).
pub open spec fn put_body(
    bodies: Seq<BodyRowView>,
    id: u64,
    bytes: Seq<u8>,
    exp: u64,
) -> Seq<BodyRowView>
    decreases bodies.len(),
{
    if bodies.len() == 0 {
        seq![BodyRowView { post_id: id, bytes, expires_at: exp }]
    } else if bodies[0].post_id == id {
        seq![BodyRowView { post_id: id, bytes, expires_at: exp }] + bodies.drop_first()
    } else {
        seq![bodies[0]] + put_body(bodies.drop_first(), id, bytes, exp)
    }
}

/// The body list after dropping `id`, if present.
pub open spec fn drop_body(bodies: Seq<BodyRowView>, id: u64) -> Seq<BodyRowView>
    decreases bodies.len(),
{
    if bodies.len() == 0 {
        bodies
    } else if bodies[0].post_id == id {
        bodies.drop_first()
    } else {
        seq![bodies[0]] + drop_body(bodies.drop_first(), id)
    }
}

/// The expiry recorded for a viewer's marker, if any (first match).
pub open spec fn marker_of(markers: Seq<MarkerRow>, viewer: u64) -> Option<u64>
    decreases markers.len(),
{
    if markers.len() == 0 {
        None
    } else if markers[0].viewer == viewer {
        Some(markers[0].expires_at)
    } else {
        marker_of(markers.drop_first(), viewer)
    }
}

/// Whether a viewer's marker is present and unexpired at `now`.
pub open spec fn marker_live(markers: Seq<MarkerRow>, viewer: u64, now: u64) -> bool {
    match marker_of(markers, viewer) {
        Some(exp) => now < exp,
        None => false,
    }
}

/// The marker list after upserting a viewer's expiry.
pub open spec fn put_marker(markers: Seq<MarkerRow>, viewer: u64, exp: u64) -> Seq<MarkerRow>
    decreases markers.len(),
{
    if markers.len() == 0 {
        seq![MarkerRow { viewer, expires_at: exp }]
    } else if markers[0].viewer == viewer {
        seq![MarkerRow { viewer, expires_at: exp }] + markers.drop_first()
    } else {
        seq![markers[0]] + put_marker(markers.drop_first(), viewer, exp)
    }
}

/// The index after removing the entry for `(viewer, post_id)`, if present.
pub open spec fn drop_index_entry(s: Seq<IndexRow>, viewer: u64, post_id: u64) -> Seq<IndexRow>
    decreases s.len(),
{
    if s.len() == 0 {
        s
    } else if s[0].viewer == viewer && s[0].post_id == post_id {
        s.drop_first()
    } else {
        seq![s[0]] + drop_index_entry(s.drop_first(), viewer, post_id)
    }
}

/// The index with `row` placed at its storage position.
pub open spec fn insert_index_row(s: Seq<IndexRow>, row: IndexRow) -> Seq<IndexRow>
    decreases s.len(),
{
    if s.len() == 0 {
        seq![row]
    } else if row_before(row, s[0]) {
        seq![row] + s
    } else {
        seq![s[0]] + insert_index_row(s.drop_first(), row)
    }
}

/// The sorted-set upsert behind fan-out: a duplicate post id is replaced —
/// its score moves — never doubled.
pub open spec fn zadd(s: Seq<IndexRow>, viewer: u64, post_id: u64, score: u64) -> Seq<IndexRow> {
    insert_index_row(
        drop_index_entry(s, viewer, post_id),
        IndexRow { viewer, post_id, score },
    )
}

/// Whether the index holds an entry for `(viewer, post_id)`.
pub open spec fn index_has(s: Seq<IndexRow>, viewer: u64, post_id: u64) -> bool {
    exists|i: int|
        0 <= i < s.len() && (#[trigger] s[i]).viewer == viewer && s[i].post_id == post_id
}

/// A viewer's index entries, in storage (newest-first) order.
pub open spec fn entries_of(s: Seq<IndexRow>, viewer: u64) -> Seq<IndexRow>
    decreases s.len(),
{
    if s.len() == 0 {
        Seq::empty()
    } else {
        let rest = entries_of(s.drop_last(), viewer);
        if s.last().viewer == viewer {
            rest.push(s.last())
        } else {
            rest
        }
    }
}

/// The `offset`/`limit` window of a viewer's entries, as post ids.
pub open spec fn ids_window(e: Seq<IndexRow>, offset: u64, limit: u64) -> Seq<u64> {
    let n = e.len() as int;
    let start: int = if offset as int <= n {
        offset as int
    } else {
        n
    };
    let end: int = if offset as int + limit as int <= n {
        offset as int + limit as int
    } else {
        n
    };
    e.subrange(start, end).map_values(|r: IndexRow| r.post_id)
}

/// What `page_ids` returns for a viewer: the windowed reverse-range of the
/// ordered index.
pub open spec fn page_ids_spec(
    s: Seq<IndexRow>,
    viewer: u64,
    limit: Option<u64>,
    offset: Option<u64>,
) -> Seq<u64> {
    ids_window(entries_of(s, viewer), eff_offset(offset), eff_limit(limit))
}

/// The index after a post is fanned out to a list of followers, first to
/// last: one `zadd` per follower.
pub open spec fn fanout_index(
    s: Seq<IndexRow>,
    followers: Seq<u64>,
    post_id: u64,
    score: u64,
) -> Seq<IndexRow>
    decreases followers.len(),
{
    if followers.len() == 0 {
        s
    } else {
        fanout_index(zadd(s, followers[0], post_id, score), followers.drop_first(), post_id, score)
    }
}

/// The body store after a full-feed materialization upserts every page
/// post, first to last.
pub open spec fn rebuild_bodies(
    bodies: Seq<BodyRowView>,
    page: Seq<PostView>,
    now: u64,
) -> Seq<BodyRowView>
    decreases page.len(),
{
    if page.len() == 0 {
        bodies
    } else {
        rebuild_bodies(
            put_body(bodies, page[0].id, encode_spec(page[0]), expiry_at(now)),
            page.drop_first(),
            now,
        )
    }
}

/// The index after a full-feed materialization appends every page post id
/// for the viewer, first to last, scored by creation time.
pub open spec fn rebuild_index(
    s: Seq<IndexRow>,
    viewer: u64,
    page: Seq<PostView>,
) -> Seq<IndexRow>
    decreases page.len(),
{
    if page.len() == 0 {
        s
    } else {
        rebuild_index(zadd(s, viewer, page[0].id, page[0].created_at), viewer, page.drop_first())
    }
}

/// The posts the cache can serve for a list of ids at time `now`: each live
/// body decoded, ids with no usable body silently dropped.
pub open spec fn hydrate_spec(bodies: Seq<BodyRowView>, ids: Seq<u64>, now: u64) -> Seq<PostView>
    decreases ids.len(),
{
    if ids.len() == 0 {
        Seq::empty()
    } else {
        let rest = hydrate_spec(bodies, ids.drop_last(), now);
        match live_body(bodies, ids.last(), now) {
            Some(bytes) => match decode_spec(bytes) {
                Some(pv) => rest.push(pv),
                None => rest,
            },
            None => rest,
        }
    }
}

/// The feed cache. Three keyspaces — serialized bodies by post id, the
/// ordered per-viewer index, and the materialization markers — are held
/// apart by construction, so entries of one kind can never collide with
/// another.
pub struct FeedCache {
    pub available: bool,
    pub bodies: Vec<BodyRow>,
    pub markers: Vec<MarkerRow>,
    pub index: Vec<IndexRow>,
}

impl FeedCache {
    /// The cached bodies as mathematical values.
    pub open spec fn bodies_view(self) -> Seq<BodyRowView> {
        body_seq_view(self.bodies@)
    }

    /// The cache invariant: the index strictly ordered with one entry per
    /// `(viewer, post id)`, one body per post id, one marker per viewer.
    pub open spec fn wf(self) -> bool {
        &&& sorted_index(self.index@)
        &&& forall|i: int, j: int|
            #![trigger self.index@[i], self.index@[j]]
            0 <= i < j < self.index@.len() ==> !(self.index@[i].viewer == self.index@[j].viewer
                && self.index@[i].post_id == self.index@[j].post_id)
        &&& forall|i: int, j: int|
            #![trigger self.bodies_view()[i], self.bodies_view()[j]]
            0 <= i < j < self.bodies_view().len() ==> self.bodies_view()[i].post_id
                != self.bodies_view()[j].post_id
        &&& forall|i: int, j: int|
            #![trigger self.markers@[i], self.markers@[j]]
            0 <= i < j < self.markers@.len() ==> self.markers@[i].viewer
                != self.markers@[j].viewer
    }

    /// An empty cache; `available` says whether the cache service is
    /// reachable.
    pub fn new(available: bool) -> (r: FeedCache)
        ensures
            r.wf(),
            r.available == available,
            r.bodies_view() =~= Seq::<BodyRowView>::empty(),
            r.markers@ =~= Seq::<MarkerRow>::empty(),
            r.index@ =~= Seq::<IndexRow>::empty(),
    {
        FeedCache { available, bodies: Vec::new(), markers: Vec::new(), index: Vec::new() }
    }

    /// Whether a viewer's feed index was populated and its marker has not
    /// expired. An unreachable cache reads as not materialized.
    pub fn has_materialized(&self, viewer: u64, now: u64) -> (r: bool)
        ensures
            r == (self.available && marker_live(self.markers@, viewer, now)),
    {
        if !self.available {
            return false;
        }
        match find_marker_index(&self.markers, viewer) {
            Some(i) => {
                proof {
                    lemma_marker_of_first(self.markers@, viewer, i as int);
                }
                now < self.markers[i].expires_at
            },
            None => {
                proof {
                    lemma_marker_of_none(self.markers@, viewer);
                }
                false
            },
        }
    }

    /// Records that a viewer's index is populated, for one TTL from `now`.
    /// Dropped silently while the cache is unreachable.
    pub fn mark_materialized(&mut self, viewer: u64, now: u64)
        requires
            old(self).wf(),
        ensures
            final(self).wf(),
            final(self).available == old(self).available,
            final(self).bodies == old(self).bodies,
            final(self).index == old(self).index,
            !old(self).available ==> final(self).markers == old(self).markers,
            old(self).available ==> final(self).markers@ == put_marker(
                old(self).markers@,
                viewer,
                expiry_at(now),
            ),
    {
        if !self.available {
            return;
        }
        let exp = crate::expiry_of(now);
        let row = MarkerRow { viewer, expires_at: exp };
        match find_marker_index(&self.markers, viewer) {
            Some(i) => {
                proof {
                    lemma_put_marker_found(self.markers@, viewer, exp, i as int);
                }
                self.markers.set(i, row);
                proof {
                    assert forall|x: int, y: int|
                        #![trigger self.markers@[x], self.markers@[y]]
                        0 <= x < y < self.markers@.len() implies self.markers@[x].viewer
                        != self.markers@[y].viewer by {
                        assert(old(self).markers@[x].viewer != old(self).markers@[y].viewer);
                    }
                }
            },
            None => {
                proof {
                    lemma_put_marker_missing(self.markers@, viewer, exp);
                }
                self.markers.push(row);
                proof {
                    assert forall|x: int, y: int|
                        #![trigger self.markers@[x], self.markers@[y]]
                        0 <= x < y < self.markers@.len() implies self.markers@[x].viewer
                        != self.markers@[y].viewer by {
                        if y < old(self).markers@.len() {
                            assert(old(self).markers@[x].viewer != old(self).markers@[y].viewer);
                        }
                    }
                }
            },
        }
        proof {
            assert(self.bodies_view() =~= old(self).bodies_view());
        }
    }

    /// Upserts a post's serialized body into the shared store, for one TTL
    /// from `now`. Dropped silently while the cache is unreachable.
    pub fn store_body(&mut self, p: &Post, now: u64)
        requires
            old(self).wf(),
        ensures
            final(self).wf(),
            final(self).available == old(self).available,
            final(self).markers == old(self).markers,
            final(self).index == old(self).index,
            !old(self).available ==> final(self).bodies == old(self).bodies,
            old(self).available ==> final(self).bodies_view() == put_body(
                old(self).bodies_view(),
                p.id,
                encode_spec(p@),
                expiry_at(now),
            ),
    {
        if !self.available {
            return;
        }
        let bytes = encode_post(p);
        let exp = crate::expiry_of(now);
        let row = BodyRow { post_id: p.id, bytes, expires_at: exp };
        match find_body_index(&self.bodies, p.id) {
            Some(i) => {
                proof {
                    lemma_put_body_found(
                        old(self).bodies_view(),
                        p.id,
                        encode_spec(p@),
                        expiry_at(now),
                        i as int,
                    );
                }
                self.bodies.set(i, row);
                proof {
                    assert(self.bodies_view() =~= old(self).bodies_view().update(
                        i as int,
                        BodyRowView {
                            post_id: p.id,
                            bytes: encode_spec(p@),
                            expires_at: expiry_at(now),
                        },
                    ));
                    assert forall|x: int, y: int|
                        #![trigger self.bodies_view()[x], self.bodies_view()[y]]
                        0 <= x < y < self.bodies_view().len() implies self.bodies_view()[
                        x
                    ].post_id != self.bodies_view()[y].post_id by {
                        assert(old(self).bodies_view()[x].post_id != old(self).bodies_view()[
                            y
                        ].post_id);
                    }
                }
            },
            None => {
                proof {
                    lemma_put_body_missing(
                        old(self).bodies_view(),
                        p.id,
                        encode_spec(p@),
                        expiry_at(now),
                    );
                }
                self.bodies.push(row);
                proof {
                    assert(self.bodies_view() =~= old(self).bodies_view().push(
                        BodyRowView {
                            post_id: p.id,
                            bytes: encode_spec(p@),
                            expires_at: expiry_at(now),
                        },
                    ));
                    assert forall|x: int, y: int|
                        #![trigger self.bodies_view()[x], self.bodies_view()[y]]
                        0 <= x < y < self.bodies_view().len() implies self.bodies_view()[
                        x
                    ].post_id != self.bodies_view()[y].post_id by {
                        if y < old(self).bodies_view().len() {
                            assert(old(self).bodies_view()[x].post_id != old(
                                self,
                            ).bodies_view()[y].post_id);
                        }
                    }
                }
            },
        }
    }

    /// Drops a post's cached body, if present. Dropped silently while the
    /// cache is unreachable.
    pub fn remove_body(&mut self, post_id: u64)
        requires
            old(self).wf(),
        ensures
            final(self).wf(),
            final(self).available == old(self).available,
            final(self).markers == old(self).markers,
            final(self).index == old(self).index,
            !old(self).available ==> final(self).bodies == old(self).bodies,
            old(self).available ==> final(self).bodies_view() == drop_body(
                old(self).bodies_view(),
                post_id,
            ),
    {
        if !self.available {
            return;
        }
        match find_body_index(&self.bodies, post_id) {
            Some(i) => {
                proof {
                    lemma_drop_body_found(old(self).bodies_view(), post_id, i as int);
                }
                self.bodies.remove(i);
                proof {
                    assert(self.bodies_view() =~= old(self).bodies_view().remove(i as int));
                    old(self).bodies_view().remove_ensures(i as int);
                    assert forall|x: int, y: int|
                        #![trigger self.bodies_view()[x], self.bodies_view()[y]]
                        0 <= x < y < self.bodies_view().len() implies self.bodies_view()[
                        x
                    ].post_id != self.bodies_view()[y].post_id by {
                        let xo: int = if x < i { x } else { x + 1 };
                        let yo: int = if y < i { y } else { y + 1 };
                        assert(old(self).bodies_view()[xo].post_id != old(self).bodies_view()[
                            yo
                        ].post_id);
                    }
                }
            },
            None => {
                proof {
                    lemma_drop_body_none(self.bodies_view(), post_id);
                }
            },
        }
    }

    /// Inserts `post_id` into a viewer's ordered index with the given
    /// score; a duplicate id has its score replaced, never a second entry.
    /// Dropped silently while the cache is unreachable.
    pub fn append(&mut self, viewer: u64, post_id: u64, score: u64)
        requires
            old(self).wf(),
        ensures
            final(self).wf(),
            final(self).available == old(self).available,
            final(self).markers == old(self).markers,
            final(self).bodies == old(self).bodies,
            !old(self).available ==> final(self).index == old(self).index,
            old(self).available ==> final(self).index@ == zadd(
                old(self).index@,
                viewer,
                post_id,
                score,
            ),
    {
        if !self.available {
            return;
        }
        let ghost orig = self.index@;
        match find_index_row(&self.index, viewer, post_id) {
            Some(i) => {
                proof {
                    lemma_drop_index_first(orig, viewer, post_id, i as int);
                    orig.remove_ensures(i as int);
                }
                self.index.remove(i);
                proof {
                    assert forall|x: int, y: int|
                        #![trigger self.index@[x], self.index@[y]]
                        0 <= x < y < self.index@.len() implies row_before(
                        self.index@[x],
                        self.index@[y],
                    ) && !(self.index@[x].viewer == self.index@[y].viewer && self.index@[
                        x
                    ].post_id == self.index@[y].post_id) by {
                        let xo: int = if x < i { x } else { x + 1 };
                        let yo: int = if y < i { y } else { y + 1 };
                        assert(row_before(orig[xo], orig[yo]));
                        assert(!(orig[xo].viewer == orig[yo].viewer && orig[xo].post_id
                            == orig[yo].post_id));
                    }
                    // the removed entry was the only one for this key
                    assert forall|x: int|
                        0 <= x < self.index@.len() implies !((#[trigger] self.index@[x]).viewer
                        == viewer && self.index@[x].post_id == post_id) by {
                        let xo: int = if x < i { x } else { x + 1 };
                        if xo < i {
                            assert(!(orig[xo].viewer == viewer && orig[xo].post_id == post_id));
                        } else if xo > i {
                            assert(!(orig[i as int].viewer == orig[xo].viewer && orig[
                                i as int
                            ].post_id == orig[xo].post_id));
                        }
                    }
                }
            },
            None => {
                proof {
                    lemma_drop_index_none(orig, viewer, post_id);
                }
            },
        }
        let row = IndexRow { viewer, post_id, score };
        let pos = find_index_position(&self.index, &row);
        proof {
            lemma_insert_index_at(self.index@, row, pos as int);
            lemma_wf_index_insert(self.index@, row, pos as int);
        }
        self.index.insert(pos, row);
        proof {
            assert(self.bodies_view() =~= old(self).bodies_view());
        }
    }

    /// The reverse-range window of a viewer's ordered index, as post ids;
    /// nothing while the cache is unreachable.
    pub fn page_ids(&self, viewer: u64, limit: Option<u64>, offset: Option<u64>) -> (r: Option<
        Vec<u64>,
    >)
        ensures
            r is Some <==> self.available,
            r is Some ==> r->0@ == page_ids_spec(self.index@, viewer, limit, offset),
    {
        if !self.available {
            return None;
        }
        let mut ent: Vec<IndexRow> = Vec::new();
        let mut i: usize = 0;
        while i < self.index.len()
            invariant
                i <= self.index@.len(),
                ent@ == entries_of(self.index@.take(i as int), viewer),
            decreases self.index@.len() - i,
        {
            proof {
                assert(self.index@.take(i + 1 as int).drop_last() =~= self.index@.take(i as int));
                assert(self.index@.take(i + 1 as int).last() == self.index@[i as int]);
            }
            let row = self.index[i];
            if row.viewer == viewer {
                ent.push(row);
            }
            i = i + 1;
        }
        proof {
            assert(self.index@.take(self.index@.len() as int) =~= self.index@);
        }
        let total: usize = ent.len();
        let lim: u64 = match limit {
            Some(l) => l,
            None => crate::DEFAULT_FEED_SIZE,
        };
        let off: u64 = match offset {
            Some(o) => o,
            None => 0,
        };
        let start_w: u64 = if off <= total as u64 {
            off
        } else {
            total as u64
        };
        let reach: u64 = off.saturating_add(lim);
        let end_w: u64 = if reach <= total as u64 {
            reach
        } else {
            total as u64
        };
        let start: usize = start_w as usize;
        let end: usize = end_w as usize;
        let mut out: Vec<u64> = Vec::new();
        let mut k: usize = start;
        while k < end
            invariant
                start <= k <= end,
                end <= ent@.len(),
                out@ == ent@.subrange(start as int, k as int).map_values(
                    |r: IndexRow| r.post_id,
                ),
            decreases end - k,
        {
            out.push(ent[k].post_id);
            proof {
                assert(out@ =~= ent@.subrange(start as int, k + 1 as int).map_values(
                    |r: IndexRow| r.post_id,
                ));
            }
            k = k + 1;
        }
        proof {
            assert(out@ =~= page_ids_spec(self.index@, viewer, limit, offset));
        }
        Some(out)
    }

    /// The live cached body bytes for a post id, if the cache is reachable
    /// and holds an unexpired entry.
    pub fn read_body(&self, post_id: u64, now: u64) -> (r: Option<Vec<u8>>)
        ensures
            !self.available ==> r is None,
            self.available ==> match live_body(self.bodies_view(), post_id, now) {
                Some(bytes) => r is Some && r->0@ == bytes,
                None => r is None,
            },
    {
        if !self.available {
            return None;
        }
        match find_body_index(&self.bodies, post_id) {
            Some(i) => {
                proof {
                    lemma_body_of_first(self.bodies_view(), post_id, i as int);
                }
                let b = &self.bodies[i];
                if now < b.expires_at {
                    let bytes = b.bytes.clone();
                    proof {
                        assert(bytes@ =~= b.bytes@);
                    }
                    Some(bytes)
                } else {
                    None
                }
            },
            None => {
                proof {
                    lemma_body_of_none(self.bodies_view(), post_id);
                }
                None
            },
        }
    }

    /// Decodes the live cached bodies for a list of ids, in order, silently
    /// dropping ids with no usable body; nothing while the cache is
    /// unreachable.
    pub fn hydrate(&self, ids: &Vec<u64>, now: u64) -> (r: Option<Vec<Post>>)
        ensures
            r is Some <==> self.available,
            r is Some ==> post_seq_view(r->0@) == hydrate_spec(self.bodies_view(), ids@, now),
    {
        if !self.available {
            return None;
        }
        let mut out: Vec<Post> = Vec::new();
        let mut i: usize = 0;
        while i < ids.len()
            invariant
                i <= ids@.len(),
                post_seq_view(out@) == hydrate_spec(self.bodies_view(), ids@.take(i as int), now),
            decreases ids@.len() - i,
        {
            proof {
                assert(ids@.take(i + 1 as int).drop_last() =~= ids@.take(i as int));
                assert(ids@.take(i + 1 as int).last() == ids@[i as int]);
            }
            let ghost prev = out@;
            let id = ids[i];
            match find_body_index(&self.bodies, id) {
                Some(bi) => {
                    proof {
                        lemma_body_of_first(self.bodies_view(), id, bi as int);
                    }
                    let b = &self.bodies[bi];
                    if now < b.expires_at {
                        match decode_post(&b.bytes) {
                            Some(p) => {
                                out.push(p);
                                proof {
                                    lemma_post_seq_view_push(prev, out@.last());
                                    assert(out@ =~= prev.push(out@.last()));
                                }
                            },
                            None => {},
                        }
                    }
                },
                None => {
                    proof {
                        lemma_body_of_none(self.bodies_view(), id);
                    }
                },
            }
            i = i + 1;
        }
        proof {
            assert(ids@.take(ids@.len() as int) =~= ids@);
        }
        Some(out)
    }
}

/// Index of a viewer's marker.
fn find_marker_index(markers: &Vec<MarkerRow>, viewer: u64) -> (r: Option<usize>)
    ensures
        match r {
            Some(i) => i < markers@.len() && markers@[i as int].viewer == viewer && forall|j: int|
                0 <= j < i ==> (#[trigger] markers@[j]).viewer != viewer,
            None => forall|j: int|
                0 <= j < markers@.len() ==> (#[trigger] markers@[j]).viewer != viewer,
        },
{
    let mut i: usize = 0;
    while i < markers.len()
        invariant
            i <= markers@.len(),
            forall|j: int| 0 <= j < i ==> (#[trigger] markers@[j]).viewer != viewer,
        decreases markers@.len() - i,
    {
        if markers[i].viewer == viewer {
            return Some(i);
        }
        i = i + 1;
    }
    None
}

/// Index of a post's body row.
fn find_body_index(bodies: &Vec<BodyRow>, id: u64) -> (r: Option<usize>)
    ensures
        match r {
            Some(i) => i < bodies@.len() && body_seq_view(bodies@)[i as int].post_id == id
                && forall|j: int|
                0 <= j < i ==> (#[trigger] body_seq_view(bodies@)[j]).post_id != id,
            None => forall|j: int|
                0 <= j < bodies@.len() ==> (#[trigger] body_seq_view(bodies@)[j]).post_id != id,
        },
{
    let mut i: usize = 0;
    while i < bodies.len()
        invariant
            i <= bodies@.len(),
            forall|j: int| 0 <= j < i ==> (#[trigger] body_seq_view(bodies@)[j]).post_id != id,
        decreases bodies@.len() - i,
    {
        if bodies[i].post_id == id {
            return Some(i);
        }
        i = i + 1;
    }
    None
}

/// Index of the entry for `(viewer, post_id)`.
fn find_index_row(index: &Vec<IndexRow>, viewer: u64, post_id: u64) -> (r: Option<usize>)
    ensures
        match r {
            Some(i) => i < index@.len() && index@[i as int].viewer == viewer && index@[
                i as int
            ].post_id == post_id && forall|j: int|
                0 <= j < i ==> !((#[trigger] index@[j]).viewer == viewer && index@[j].post_id
                    == post_id),
            None => forall|j: int|
                0 <= j < index@.len() ==> !((#[trigger] index@[j]).viewer == viewer && index@[
                    j
                ].post_id == post_id),
        },
{
    let mut i: usize = 0;
    while i < index.len()
        invariant
            i <= index@.len(),
            forall|j: int|
                0 <= j < i ==> !((#[trigger] index@[j]).viewer == viewer && index@[j].post_id
                    == post_id),
        decreases index@.len() - i,
    {
        if index[i].viewer == viewer && index[i].post_id == post_id {
            return Some(i);
        }
        i = i + 1;
    }
    None
}

/// The storage position of `row`: the index of the first entry it goes
/// before, or the end.
fn find_index_position(index: &Vec<IndexRow>, row: &IndexRow) -> (i: usize)
    ensures
        i <= index@.len(),
        forall|j: int| 0 <= j < i ==> !row_before(*row, #[trigger] index@[j]),
        i < index@.len() ==> row_before(*row, index@[i as int]),
{
    let mut i: usize = 0;
    while i < index.len()
        invariant
            i <= index@.len(),
            forall|j: int| 0 <= j < i ==> !row_before(*row, #[trigger] index@[j]),
        decreases index@.len() - i,
    {
        let e = index[i];
        let before = row.viewer < e.viewer || (row.viewer == e.viewer && row.score > e.score)
            || (row.viewer == e.viewer && row.score == e.score && row.post_id > e.post_id);
        if before {
            return i;
        }
        i = i + 1;
    }
    i
}

proof fn lemma_marker_of_first(s: Seq<MarkerRow>, viewer: u64, i: int)
    requires
        0 <= i < s.len(),
        s[i].viewer == viewer,
        forall|j: int| 0 <= j < i ==> (#[trigger] s[j]).viewer != viewer,
    ensures
        marker_of(s, viewer) == Some(s[i].expires_at),
    decreases i,
{
    if i > 0 {
        lemma_marker_of_first(s.drop_first(), viewer, i - 1);
    }
}

proof fn lemma_marker_of_none(s: Seq<MarkerRow>, viewer: u64)
    requires
        forall|j: int| 0 <= j < s.len() ==> (#[trigger] s[j]).viewer != viewer,
    ensures
        marker_of(s, viewer) is None,
    decreases s.len(),
{
    if s.len() > 0 {
        lemma_marker_of_none(s.drop_first(), viewer);
    }
}

proof fn lemma_put_marker_found(s: Seq<MarkerRow>, viewer: u64, exp: u64, i: int)
    requires
        0 <= i < s.len(),
        s[i].viewer == viewer,
        forall|j: int| 0 <= j < i ==> (#[trigger] s[j]).viewer != viewer,
    ensures
        put_marker(s, viewer, exp) == s.update(i, MarkerRow { viewer, expires_at: exp }),
    decreases i,
{
    if i == 0 {
        assert(seq![MarkerRow { viewer, expires_at: exp }] + s.drop_first() =~= s.update(
            0,
            MarkerRow { viewer, expires_at: exp },
        ));
    } else {
        lemma_put_marker_found(s.drop_first(), viewer, exp, i - 1);
        assert(seq![s[0]] + s.drop_first().update(i - 1, MarkerRow { viewer, expires_at: exp })
            =~= s.update(i, MarkerRow { viewer, expires_at: exp }));
    }
}

proof fn lemma_put_marker_missing(s: Seq<MarkerRow>, viewer: u64, exp: u64)
    requires
        forall|j: int| 0 <= j < s.len() ==> (#[trigger] s[j]).viewer != viewer,
    ensures
        put_marker(s, viewer, exp) == s.push(MarkerRow { viewer, expires_at: exp }),
    decreases s.len(),
{
    if s.len() == 0 {
        assert(seq![MarkerRow { viewer, expires_at: exp }] =~= s.push(
            MarkerRow { viewer, expires_at: exp },
        ));
    } else {
        lemma_put_marker_missing(s.drop_first(), viewer, exp);
        assert(seq![s[0]] + s.drop_first().push(MarkerRow { viewer, expires_at: exp }) =~= s.push(
            MarkerRow { viewer, expires_at: exp },
        ));
    }
}

proof fn lemma_body_of_first(s: Seq<BodyRowView>, id: u64, i: int)
    requires
        0 <= i < s.len(),
        s[i].post_id == id,
        forall|j: int| 0 <= j < i ==> (#[trigger] s[j]).post_id != id,
    ensures
        body_of(s, id) == Some(s[i]),
    decreases i,
{
    if i > 0 {
        lemma_body_of_first(s.drop_first(), id, i - 1);
    }
}

proof fn lemma_body_of_none(s: Seq<BodyRowView>, id: u64)
    requires
        forall|j: int| 0 <= j < s.len() ==> (#[trigger] s[j]).post_id != id,
    ensures
        body_of(s, id) is None,
    decreases s.len(),
{
    if s.len() > 0 {
        lemma_body_of_none(s.drop_first(), id);
    }
}

proof fn lemma_put_body_found(s: Seq<BodyRowView>, id: u64, bytes: Seq<u8>, exp: u64, i: int)
    requires
        0 <= i < s.len(),
        s[i].post_id == id,
        forall|j: int| 0 <= j < i ==> (#[trigger] s[j]).post_id != id,
    ensures
        put_body(s, id, bytes, exp) == s.update(
            i,
            BodyRowView { post_id: id, bytes, expires_at: exp },
        ),
    decreases i,
{
    let row = BodyRowView { post_id: id, bytes, expires_at: exp };
    if i == 0 {
        assert(seq![row] + s.drop_first() =~= s.update(0, row));
    } else {
        lemma_put_body_found(s.drop_first(), id, bytes, exp, i - 1);
        assert(seq![s[0]] + s.drop_first().update(i - 1, row) =~= s.update(i, row));
    }
}

proof fn lemma_put_body_missing(s: Seq<BodyRowView>, id: u64, bytes: Seq<u8>, exp: u64)
    requires
        forall|j: int| 0 <= j < s.len() ==> (#[trigger] s[j]).post_id != id,
    ensures
        put_body(s, id, bytes, exp) == s.push(BodyRowView { post_id: id, bytes, expires_at: exp }),
    decreases s.len(),
{
    let row = BodyRowView { post_id: id, bytes, expires_at: exp };
    if s.len() == 0 {
        assert(seq![row] =~= s.push(row));
    } else {
        lemma_put_body_missing(s.drop_first(), id, bytes, exp);
        assert(seq![s[0]] + s.drop_first().push(row) =~= s.push(row));
    }
}

proof fn lemma_drop_body_found(s: Seq<BodyRowView>, id: u64, i: int)
    requires
        0 <= i < s.len(),
        s[i].post_id == id,
        forall|j: int| 0 <= j < i ==> (#[trigger] s[j]).post_id != id,
    ensures
        drop_body(s, id) == s.remove(i),
    decreases i,
{
    if i == 0 {
        assert(s.drop_first() =~= s.remove(0));
    } else {
        lemma_drop_body_found(s.drop_first(), id, i - 1);
        assert(seq![s[0]] + s.drop_first().remove(i - 1) =~= s.remove(i));
    }
}

proof fn lemma_drop_body_none(s: Seq<BodyRowView>, id: u64)
    requires
        forall|j: int| 0 <= j < s.len() ==> (#[trigger] s[j]).post_id != id,
    ensures
        drop_body(s, id) == s,
    decreases s.len(),
{
    if s.len() > 0 {
        lemma_drop_body_none(s.drop_first(), id);
        assert(seq![s[0]] + s.drop_first() =~= s);
    }
}

proof fn lemma_drop_index_first(s: Seq<IndexRow>, viewer: u64, post_id: u64, i: int)
    requires
        0 <= i < s.len(),
        s[i].viewer == viewer && s[i].post_id == post_id,
        forall|j: int|
            0 <= j < i ==> !((#[trigger] s[j]).viewer == viewer && s[j].post_id == post_id),
    ensures
        drop_index_entry(s, viewer, post_id) == s.remove(i),
    decreases i,
{
    if i == 0 {
        assert(s.drop_first() =~= s.remove(0));
    } else {
        lemma_drop_index_first(s.drop_first(), viewer, post_id, i - 1);
        assert(seq![s[0]] + s.drop_first().remove(i - 1) =~= s.remove(i));
    }
}

proof fn lemma_drop_index_none(s: Seq<IndexRow>, viewer: u64, post_id: u64)
    requires
        forall|j: int|
            0 <= j < s.len() ==> !((#[trigger] s[j]).viewer == viewer && s[j].post_id == post_id),
    ensures
        drop_index_entry(s, viewer, post_id) == s,
    decreases s.len(),
{
    if s.len() > 0 {
        lemma_drop_index_none(s.drop_first(), viewer, post_id);
        assert(seq![s[0]] + s.drop_first() =~= s);
    }
}

proof fn lemma_insert_row_has(s: Seq<IndexRow>, row: IndexRow)
    ensures
        index_has(insert_index_row(s, row), row.viewer, row.post_id),
    decreases s.len(),
{
    let r = insert_index_row(s, row);
    if s.len() == 0 {
        assert(r[0] == row);
    } else if row_before(row, s[0]) {
        assert(r[0] == row);
    } else {
        lemma_insert_row_has(s.drop_first(), row);
        let sub = insert_index_row(s.drop_first(), row);
        let j = choose|j: int|
            0 <= j < sub.len() && (#[trigger] sub[j]).viewer == row.viewer && sub[j].post_id
                == row.post_id;
        assert(r[j + 1] == sub[j]);
    }
}

proof fn lemma_insert_row_keeps(s: Seq<IndexRow>, row: IndexRow, v: u64, q: u64)
    requires
        index_has(s, v, q),
    ensures
        index_has(insert_index_row(s, row), v, q),
    decreases s.len(),
{
    let r = insert_index_row(s, row);
    let i = choose|i: int|
        0 <= i < s.len() && (#[trigger] s[i]).viewer == v && s[i].post_id == q;
    if row_before(row, s[0]) {
        assert(r[i + 1] == s[i]);
    } else if i == 0 {
        assert(r[0] == s[0]);
    } else {
        assert(s.drop_first()[i - 1] == s[i]);
        assert(index_has(s.drop_first(), v, q));
        lemma_insert_row_keeps(s.drop_first(), row, v, q);
        let sub = insert_index_row(s.drop_first(), row);
        let j = choose|j: int|
            0 <= j < sub.len() && (#[trigger] sub[j]).viewer == v && sub[j].post_id == q;
        assert(r[j + 1] == sub[j]);
    }
}

proof fn lemma_drop_keeps(s: Seq<IndexRow>, viewer: u64, post_id: u64, v: u64, q: u64)
    requires
        !(v == viewer && q == post_id),
        index_has(s, v, q),
    ensures
        index_has(drop_index_entry(s, viewer, post_id), v, q),
    decreases s.len(),
{
    let r = drop_index_entry(s, viewer, post_id);
    let i = choose|i: int|
        0 <= i < s.len() && (#[trigger] s[i]).viewer == v && s[i].post_id == q;
    if s[0].viewer == viewer && s[0].post_id == post_id {
        assert(i != 0);
        assert(r[i - 1] == s[i]);
    } else if i == 0 {
        assert(r[0] == s[0]);
    } else {
        assert(s.drop_first()[i - 1] == s[i]);
        assert(index_has(s.drop_first(), v, q));
        lemma_drop_keeps(s.drop_first(), viewer, post_id, v, q);
        let sub = drop_index_entry(s.drop_first(), viewer, post_id);
        let j = choose|j: int|
            0 <= j < sub.len() && (#[trigger] sub[j]).viewer == v && sub[j].post_id == q;
        assert(r[j + 1] == sub[j]);
    }
}

// An upsert's own key reads back as the new row.
proof fn lemma_put_body_self(s: Seq<BodyRowView>, id: u64, bytes: Seq<u8>, exp: u64)
    ensures
        body_of(put_body(s, id, bytes, exp), id) == Some(
            BodyRowView { post_id: id, bytes, expires_at: exp },
        ),
    decreases s.len(),
{
    if s.len() > 0 && s[0].post_id != id {
        lemma_put_body_self(s.drop_first(), id, bytes, exp);
        assert((seq![s[0]] + put_body(s.drop_first(), id, bytes, exp)).drop_first() =~= put_body(
            s.drop_first(),
            id,
            bytes,
            exp,
        ));
    }
}

/// An indexed post id shows up among its viewer's entries.
pub proof fn lemma_entries_of_has(s: Seq<IndexRow>, viewer: u64, post_id: u64)
    requires
        index_has(s, viewer, post_id),
    ensures
        exists|k: int|
            0 <= k < entries_of(s, viewer).len() && (#[trigger] entries_of(s, viewer)[
                k
            ]).post_id == post_id,
    decreases s.len(),
{
    let e = entries_of(s, viewer);
    let i = choose|i: int|
        0 <= i < s.len() && (#[trigger] s[i]).viewer == viewer && s[i].post_id == post_id;
    if i == s.len() - 1 {
        assert(e[e.len() - 1] == s[i]);
    } else {
        assert(s.drop_last()[i] == s[i]);
        assert(index_has(s.drop_last(), viewer, post_id));
        lemma_entries_of_has(s.drop_last(), viewer, post_id);
        let rest = entries_of(s.drop_last(), viewer);
        let k = choose|k: int|
            0 <= k < rest.len() && (#[trigger] rest[k]).post_id == post_id;
        assert(e[k] == rest[k]);
    }
}

/// A windowed id whose body is live and decodes is among the hydrated
/// posts.
pub proof fn lemma_hydrate_includes(bodies: Seq<BodyRowView>, ids: Seq<u64>, now: u64, k: int)
    requires
        0 <= k < ids.len(),
        live_body(bodies, ids[k], now) is Some,
        decode_spec(live_body(bodies, ids[k], now)->0) is Some,
    ensures
        exists|j: int|
            0 <= j < hydrate_spec(bodies, ids, now).len() && #[trigger] hydrate_spec(
                bodies,
                ids,
                now,
            )[j] == decode_spec(live_body(bodies, ids[k], now)->0)->0,
    decreases ids.len(),
{
    let h = hydrate_spec(bodies, ids, now);
    let p = decode_spec(live_body(bodies, ids[k], now)->0)->0;
    if k == ids.len() - 1 {
        assert(h[h.len() - 1] == p);
    } else {
        assert(ids.drop_last()[k] == ids[k]);
        lemma_hydrate_includes(bodies, ids.drop_last(), now, k);
        let rest = hydrate_spec(bodies, ids.drop_last(), now);
        let j = choose|j: int| 0 <= j < rest.len() && #[trigger] rest[j] == p;
        assert(h[j] == rest[j]);
    }
}

/// Law: a post body stored at `now` — at creation or at materialization —
/// serves that post back from the cache at any time before its TTL ends.
pub proof fn lemma_stored_body_serves(bodies: Seq<BodyRowView>, p: PostView, now: u64, t: u64)
    requires
        t < expiry_at(now),
    ensures
        ({
            let stored = put_body(bodies, p.id, encode_spec(p), expiry_at(now));
            &&& live_body(stored, p.id, t) == Some(encode_spec(p))
            &&& decode_spec(encode_spec(p)) == Some(p)
        }),
{
    lemma_put_body_self(bodies, p.id, encode_spec(p), expiry_at(now));
    crate::codec::lemma_codec_round_trip(p);
}

/// A sorted-set upsert leaves an entry for its own key.
pub proof fn lemma_zadd_has(s: Seq<IndexRow>, viewer: u64, post_id: u64, score: u64)
    ensures
        index_has(zadd(s, viewer, post_id, score), viewer, post_id),
{
    let dropped = drop_index_entry(s, viewer, post_id);
    let row = IndexRow { viewer, post_id, score };
    lemma_insert_row_has(dropped, row);
}

/// A sorted-set upsert keeps every entry with a different key.
pub proof fn lemma_zadd_keeps(s: Seq<IndexRow>, viewer: u64, post_id: u64, score: u64, v: u64, q: u64)
    requires
        !(v == viewer && q == post_id),
        index_has(s, v, q),
    ensures
        index_has(zadd(s, viewer, post_id, score), v, q),
{
    lemma_drop_keeps(s, viewer, post_id, v, q);
    lemma_insert_row_keeps(
        drop_index_entry(s, viewer, post_id),
        IndexRow { viewer, post_id, score },
        v,
        q,
    );
}

// An entry for the fanned-out post id survives the rest of a fan-out.
proof fn lemma_fanout_keeps(
    s: Seq<IndexRow>,
    followers: Seq<u64>,
    post_id: u64,
    score: u64,
    v: u64,
)
    requires
        index_has(s, v, post_id),
    ensures
        index_has(fanout_index(s, followers, post_id, score), v, post_id),
    decreases followers.len(),
{
    if followers.len() > 0 {
        if followers[0] == v {
            lemma_zadd_has(s, v, post_id, score);
        } else {
            lemma_zadd_keeps(s, followers[0], post_id, score, v, post_id);
        }
        lemma_fanout_keeps(
            zadd(s, followers[0], post_id, score),
            followers.drop_first(),
            post_id,
            score,
            v,
        );
    }
}

/// Law: fan-out reaches every queried follower — after a post is fanned out
/// to a list of followers, each of their ordered indexes holds its id.
pub proof fn lemma_fanout_reaches_followers(
    s: Seq<IndexRow>,
    followers: Seq<u64>,
    post_id: u64,
    score: u64,
)
    ensures
        forall|k: int|
            0 <= k < followers.len() ==> index_has(
                fanout_index(s, followers, post_id, score),
                #[trigger] followers[k],
                post_id,
            ),
    decreases followers.len(),
{
    if followers.len() > 0 {
        let s1 = zadd(s, followers[0], post_id, score);
        lemma_fanout_reaches_followers(s1, followers.drop_first(), post_id, score);
        lemma_zadd_has(s, followers[0], post_id, score);
        lemma_fanout_keeps(s1, followers.drop_first(), post_id, score, followers[0]);
        assert forall|k: int| 0 <= k < followers.len() implies index_has(
            fanout_index(s, followers, post_id, score),
            #[trigger] followers[k],
            post_id,
        ) by {
            if k > 0 {
                assert(followers.drop_first()[k - 1] == followers[k]);
            }
        }
    }
}

proof fn lemma_insert_index_at(s: Seq<IndexRow>, row: IndexRow, i: int)
    requires
        0 <= i <= s.len(),
        forall|j: int| 0 <= j < i ==> !row_before(row, #[trigger] s[j]),
        i < s.len() ==> row_before(row, s[i]),
    ensures
        insert_index_row(s, row) == s.insert(i, row),
    decreases i,
{
    if i == 0 {
        if s.len() == 0 {
            assert(seq![row] =~= s.insert(0, row));
        } else {
            assert(seq![row] + s =~= s.insert(0, row));
        }
    } else {
        lemma_insert_index_at(s.drop_first(), row, i - 1);
        assert(seq![s[0]] + s.drop_first().insert(i - 1, row) =~= s.insert(i, row));
    }
}

// Inserting a row whose key is absent at its scan position keeps the index
// sorted and its keys unique.
proof fn lemma_wf_index_insert(s: Seq<IndexRow>, row: IndexRow, i: int)
    requires
        sorted_index(s),
        forall|x: int, y: int|
            #![trigger s[x], s[y]]
            0 <= x < y < s.len() ==> !(s[x].viewer == s[y].viewer && s[x].post_id == s[y].post_id),
        forall|x: int|
            0 <= x < s.len() ==> !((#[trigger] s[x]).viewer == row.viewer && s[x].post_id
                == row.post_id),
        0 <= i <= s.len(),
        forall|j: int| 0 <= j < i ==> !row_before(row, #[trigger] s[j]),
        i < s.len() ==> row_before(row, s[i]),
    ensures
        sorted_index(s.insert(i, row)),
        forall|x: int, y: int|
            #![trigger s.insert(i, row)[x], s.insert(i, row)[y]]
            0 <= x < y < s.insert(i, row).len() ==> !(s.insert(i, row)[x].viewer == s.insert(
                i,
                row,
            )[y].viewer && s.insert(i, row)[x].post_id == s.insert(i, row)[y].post_id),
{
    let r = s.insert(i, row);
    s.insert_ensures(i, row);
    assert forall|x: int, y: int|
        #![trigger r[x], r[y]]
        0 <= x < y < r.len() implies row_before(r[x], r[y]) && !(r[x].viewer == r[y].viewer
        && r[x].post_id == r[y].post_id) by {
        if x < i && y < i {
            assert(row_before(s[x], s[y]));
            assert(!(s[x].viewer == s[y].viewer && s[x].post_id == s[y].post_id));
        } else if x < i && y == i {
            // the scan passed s[x], and keys never tie, so s[x] goes first
            assert(!row_before(row, s[x]));
            assert(!(s[x].viewer == row.viewer && s[x].post_id == row.post_id));
        } else if x < i && y > i {
            assert(row_before(s[x], s[y - 1]));
            assert(!(s[x].viewer == s[y - 1].viewer && s[x].post_id == s[y - 1].post_id));
        } else if x == i && y > i {
            if y - 1 > i {
                assert(row_before(s[i], s[y - 1]));
            }
            assert(row_before(row, s[y - 1]));
            assert(!(s[y - 1].viewer == row.viewer && s[y - 1].post_id == row.post_id));
        } else {
            assert(row_before(s[x - 1], s[y - 1]));
            assert(!(s[x - 1].viewer == s[y - 1].viewer && s[x - 1].post_id == s[
                y - 1
            ].post_id));
        }
    }
}

} // verus!
