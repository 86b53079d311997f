//! The post record: an id, its author, an opaque text body, and creation and
//! update timestamps. Mutation is author-scoped; the store itself lives in
//! `post_store`.

use vstd::prelude::*;

verus! {

/// A post as stored and served. The text body is carried as opaque bytes:
/// the core never inspects it, and the surrounding layer owns its encoding.
pub struct Post {
    pub id: u64,
    pub author: u64,
    pub text: Vec<u8>,
    pub created_at: u64,
    pub updated_at: u64,
}

/// Mathematical image of a `Post`: the text as a byte sequence.
pub struct PostView {
    pub id: u64,
    pub author: u64,
    pub text: Seq<u8>,
    pub created_at: u64,
    pub updated_at: u64,
}

impl View for Post {
    type V = PostView;

    open spec fn view(&self) -> PostView {
        PostView {
            id: self.id,
            author: self.author,
            text: self.text@,
            created_at: self.created_at,
            updated_at: self.updated_at,
        }
    }
}

/// The view of an optional post, for contracts over `Option<Post>` results.
pub open spec fn post_opt_view(o: Option<Post>) -> Option<PostView> {
    match o {
        Some(p) => Some(p@),
        None => None,
    }
}

/// The views of a sequence of posts, for contracts over `Vec<Post>` results.
pub open spec fn post_seq_view(s: Seq<Post>) -> Seq<PostView> {
    s.map_values(|p: Post| p@)
}

/// Strict "appears earlier in a feed" order: newer creation time first,
/// ties broken towards the larger (later-allocated) id. Total on posts with
/// distinct ids.
pub open spec fn newer_than(a: PostView, b: PostView) -> bool {
    a.created_at > b.created_at || (a.created_at == b.created_at && a.id > b.id)
}

/// Views distribute over appending a post.
pub proof fn lemma_post_seq_view_push(s: Seq<Post>, p: Post)
    ensures
        post_seq_view(s.push(p)) == post_seq_view(s).push(p@),
{
    assert(post_seq_view(s.push(p)) =~= post_seq_view(s).push(p@));
}

impl Post {
    /// An owned copy of this post.
    pub fn duplicate(&self) -> (r: Post)
        ensures
            r@ == self@,
    {
        let text = self.text.clone();
        proof {
            assert(text@ =~= self.text@);
        }
        Post {
            id: self.id,
            author: self.author,
            text,
            created_at: self.created_at,
            updated_at: self.updated_at,
        }
    }

    /// Whether this post is served strictly ahead of `other`.
    pub fn is_newer_than(&self, other: &Post) -> (r: bool)
        ensures
            r == newer_than(self@, other@),
    {
        self.created_at > other.created_at
            || (self.created_at == other.created_at && self.id > other.id)
    }
}

} // verus!
