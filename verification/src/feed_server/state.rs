//! The state of the feed server, its invariant, its users and administrators, and its
//! id counters.
use vstd::prelude::*;
use crate::keyed::KeyedList;
use crate::principal::PrincipalId;
use crate::stable::{
    counter_value, image_chunks, index_pairs, seconds_listing, IdCounter, ImageChunkStore,
    MemoryRegistry, PairIndex,
};
use super::types::{Comment, Error, LikeKey, Post, UserProfile, MAX_IMAGES_PER_POST};

verus! {

/// Everything the feed server stores.
pub struct FeedState {
    pub users: KeyedList<PrincipalId, UserProfile>,
    pub posts: KeyedList<u64, Post>,
    pub image_chunks: ImageChunkStore,
    pub likes: KeyedList<LikeKey, ()>,
    pub comments: KeyedList<u64, Comment>,
    pub post_comments: PairIndex,
    pub next_post: IdCounter,
    pub next_comment: IdCounter,
    pub admins: KeyedList<PrincipalId, ()>,
    pub comment_replies: PairIndex,
    pub registry: MemoryRegistry,
}

/// The virtual memory that holds the saved records across an upgrade.
pub const SNAPSHOT_MEMORY: u8 = 20;

/// The bytes of chunks `0..n` of one image of a post, in order, skipping missing chunks.
pub open spec fn image_bytes(chunks: Map<(u64, u32, u32), Seq<u8>>, post_id: u64, image: u32, n: nat) -> Seq<u8>
    decreases n,
{
    if n == 0 {
        Seq::empty()
    } else {
        image_bytes(chunks, post_id, image, (n - 1) as nat) + if chunks.contains_key(
            (post_id, image, (n - 1) as u32),
        ) {
            chunks[(post_id, image, (n - 1) as u32)]
        } else {
            Seq::empty()
        }
    }
}

/// How many of chunks `0..n` of one image of a post are stored.
pub open spec fn chunks_present(chunks: Map<(u64, u32, u32), Seq<u8>>, post_id: u64, image: u32, n: nat) -> nat
    decreases n,
{
    if n == 0 {
        0
    } else {
        chunks_present(chunks, post_id, image, (n - 1) as nat) + if chunks.contains_key(
            (post_id, image, (n - 1) as u32),
        ) {
            1nat
        } else {
            0nat
        }
    }
}

impl FeedState {
    /// The invariant of the stored data.
    pub open spec fn wf(&self) -> bool {
        &&& self.users.wf()
        &&& self.posts.wf()
        &&& self.likes.wf()
        &&& self.comments.wf()
        &&& self.admins.wf()
        &&& forall|i: int, j: int|
            0 <= i < j < self.posts.entries@.len() ==> #[trigger] self.posts.entries@[i].0
                < #[trigger] self.posts.entries@[j].0
        &&& forall|i: int|
            0 <= i < self.posts.entries@.len() ==> #[trigger] self.posts.entries@[i].0
                < counter_value(self.next_post) && self.posts.entries@[i].0
                == self.posts.entries@[i].1.id && self.posts.entries@[i].1.images@.len()
                <= MAX_IMAGES_PER_POST
        &&& forall|i: int|
            0 <= i < self.comments.entries@.len() ==> #[trigger] self.comments.entries@[i].0
                == self.comments.entries@[i].1.id && self.comments.entries@[i].0 < counter_value(
                self.next_comment,
            )
    }

    /// `caller` is an administrator.
    pub open spec fn admin(&self, caller: PrincipalId) -> bool {
        self.admins.as_map().contains_key(caller)
    }

    /// `caller` has registered.
    pub open spec fn registered(&self, caller: PrincipalId) -> bool {
        self.users.as_map().contains_key(caller)
    }

    /// The stored image chunks.
    pub open spec fn chunk_map(&self) -> Map<(u64, u32, u32), Seq<u8>> {
        image_chunks(self.image_chunks)
    }

    /// The (post, comment) memberships.
    pub open spec fn comment_pairs(&self) -> Set<(u64, u64)> {
        index_pairs(self.post_comments)
    }

    /// The (comment, reply) memberships.
    pub open spec fn reply_pairs(&self) -> Set<(u64, u64)> {
        index_pairs(self.comment_replies)
    }

    /// The comments of a post, by increasing id.
    pub open spec fn post_comment_ids(&self, post_id: u64) -> Seq<u64> {
        seconds_listing(self.comment_pairs(), post_id)
    }

    /// The replies to a comment, by increasing id.
    pub open spec fn reply_ids(&self, comment_id: u64) -> Seq<u64> {
        seconds_listing(self.reply_pairs(), comment_id)
    }

    /// A fresh server: nothing stored, both counters at 1.
    pub fn new() -> (r: FeedState)
        ensures
            r.wf(),
            r.users.as_map().dom().is_empty(),
            r.posts.as_map().dom().is_empty(),
            r.likes.as_map().dom().is_empty(),
            r.comments.as_map().dom().is_empty(),
            r.admins.as_map().dom().is_empty(),
            r.chunk_map().dom().is_empty(),
            r.comment_pairs().is_empty(),
            r.reply_pairs().is_empty(),
            counter_value(r.next_post) == 1,
            counter_value(r.next_comment) == 1,
            r.counts_match(),
            r.counts_fresh(),
    {
        let registry = MemoryRegistry::new();
        let image_chunks = ImageChunkStore::new(&registry, 2);
        let post_comments = PairIndex::new(&registry, 5);
        let next_post = IdCounter::new(&registry, 6, 1);
        let next_comment = IdCounter::new(&registry, 7, 1);
        let comment_replies = PairIndex::new(&registry, 9);
        FeedState {
            users: KeyedList::new(),
            posts: KeyedList::new(),
            image_chunks,
            likes: KeyedList::new(),
            comments: KeyedList::new(),
            post_comments,
            next_post,
            next_comment,
            admins: KeyedList::new(),
            comment_replies,
            registry,
        }
    }

    /// The server over the stable memory as an earlier run of the canister left it:
    /// image chunks, comment indexes and counters are taken up from there; the records
    /// start empty, to be restored from `load_snapshot`.
    pub fn open() -> (r: FeedState)
        ensures
            r.wf(),
            r.users.as_map().dom().is_empty(),
            r.posts.as_map().dom().is_empty(),
            r.likes.as_map().dom().is_empty(),
            r.comments.as_map().dom().is_empty(),
            r.admins.as_map().dom().is_empty(),
    {
        let registry = MemoryRegistry::new();
        let image_chunks = ImageChunkStore::open(&registry, 2);
        let post_comments = PairIndex::open(&registry, 5);
        let next_post = IdCounter::open(&registry, 6, 1);
        let next_comment = IdCounter::open(&registry, 7, 1);
        let comment_replies = PairIndex::open(&registry, 9);
        FeedState {
            users: KeyedList::new(),
            posts: KeyedList::new(),
            image_chunks,
            likes: KeyedList::new(),
            comments: KeyedList::new(),
            post_comments,
            next_post,
            next_comment,
            admins: KeyedList::new(),
            comment_replies,
            registry,
        }
    }

    /// Writes the encoded records to stable memory, to outlive an upgrade.
    pub fn save_snapshot(&self, bytes: Vec<u8>) {
        self.registry.save_blob(SNAPSHOT_MEMORY, bytes);
    }

    /// The encoded records that the last `save_snapshot` wrote, or none.
    pub fn load_snapshot(&self) -> Vec<u8> {
        self.registry.load_blob(SNAPSHOT_MEMORY)
    }

    /// Whether `caller` is an administrator.
    pub fn is_admin(&self, caller: PrincipalId) -> (r: bool)
        requires
            self.wf(),
        ensures
            r == self.admin(caller),
    {
        self.admins.contains(&caller)
    }

    /// `Ok` exactly for an administrator.
    pub fn require_admin(&self, caller: PrincipalId) -> (r: Result<(), Error>)
        requires
            self.wf(),
        ensures
            r == (if self.admin(caller) {
                Ok(())
            } else {
                Err(Error::NotAdmin)
            }),
    {
        if !self.is_admin(caller) {
            return Err(Error::NotAdmin);
        }
        Ok(())
    }

    /// Whether `caller` has registered.
    pub fn is_registered(&self, caller: PrincipalId) -> (r: bool)
        requires
            self.wf(),
        ensures
            r == self.registered(caller),
    {
        self.users.contains(&caller)
    }

    /// `Ok` exactly for a registered user.
    pub fn require_registered(&self, caller: PrincipalId) -> (r: Result<(), Error>)
        requires
            self.wf(),
        ensures
            r == (if self.registered(caller) {
                Ok(())
            } else {
                Err(Error::NotRegistered)
            }),
    {
        if !self.is_registered(caller) {
            return Err(Error::NotRegistered);
        }
        Ok(())
    }

    /// Makes `caller` an administrator.
    pub fn init_admin(&mut self, caller: PrincipalId)
        requires
            old(self).wf(),
        ensures
            final(self).wf(),
            final(self).admins.as_map() == old(self).admins.as_map().insert(caller, ()),
            final(self).users == old(self).users,
            final(self).posts == old(self).posts,
            final(self).image_chunks == old(self).image_chunks,
            final(self).likes == old(self).likes,
            final(self).comments == old(self).comments,
            final(self).post_comments == old(self).post_comments,
            final(self).next_post == old(self).next_post,
            final(self).next_comment == old(self).next_comment,
            final(self).comment_replies == old(self).comment_replies,
            old(self).counts_match() ==> final(self).counts_match(),
    {
        self.admins.insert(caller, ());
    }

    /// Hands out the next post id.
    pub fn next_post_id(&mut self) -> (r: u64)
        requires
            old(self).wf(),
            counter_value(old(self).next_post) < u64::MAX,
        ensures
            final(self).wf(),
            r == counter_value(old(self).next_post),
            counter_value(final(self).next_post) == r + 1,
            final(self).users == old(self).users,
            final(self).posts == old(self).posts,
            final(self).image_chunks == old(self).image_chunks,
            final(self).likes == old(self).likes,
            final(self).comments == old(self).comments,
            final(self).post_comments == old(self).post_comments,
            final(self).next_comment == old(self).next_comment,
            final(self).admins == old(self).admins,
            final(self).comment_replies == old(self).comment_replies,
    {
        let id = self.next_post.get();
        self.next_post.set(id + 1);
        id
    }

    /// Hands out the next comment id.
    pub fn next_comment_id(&mut self) -> (r: u64)
        requires
            old(self).wf(),
            counter_value(old(self).next_comment) < u64::MAX,
        ensures
            final(self).wf(),
            r == counter_value(old(self).next_comment),
            counter_value(final(self).next_comment) == r + 1,
            final(self).users == old(self).users,
            final(self).posts == old(self).posts,
            final(self).image_chunks == old(self).image_chunks,
            final(self).likes == old(self).likes,
            final(self).comments == old(self).comments,
            final(self).post_comments == old(self).post_comments,
            final(self).next_post == old(self).next_post,
            final(self).admins == old(self).admins,
            final(self).comment_replies == old(self).comment_replies,
    {
        let id = self.next_comment.get();
        self.next_comment.set(id + 1);
        id
    }

    /// Stores `post` in place of the stored post with its id.
    pub(crate) fn replace_post(&mut self, post: Post)
        requires
            old(self).wf(),
            old(self).posts.as_map().contains_key(post.id),
            post.images@.len() <= MAX_IMAGES_PER_POST,
        ensures
            final(self).wf(),
            final(self).posts.as_map() == old(self).posts.as_map().insert(post.id, post),
            final(self).users == old(self).users,
            final(self).image_chunks == old(self).image_chunks,
            final(self).likes == old(self).likes,
            final(self).comments == old(self).comments,
            final(self).post_comments == old(self).post_comments,
            final(self).next_post == old(self).next_post,
            final(self).next_comment == old(self).next_comment,
            final(self).admins == old(self).admins,
            final(self).comment_replies == old(self).comment_replies,
    {
        let ghost before = self.posts;
        let ghost p = before.pos(post.id);
        let id = post.id;
        self.posts.insert(id, post);
        proof {
            assert(self.posts.entries@ == before.entries@.update(p, (id, post)));
            assert forall|a: int, b: int|
                0 <= a < b < self.posts.entries@.len() implies #[trigger] self.posts.entries@[a].0
                < #[trigger] self.posts.entries@[b].0 by {
                assert(before.entries@[a].0 < before.entries@[b].0);
            }
            assert forall|a: int| 0 <= a < self.posts.entries@.len() implies #[trigger] self.posts.entries@[a].0
                < counter_value(self.next_post) && self.posts.entries@[a].0
                == self.posts.entries@[a].1.id && self.posts.entries@[a].1.images@.len()
                <= MAX_IMAGES_PER_POST by {
                assert(before.entries@[a].0 < counter_value(self.next_post));
                assert(before.entries@[a].0 == before.entries@[a].1.id);
            }
        }
    }

    /// Stores `comment` in place of the stored comment with its id, or as a new comment
    /// with an id that was handed out.
    pub(crate) fn put_comment(&mut self, comment: Comment)
        requires
            old(self).wf(),
            comment.id < counter_value(old(self).next_comment),
        ensures
            final(self).wf(),
            final(self).comments.as_map() == old(self).comments.as_map().insert(comment.id, comment),
            final(self).users == old(self).users,
            final(self).posts == old(self).posts,
            final(self).image_chunks == old(self).image_chunks,
            final(self).likes == old(self).likes,
            final(self).post_comments == old(self).post_comments,
            final(self).next_post == old(self).next_post,
            final(self).next_comment == old(self).next_comment,
            final(self).admins == old(self).admins,
            final(self).comment_replies == old(self).comment_replies,
    {
        let ghost before = self.comments;
        let id = comment.id;
        self.comments.insert(id, comment);
        proof {
            assert forall|a: int| 0 <= a < self.comments.entries@.len() implies #[trigger] self.comments.entries@[a].0
                == self.comments.entries@[a].1.id && self.comments.entries@[a].0 < counter_value(
                self.next_comment,
            ) by {
                if before.has(id) {
                    if a != before.pos(id) {
                        assert(self.comments.entries@[a] == before.entries@[a]);
                    }
                } else if a < before.entries@.len() {
                    assert(self.comments.entries@[a] == before.entries@[a]);
                }
            }
        }
    }

    /// Removes the comment `id`, where there is one.
    pub(crate) fn drop_comment(&mut self, id: u64)
        requires
            old(self).wf(),
        ensures
            final(self).wf(),
            final(self).comments.as_map() == old(self).comments.as_map().remove(id),
            final(self).users == old(self).users,
            final(self).posts == old(self).posts,
            final(self).image_chunks == old(self).image_chunks,
            final(self).likes == old(self).likes,
            final(self).post_comments == old(self).post_comments,
            final(self).next_post == old(self).next_post,
            final(self).next_comment == old(self).next_comment,
            final(self).admins == old(self).admins,
            final(self).comment_replies == old(self).comment_replies,
    {
        let ghost before = self.comments;
        let _ = self.comments.remove(&id);
        proof {
            if before.has(id) {
                let p = before.pos(id);
                assert forall|a: int| 0 <= a < self.comments.entries@.len() implies #[trigger] self.comments.entries@[a].0
                    == self.comments.entries@[a].1.id && self.comments.entries@[a].0 < counter_value(
                    self.next_comment,
                ) by {
                    let a2 = if a < p { a } else { a + 1 };
                    assert(self.comments.entries@[a] == before.entries@[a2]);
                }
            }
        }
    }

    /// The next post id that will be handed out.
    pub fn post_counter(&self) -> (r: u64)
        ensures
            r == counter_value(self.next_post),
    {
        self.next_post.get()
    }

    /// The next comment id that will be handed out.
    pub fn comment_counter(&self) -> (r: u64)
        ensures
            r == counter_value(self.next_comment),
    {
        self.next_comment.get()
    }
}

} // verus!
