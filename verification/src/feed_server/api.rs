//! The requests of the feed server: administrators, profiles, posts, likes and
//! comments.
use vstd::prelude::*;
use crate::principal::PrincipalId;
use crate::stable::counter_value;
use crate::sticker_server::api::window;
use crate::sticker_server::types::allowed_content_type;
use crate::text::byte_len;
use super::state::FeedState;
use super::types::{
    Comment, CommentModel, CommentsPage, LikeKey, MAX_COMMENT_LENGTH, CreatePostRequest, Error, ImageModel, Post, PostImage, PostModel, PostStatus, PostSummary,
    PostsPage, ProfileModel, StatusModel, UserProfile, MAX_CONTENT_LENGTH, MAX_IMAGES_PER_POST,
};
use super::upload::{finalize_images_answer, post_chunk_keys, upload_image_answer, validate_content_type};
use super::types::image_models;
use super::counts::{
    lemma_counts_after_add, lemma_counts_fresh_after_add, lemma_counts_after_post_change, lemma_counts_after_post_delete,
    lemma_counts_after_reply_delete, lemma_counts_after_thread_delete,
};

verus! {

/// The number of bytes of the UTF-8 encoding of a text.
pub open spec fn utf8_len(s: Seq<char>) -> nat {
    vstd::utf8::encode_utf8(s).len()
}

/// Every requested image has an allowed content type.
pub open spec fn image_types_allowed(images: Seq<(String, u64, u32)>) -> bool {
    forall|i: int| 0 <= i < images.len() ==> allowed_content_type(#[trigger] images[i].0@)
}

/// What `create_post` answers when it refuses the request.
pub open spec fn create_post_answer(s: &FeedState, caller: PrincipalId, req: &CreatePostRequest) -> Result<(), Error> {
    if !s.registered(caller) {
        Err(Error::NotRegistered)
    } else if utf8_len(req.content@) > MAX_CONTENT_LENGTH {
        Err(Error::ContentTooLong)
    } else if req.images@.len() > MAX_IMAGES_PER_POST {
        Err(Error::TooManyImages)
    } else if !image_types_allowed(req.images@) {
        Err(Error::InvalidContentType)
    } else {
        Ok(())
    }
}

/// The image descriptions of a new post, with no size known yet.
pub open spec fn requested_images(images: Seq<(String, u64, u32)>) -> Seq<ImageModel> {
    Seq::new(
        images.len(),
        |i: int| ImageModel {
            content_type: images[i].0@,
            size: images[i].1,
            chunk_count: images[i].2,
            width: None,
            height: None,
        },
    )
}

/// The post that `create_post` stores.
pub open spec fn new_post(id: u64, caller: PrincipalId, now: u64, req: &CreatePostRequest) -> PostModel {
    PostModel {
        id,
        author: caller,
        content: req.content@,
        images: requested_images(req.images@),
        status: if req.images@.len() == 0 {
            StatusModel::Published
        } else {
            StatusModel::Pending { uploaded_images: Seq::empty() }
        },
        like_count: 0,
        comment_count: 0,
        created_at: now,
    }
}

/// The published posts of `e`, last entry first.
pub open spec fn published_newest_first(e: Seq<(u64, Post)>) -> Seq<Post>
    decreases e.len(),
{
    if e.len() == 0 {
        Seq::empty()
    } else {
        published_newest_first(e.drop_first()) + if e[0].1.status@ == StatusModel::Published {
            seq![e[0].1]
        } else {
            Seq::empty()
        }
    }
}

/// `ps` shows post `p`.
pub open spec fn post_summarizes(ps: PostSummary, p: Post) -> bool {
    &&& ps.id == p.id
    &&& ps.author == p.author
    &&& ps.content@ == p.content@
    &&& ps.image_count == p.images@.len() as u32
    &&& ps.like_count == p.like_count
    &&& ps.comment_count == p.comment_count
    &&& ps.created_at == p.created_at
}

/// `after` holds `p` for post `post_id` and the other posts of `before` unchanged.
pub open spec fn post_changed(before: Map<u64, Post>, after: Map<u64, Post>, post_id: u64, p: PostModel) -> bool {
    &&& after.contains_key(post_id)
    &&& after.remove(post_id) == before.remove(post_id)
    &&& after[post_id]@ == p
}

/// The models of the stored comments.
pub open spec fn comment_models(m: Map<u64, Comment>) -> Map<u64, CommentModel> {
    m.map_values(|c: Comment| c@)
}

/// What `add_comment` answers when it refuses the request.
pub open spec fn add_comment_answer(s: &FeedState, caller: PrincipalId, post_id: u64, content: Seq<char>, reply_to: Option<u64>) -> Result<(), Error> {
    if !s.registered(caller) {
        Err(Error::NotRegistered)
    } else if utf8_len(content) > MAX_COMMENT_LENGTH {
        Err(Error::ContentTooLong)
    } else if !s.posts.as_map().contains_key(post_id) {
        Err(Error::PostNotFound)
    } else {
        match reply_to {
            None => Ok(()),
            Some(pid) => if !s.comments.as_map().contains_key(pid) {
                Err(Error::InvalidReplyTarget)
            } else if s.comments.as_map()[pid].reply_to_comment_id is Some {
                Err(Error::ReplyToReply)
            } else if s.comments.as_map()[pid].post_id != post_id {
                Err(Error::CommentPostMismatch)
            } else {
                Ok(())
            },
        }
    }
}

/// The ids of `ids` that name stored comments, in order.
pub open spec fn found(comments: Map<u64, Comment>, ids: Seq<u64>) -> Seq<u64>
    decreases ids.len(),
{
    if ids.len() == 0 {
        Seq::empty()
    } else {
        found(comments, ids.drop_last()) + if comments.contains_key(ids.last()) {
            seq![ids.last()]
        } else {
            Seq::empty()
        }
    }
}

impl FeedState {
    /// Lets an administrator make `principal` an administrator.
    pub fn add_admin(&mut self, caller: PrincipalId, principal: PrincipalId) -> (r: Result<(), Error>)
        requires
            old(self).wf(),
        ensures
            final(self).wf(),
            r == (if old(self).admin(caller) { Ok(()) } else { Err(Error::NotAdmin) }),
            r is Err ==> *final(self) == *old(self),
            r is Ok ==> final(self).admins.as_map() == old(self).admins.as_map().insert(principal, ())
                && final(self).users == old(self).users && final(self).posts == old(self).posts
                && final(self).image_chunks == old(self).image_chunks && final(self).likes
                == old(self).likes && final(self).comments == old(self).comments
                && final(self).post_comments == old(self).post_comments && final(self).next_post
                == old(self).next_post && final(self).next_comment == old(self).next_comment
                && final(self).comment_replies == old(self).comment_replies,
            old(self).counts_match() ==> final(self).counts_match(),
    {
        self.require_admin(caller)?;
        self.admins.insert(principal, ());
        Ok(())
    }

    /// Lets an administrator take the rights of `principal` away.
    pub fn remove_admin(&mut self, caller: PrincipalId, principal: PrincipalId) -> (r: Result<(), Error>)
        requires
            old(self).wf(),
        ensures
            final(self).wf(),
            r == (if old(self).admin(caller) { Ok(()) } else { Err(Error::NotAdmin) }),
            r is Err ==> *final(self) == *old(self),
            r is Ok ==> final(self).admins.as_map() == old(self).admins.as_map().remove(principal)
                && final(self).users == old(self).users && final(self).posts == old(self).posts
                && final(self).image_chunks == old(self).image_chunks && final(self).likes
                == old(self).likes && final(self).comments == old(self).comments
                && final(self).post_comments == old(self).post_comments && final(self).next_post
                == old(self).next_post && final(self).next_comment == old(self).next_comment
                && final(self).comment_replies == old(self).comment_replies,
            old(self).counts_match() ==> final(self).counts_match(),
    {
        self.require_admin(caller)?;
        let _ = self.admins.remove(&principal);
        Ok(())
    }

    /// Registers `caller` with a nickname and an avatar.
    pub fn register(&mut self, caller: PrincipalId, now: u64, nickname: String, avatar_url: String) -> (r: Result<(), Error>)
        requires
            old(self).wf(),
        ensures
            final(self).wf(),
            r == (if old(self).registered(caller) { Err(Error::UserAlreadyExists) } else { Ok(()) }),
            r is Err ==> *final(self) == *old(self),
            r is Ok ==> final(self).users.as_map() == old(self).users.as_map().insert(
                caller,
                UserProfile { principal: caller, nickname, avatar_url, created_at: now },
            ) && final(self).posts == old(self).posts && final(self).image_chunks
                == old(self).image_chunks && final(self).likes == old(self).likes
                && final(self).comments == old(self).comments && final(self).post_comments
                == old(self).post_comments && final(self).next_post == old(self).next_post
                && final(self).next_comment == old(self).next_comment && final(self).admins
                == old(self).admins && final(self).comment_replies == old(self).comment_replies,
            old(self).counts_match() ==> final(self).counts_match(),
    {
        if self.users.contains(&caller) {
            return Err(Error::UserAlreadyExists);
        }
        let profile = UserProfile { principal: caller, nickname, avatar_url, created_at: now };
        self.users.insert(caller, profile);
        Ok(())
    }

    /// Changes the nickname or the avatar of `caller`, where given.
    pub fn update_profile(&mut self, caller: PrincipalId, nickname: Option<String>, avatar_url: Option<String>) -> (r: Result<(), Error>)
        requires
            old(self).wf(),
        ensures
            final(self).wf(),
            r == (if old(self).registered(caller) { Ok(()) } else { Err(Error::UserNotFound) }),
            r is Err ==> *final(self) == *old(self),
            r is Ok ==> {
                let p = old(self).users.as_map()[caller]@;
                &&& final(self).users.as_map().contains_key(caller)
                &&& final(self).users.as_map().remove(caller) == old(self).users.as_map().remove(caller)
                &&& final(self).users.as_map()[caller]@ == ProfileModel {
                    nickname: match nickname {
                        Some(n) => n@,
                        None => p.nickname,
                    },
                    avatar_url: match avatar_url {
                        Some(a) => a@,
                        None => p.avatar_url,
                    },
                    ..p
                }
                &&& final(self).posts == old(self).posts
                &&& final(self).image_chunks == old(self).image_chunks
                &&& final(self).likes == old(self).likes
                &&& final(self).comments == old(self).comments
                &&& final(self).post_comments == old(self).post_comments
                &&& final(self).next_post == old(self).next_post
                &&& final(self).next_comment == old(self).next_comment
                &&& final(self).admins == old(self).admins
                &&& final(self).comment_replies == old(self).comment_replies
            },
            old(self).counts_match() ==> final(self).counts_match(),
    {
        let mut profile = match self.users.get(&caller) {
            Some(p) => p.duplicate(),
            None => return Err(Error::UserNotFound),
        };
        match nickname {
            Some(n) => {
                profile.nickname = n;
            },
            None => {},
        }
        match avatar_url {
            Some(a) => {
                profile.avatar_url = a;
            },
            None => {},
        }
        let ghost before = self.users.as_map();
        self.users.insert(caller, profile);
        proof {
            assert(self.users.as_map().remove(caller) =~= before.remove(caller));
        }
        Ok(())
    }

    /// The profile of `principal`.
    pub fn get_profile(&self, principal: PrincipalId) -> (r: Result<UserProfile, Error>)
        requires
            self.wf(),
        ensures
            !self.registered(principal) ==> r == Err::<UserProfile, Error>(Error::UserNotFound),
            self.registered(principal) ==> (r matches Ok(p) && p@ == self.users.as_map()[principal]@),
    {
        match self.users.get(&principal) {
            Some(p) => Ok(p.duplicate()),
            None => Err(Error::UserNotFound),
        }
    }

    /// Deletes the profile of `caller`.
    pub fn delete_profile(&mut self, caller: PrincipalId) -> (r: Result<(), Error>)
        requires
            old(self).wf(),
        ensures
            final(self).wf(),
            r == (if old(self).registered(caller) { Ok(()) } else { Err(Error::UserNotFound) }),
            final(self).users.as_map() == old(self).users.as_map().remove(caller),
            final(self).posts == old(self).posts,
            final(self).image_chunks == old(self).image_chunks,
            final(self).likes == old(self).likes,
            final(self).comments == old(self).comments,
            final(self).post_comments == old(self).post_comments,
            final(self).next_post == old(self).next_post,
            final(self).next_comment == old(self).next_comment,
            final(self).admins == old(self).admins,
            final(self).comment_replies == old(self).comment_replies,
            old(self).counts_match() ==> final(self).counts_match(),
    {
        match self.users.remove(&caller) {
            Some(_) => Ok(()),
            None => Err(Error::UserNotFound),
        }
    }

    /// Lets a registered user create a post; its id is the next post id. A post
    /// without images is published at once, one with images waits for them.
    pub fn create_post(&mut self, caller: PrincipalId, now: u64, req: CreatePostRequest) -> (r: Result<u64, Error>)
        requires
            old(self).wf(),
            counter_value(old(self).next_post) < u64::MAX,
        ensures
            final(self).wf(),
            create_post_answer(old(self), caller, &req) matches Err(e) ==> r == Err::<u64, Error>(e)
                && *final(self) == *old(self),
            create_post_answer(old(self), caller, &req) is Ok ==> {
                let id = counter_value(old(self).next_post);
                &&& r == Ok::<u64, Error>(id)
                &&& counter_value(final(self).next_post) == id + 1
                &&& !old(self).posts.as_map().contains_key(id)
                &&& final(self).posts.as_map().contains_key(id)
                &&& final(self).posts.as_map().remove(id) == old(self).posts.as_map()
                &&& final(self).posts.as_map()[id]@ == new_post(id, caller, now, &req)
                &&& final(self).users == old(self).users
                &&& final(self).image_chunks == old(self).image_chunks
                &&& final(self).likes == old(self).likes
                &&& final(self).comments == old(self).comments
                &&& final(self).post_comments == old(self).post_comments
                &&& final(self).next_comment == old(self).next_comment
                &&& final(self).admins == old(self).admins
                &&& final(self).comment_replies == old(self).comment_replies
            },
            old(self).counts_match() ==> final(self).counts_match(),
    {
        self.require_registered(caller)?;
        if byte_len(req.content.as_str()) > MAX_CONTENT_LENGTH {
            return Err(Error::ContentTooLong);
        }
        if req.images.len() > MAX_IMAGES_PER_POST as usize {
            return Err(Error::TooManyImages);
        }
        let mut k: usize = 0;
        while k < req.images.len()
            invariant
                self.wf(),
                *self == *old(self),
                old(self).registered(caller),
                utf8_len(req.content@) <= MAX_CONTENT_LENGTH,
                req.images@.len() <= MAX_IMAGES_PER_POST,
                k <= req.images@.len(),
                forall|j: int| 0 <= j < k ==> allowed_content_type(#[trigger] req.images@[j].0@),
            decreases req.images@.len() - k,
        {
            validate_content_type(req.images[k].0.as_str())?;
            k = k + 1;
        }
        let ghost req_images = req.images@;
        let ghost before = self.posts;
        let id = self.next_post_id();
        let mut images: Vec<PostImage> = Vec::new();
        let mut i: usize = 0;
        while i < req.images.len()
            invariant
                i <= req.images@.len(),
                req.images@ == req_images,
                images@.len() == i,
                forall|j: int| 0 <= j < i ==> #[trigger] images@[j]@ == requested_images(req_images)[j],
            decreases req.images@.len() - i,
        {
            let (ct, size, chunk_count) = (&req.images[i].0, req.images[i].1, req.images[i].2);
            images.push(PostImage { content_type: ct.clone(), size, chunk_count, width: None, height: None });
            i = i + 1;
        }
        let status = if images.len() == 0 {
            PostStatus::Published
        } else {
            PostStatus::Pending { uploaded_images: Vec::new() }
        };
        let post = Post {
            id,
            author: caller,
            content: req.content,
            images,
            status,
            like_count: 0,
            comment_count: 0,
            created_at: now,
        };
        proof {
            assert(crate::feed_server::types::image_models(post.images@) =~= requested_images(req_images));
            if before.has(id) {
                let j = before.pos(id);
                assert(before.entries@[j].0 < id);
            }
        }
        self.posts.insert(id, post);
        proof {
            assert(self.posts.entries@ == before.entries@.push((id, post)));
            assert(self.posts.as_map().remove(id) =~= before.as_map());
            assert forall|a: int, b: int|
                0 <= a < b < self.posts.entries@.len() implies #[trigger] self.posts.entries@[a].0
                < #[trigger] self.posts.entries@[b].0 by {
                if b < before.entries@.len() {
                    assert(before.entries@[a].0 < before.entries@[b].0);
                } else {
                    assert(before.entries@[a].0 < id);
                }
            }
            assert forall|a: int| 0 <= a < self.posts.entries@.len() implies #[trigger] self.posts.entries@[a].0
                < counter_value(self.next_post) && self.posts.entries@[a].0
                == self.posts.entries@[a].1.id && self.posts.entries@[a].1.images@.len() <= MAX_IMAGES_PER_POST by {
                if a < before.entries@.len() {
                    assert(before.entries@[a].0 < id);
                    assert(before.entries@[a].0 == before.entries@[a].1.id);
                }
            }
        }
        proof {
            if old(self).counts_match() {
                assert(old(self).posts.as_map().remove(id) =~= old(self).posts.as_map());
                lemma_counts_after_post_change(*old(self), *self, id);
            }
        }
        Ok(id)
    }

    /// The post `post_id`.
    pub fn get_post(&self, post_id: u64) -> (r: Result<Post, Error>)
        requires
            self.wf(),
        ensures
            !self.posts.as_map().contains_key(post_id) ==> r == Err::<Post, Error>(Error::PostNotFound),
            self.posts.as_map().contains_key(post_id) ==> (r matches Ok(p) && p@ == self.posts.as_map()[post_id]@),
    {
        match self.posts.get(&post_id) {
            Some(p) => Ok(p.duplicate()),
            None => Err(Error::PostNotFound),
        }
    }

    /// One page of the published posts, newest first, and the number of all posts.
    pub fn list_posts(&self, offset: u64, limit: u64) -> (r: PostsPage)
        requires
            self.wf(),
        ensures
            r.total == self.posts.entries@.len(),
            ({
                let w = window(published_newest_first(self.posts.entries@), (offset as usize) as nat, (limit as usize) as nat);
                &&& r.posts@.len() == w.len()
                &&& forall|i: int| 0 <= i < w.len() ==> post_summarizes(#[trigger] r.posts@[i], w[i])
            }),
    {
        let off = offset as usize;
        let lim = limit as usize;
        let n = self.posts.entries.len();
        let ghost e = self.posts.entries@;
        let mut out: Vec<PostSummary> = Vec::new();
        let mut seen: usize = 0;
        let mut j: usize = n;
        proof {
            assert(e.subrange(n as int, n as int) =~= Seq::<(u64, Post)>::empty());
        }
        while j > 0
            invariant
                self.wf(),
                e == self.posts.entries@,
                n == e.len(),
                j <= n,
                seen == published_newest_first(e.subrange(j as int, n as int)).len(),
                seen <= n - j,
                ({
                    let w = window(published_newest_first(e.subrange(j as int, n as int)), off as nat, lim as nat);
                    &&& out@.len() == w.len()
                    &&& forall|i: int| 0 <= i < w.len() ==> post_summarizes(#[trigger] out@[i], w[i])
                }),
            decreases j,
        {
            j = j - 1;
            let ghost prev = published_newest_first(e.subrange(j + 1, n as int));
            proof {
                let sub = e.subrange(j as int, n as int);
                assert(sub.drop_first() =~= e.subrange(j + 1, n as int));
                assert(sub[0] == e[j as int]);
            }
            let post = &self.posts.entries[j].1;
            let published = match &post.status {
                PostStatus::Published => true,
                PostStatus::Pending { .. } => false,
            };
            if published {
                if seen >= off && seen - off < lim {
                    out.push(PostSummary {
                        id: post.id,
                        author: post.author,
                        content: post.content.clone(),
                        image_count: post.images.len() as u32,
                        like_count: post.like_count,
                        comment_count: post.comment_count,
                        created_at: post.created_at,
                    });
                }
                proof {
                    let cur = published_newest_first(e.subrange(j as int, n as int));
                    assert(cur == prev.push(*post));
                    let w0 = window(prev, off as nat, lim as nat);
                    let w1 = window(cur, off as nat, lim as nat);
                    if seen >= off && seen - off < lim {
                        assert(w1 =~= w0.push(*post));
                    } else {
                        assert(w1 =~= w0);
                    }
                }
                seen = seen + 1;
            } else {
                proof {
                    let cur = published_newest_first(e.subrange(j as int, n as int));
                    assert(cur =~= prev);
                }
            }
        }
        proof {
            assert(e.subrange(0, n as int) =~= e);
        }
        PostsPage { posts: out, total: n as u64 }
    }

    /// Lets a registered user like an existing post once.
    pub fn like_post(&mut self, caller: PrincipalId, post_id: u64) -> (r: Result<(), Error>)
        requires
            old(self).wf(),
            old(self).posts.as_map().contains_key(post_id) ==> old(self).posts.as_map()[post_id].like_count < u64::MAX,
        ensures
            final(self).wf(),
            r == (if !old(self).registered(caller) {
                Err(Error::NotRegistered)
            } else if !old(self).posts.as_map().contains_key(post_id) {
                Err(Error::PostNotFound)
            } else if old(self).likes.as_map().contains_key(LikeKey { post_id, user: caller }) {
                Err(Error::AlreadyLiked)
            } else {
                Ok(())
            }),
            r is Err ==> *final(self) == *old(self),
            r is Ok ==> {
                let p = old(self).posts.as_map()[post_id]@;
                &&& final(self).likes.as_map() == old(self).likes.as_map().insert(LikeKey { post_id, user: caller }, ())
                &&& post_changed(old(self).posts.as_map(), final(self).posts.as_map(), post_id, PostModel { like_count: (p.like_count + 1) as u64, ..p })
                &&& final(self).users == old(self).users
                &&& final(self).image_chunks == old(self).image_chunks
                &&& final(self).comments == old(self).comments
                &&& final(self).post_comments == old(self).post_comments
                &&& final(self).next_post == old(self).next_post
                &&& final(self).next_comment == old(self).next_comment
                &&& final(self).admins == old(self).admins
                &&& final(self).comment_replies == old(self).comment_replies
            },
            old(self).counts_match() ==> final(self).counts_match(),
    {
        self.require_registered(caller)?;
        let mut post = match self.posts.get(&post_id) {
            Some(p) => p.duplicate(),
            None => return Err(Error::PostNotFound),
        };
        let key = LikeKey { post_id, user: caller };
        if self.likes.contains(&key) {
            return Err(Error::AlreadyLiked);
        }
        self.likes.insert(key, ());
        post.like_count = post.like_count + 1;
        proof {
            let i = self.posts.pos(post_id);
            self.posts.lemma_pos(i);
        }
        let ghost before = self.posts.as_map();
        self.replace_post(post);
        proof {
            assert(self.posts.as_map().remove(post_id) =~= before.remove(post_id));
        }
        proof {
            if old(self).counts_match() {
                lemma_counts_after_post_change(*old(self), *self, post_id);
            }
        }
        Ok(())
    }

    /// Lets a registered user take back a like.
    pub fn unlike_post(&mut self, caller: PrincipalId, post_id: u64) -> (r: Result<(), Error>)
        requires
            old(self).wf(),
        ensures
            final(self).wf(),
            r == (if !old(self).registered(caller) {
                Err(Error::NotRegistered)
            } else if !old(self).likes.as_map().contains_key(LikeKey { post_id, user: caller }) {
                Err(Error::NotLiked)
            } else {
                Ok(())
            }),
            r is Err ==> *final(self) == *old(self),
            r is Ok ==> {
                &&& final(self).likes.as_map() == old(self).likes.as_map().remove(LikeKey { post_id, user: caller })
                &&& old(self).posts.as_map().contains_key(post_id) ==> {
                    let p = old(self).posts.as_map()[post_id]@;
                    post_changed(old(self).posts.as_map(), final(self).posts.as_map(), post_id, PostModel { like_count: p.like_count.saturating_sub(1), ..p })
                }
                &&& !old(self).posts.as_map().contains_key(post_id) ==> final(self).posts == old(self).posts
                &&& final(self).users == old(self).users
                &&& final(self).image_chunks == old(self).image_chunks
                &&& final(self).comments == old(self).comments
                &&& final(self).post_comments == old(self).post_comments
                &&& final(self).next_post == old(self).next_post
                &&& final(self).next_comment == old(self).next_comment
                &&& final(self).admins == old(self).admins
                &&& final(self).comment_replies == old(self).comment_replies
            },
            old(self).counts_match() ==> final(self).counts_match(),
    {
        self.require_registered(caller)?;
        let key = LikeKey { post_id, user: caller };
        if !self.likes.contains(&key) {
            return Err(Error::NotLiked);
        }
        let _ = self.likes.remove(&key);
        match self.posts.get(&post_id) {
            Some(p) => {
                let mut post = p.duplicate();
                post.like_count = post.like_count.saturating_sub(1);
                proof {
                    let i = self.posts.pos(post_id);
                    self.posts.lemma_pos(i);
                }
                let ghost before = self.posts.as_map();
                self.replace_post(post);
                proof {
                    assert(self.posts.as_map().remove(post_id) =~= before.remove(post_id));
                }
            },
            None => {},
        }
        proof {
            if old(self).counts_match() {
                lemma_counts_after_post_change(*old(self), *self, post_id);
            }
        }
        Ok(())
    }

    /// Whether `caller` likes post `post_id`.
    pub fn is_liked(&self, caller: PrincipalId, post_id: u64) -> (r: bool)
        requires
            self.wf(),
        ensures
            r == self.likes.as_map().contains_key(LikeKey { post_id, user: caller }),
    {
        self.likes.contains(&LikeKey { post_id, user: caller })
    }

    /// `Ok` exactly when `caller` is registered and wrote the existing post `post_id`.
    fn require_author(&self, caller: PrincipalId, post_id: u64) -> (r: Result<(), Error>)
        requires
            self.wf(),
        ensures
            r == (if !self.registered(caller) {
                Err(Error::NotRegistered)
            } else if !self.posts.as_map().contains_key(post_id) {
                Err(Error::PostNotFound)
            } else if self.posts.as_map()[post_id].author != caller {
                Err(Error::NotAuthor)
            } else {
                Ok(())
            }),
    {
        self.require_registered(caller)?;
        match self.posts.get(&post_id) {
            Some(p) => {
                if !p.author.same(&caller) {
                    return Err(Error::NotAuthor);
                }
                Ok(())
            },
            None => Err(Error::PostNotFound),
        }
    }

    /// Lets the author of a pending post upload one chunk of one of its images.
    pub fn upload_post_image(&mut self, caller: PrincipalId, post_id: u64, image_index: u32, chunk_index: u32, data: Vec<u8>) -> (r: Result<(), Error>)
        requires
            old(self).wf(),
        ensures
            final(self).wf(),
            r == (if !old(self).registered(caller) {
                Err(Error::NotRegistered)
            } else if !old(self).posts.as_map().contains_key(post_id) {
                Err(Error::PostNotFound)
            } else if old(self).posts.as_map()[post_id].author != caller {
                Err(Error::NotAuthor)
            } else {
                upload_image_answer(old(self), post_id, image_index, chunk_index, data@.len())
            }),
            r is Err ==> *final(self) == *old(self),
            r is Ok ==> final(self).chunk_map() == old(self).chunk_map().insert((post_id, image_index, chunk_index), data@)
                && final(self).users == old(self).users && final(self).posts == old(self).posts
                && final(self).likes == old(self).likes && final(self).comments == old(self).comments
                && final(self).post_comments == old(self).post_comments && final(self).next_post
                == old(self).next_post && final(self).next_comment == old(self).next_comment
                && final(self).admins == old(self).admins && final(self).comment_replies
                == old(self).comment_replies,
            old(self).counts_match() ==> final(self).counts_match(),
    {
        self.require_author(caller, post_id)?;
        self.upload_image_chunk(post_id, image_index, chunk_index, data)
    }

    /// Lets the author of a pending post publish it once all its image chunks are in.
    pub fn finalize_post(&mut self, caller: PrincipalId, post_id: u64) -> (r: Result<(), Error>)
        requires
            old(self).wf(),
        ensures
            final(self).wf(),
            r == (if !old(self).registered(caller) {
                Err(Error::NotRegistered)
            } else if !old(self).posts.as_map().contains_key(post_id) {
                Err(Error::PostNotFound)
            } else if old(self).posts.as_map()[post_id].author != caller {
                Err(Error::NotAuthor)
            } else {
                finalize_images_answer(old(self), post_id)
            }),
            r is Err ==> *final(self) == *old(self),
            r is Ok ==> {
                let p = old(self).posts.as_map()[post_id]@;
                &&& post_changed(old(self).posts.as_map(), final(self).posts.as_map(), post_id, PostModel {
                    images: super::upload::sized_images(old(self).chunk_map(), post_id, p.images),
                    status: StatusModel::Published,
                    ..p
                })
                &&& final(self).users == old(self).users
                &&& final(self).image_chunks == old(self).image_chunks
                &&& final(self).likes == old(self).likes
                &&& final(self).comments == old(self).comments
                &&& final(self).post_comments == old(self).post_comments
                &&& final(self).next_post == old(self).next_post
                &&& final(self).next_comment == old(self).next_comment
                &&& final(self).admins == old(self).admins
                &&& final(self).comment_replies == old(self).comment_replies
            },
            old(self).counts_match() ==> final(self).counts_match(),
    {
        self.require_author(caller, post_id)?;
        let r = self.finalize_post_images(post_id);
        proof {
            if old(self).counts_match() && r is Ok {
                lemma_counts_after_post_change(*old(self), *self, post_id);
            }
        }
        r
    }

    /// Lets a registered user comment on a post, or reply to a top-level comment of
    /// it; the comment's id is the next comment id.
    pub fn add_comment(&mut self, caller: PrincipalId, now: u64, post_id: u64, content: String, reply_to_comment_id: Option<u64>) -> (r: Result<u64, Error>)
        requires
            old(self).wf(),
            counter_value(old(self).next_comment) < u64::MAX,
            old(self).posts.as_map().contains_key(post_id) ==> old(self).posts.as_map()[post_id].comment_count < u64::MAX,
            reply_to_comment_id matches Some(pid) ==> (old(self).comments.as_map().contains_key(pid)
                ==> old(self).comments.as_map()[pid].reply_count < u64::MAX),
        ensures
            final(self).wf(),
            add_comment_answer(old(self), caller, post_id, content@, reply_to_comment_id) matches Err(e)
                ==> r == Err::<u64, Error>(e) && *final(self) == *old(self),
            add_comment_answer(old(self), caller, post_id, content@, reply_to_comment_id) is Ok ==> {
                let id = counter_value(old(self).next_comment);
                let p = old(self).posts.as_map()[post_id]@;
                let old_models = comment_models(old(self).comments.as_map());
                let added = old_models.insert(id, CommentModel {
                    id,
                    post_id,
                    author: caller,
                    content: content@,
                    created_at: now,
                    reply_to_comment_id,
                    reply_to_user: match reply_to_comment_id {
                        Some(pid) => Some(old(self).comments.as_map()[pid].author),
                        None => None,
                    },
                    reply_count: 0,
                });
                &&& r == Ok::<u64, Error>(id)
                &&& counter_value(final(self).next_comment) == id + 1
                &&& !old(self).comments.as_map().contains_key(id)
                &&& comment_models(final(self).comments.as_map()) == match reply_to_comment_id {
                    Some(pid) => added.insert(pid, CommentModel { reply_count: (old_models[pid].reply_count + 1) as u64, ..old_models[pid] }),
                    None => added,
                }
                &&& final(self).comment_pairs() == old(self).comment_pairs().insert((post_id, id))
                &&& final(self).reply_pairs() == match reply_to_comment_id {
                    Some(pid) => old(self).reply_pairs().insert((pid, id)),
                    None => old(self).reply_pairs(),
                }
                &&& post_changed(old(self).posts.as_map(), final(self).posts.as_map(), post_id, PostModel { comment_count: (p.comment_count + 1) as u64, ..p })
                &&& final(self).users == old(self).users
                &&& final(self).image_chunks == old(self).image_chunks
                &&& final(self).likes == old(self).likes
                &&& final(self).next_post == old(self).next_post
                &&& final(self).admins == old(self).admins
            },
            old(self).counts_match() ==> final(self).counts_match(),
            old(self).counts_fresh() ==> final(self).counts_fresh(),
    {
        self.require_registered(caller)?;
        if byte_len(content.as_str()) > MAX_COMMENT_LENGTH {
            return Err(Error::ContentTooLong);
        }
        if !self.posts.contains(&post_id) {
            return Err(Error::PostNotFound);
        }
        let mut reply_to_user: Option<PrincipalId> = None;
        let mut parent_comment_id: Option<u64> = None;
        match reply_to_comment_id {
            Some(parent_id) => {
                let parent = match self.comments.get(&parent_id) {
                    Some(c) => c,
                    None => return Err(Error::InvalidReplyTarget),
                };
                if parent.reply_to_comment_id.is_some() {
                    return Err(Error::ReplyToReply);
                }
                if parent.post_id != post_id {
                    return Err(Error::CommentPostMismatch);
                }
                reply_to_user = Some(parent.author);
                parent_comment_id = Some(parent_id);
            },
            None => {},
        }
        let ghost old_models = comment_models(self.comments.as_map());
        let ghost old_posts = self.posts.as_map();
        proof {
            if self.comments.has(counter_value(self.next_comment)) {
                let j = self.comments.pos(counter_value(self.next_comment));
                assert(self.comments.entries@[j].0 < counter_value(self.next_comment));
            }
        }
        let id = self.next_comment_id();
        let comment = Comment {
            id,
            post_id,
            author: caller,
            content,
            created_at: now,
            reply_to_comment_id: parent_comment_id,
            reply_to_user,
            reply_count: 0,
        };
        let ghost new_model = comment@;
        self.put_comment(comment);
        self.post_comments.insert(post_id, id);
        let ghost added = comment_models(self.comments.as_map());
        proof {
            assert(added =~= old_models.insert(id, new_model));
        }
        match parent_comment_id {
            Some(parent_id) => {
                let mut parent = match self.comments.get(&parent_id) {
                    Some(c) => c.duplicate(),
                    None => {
                        proof {
                            assert(false);
                        }
                        return Err(Error::InvalidReplyTarget);
                    },
                };
                proof {
                    assert(parent@ == old_models[parent_id]);
                    let i = self.comments.pos(parent_id);
                    self.comments.lemma_pos(i);
                    assert(self.comments.entries@[i].0 < counter_value(self.next_comment));
                }
                parent.reply_count = parent.reply_count + 1;
                self.put_comment(parent);
                self.comment_replies.insert(parent_id, id);
                proof {
                    assert(comment_models(self.comments.as_map()) =~= added.insert(
                        parent_id,
                        CommentModel { reply_count: (old_models[parent_id].reply_count + 1) as u64, ..old_models[parent_id] },
                    ));
                }
            },
            None => {},
        }
        let mut post = match self.posts.get(&post_id) {
            Some(p) => p.duplicate(),
            None => {
                proof {
                    assert(false);
                }
                return Err(Error::PostNotFound);
            },
        };
        proof {
            let i = self.posts.pos(post_id);
            self.posts.lemma_pos(i);
        }
        post.comment_count = post.comment_count + 1;
        self.replace_post(post);
        proof {
            assert(self.posts.as_map().remove(post_id) =~= old_posts.remove(post_id));
            if old(self).counts_match() {
                lemma_counts_after_add(*old(self), *self, post_id, reply_to_comment_id, new_model);
            }
            if old(self).counts_fresh() {
                lemma_counts_fresh_after_add(*old(self), *self, post_id, reply_to_comment_id, new_model);
            }
        }
        Ok(id)
    }

    /// Lets the author of a comment, or an administrator, delete it. Deleting a
    /// top-level comment deletes its replies too; deleting a reply lowers its parent's
    /// reply count. The post's comment count drops by the number of comments deleted.
    pub fn delete_comment(&mut self, caller: PrincipalId, comment_id: u64) -> (r: Result<(), Error>)
        requires
            old(self).wf(),
            old(self).reply_ids(comment_id).len() < u64::MAX,
        ensures
            final(self).wf(),
            r == (if !old(self).comments.as_map().contains_key(comment_id) {
                Err(Error::CommentNotFound)
            } else if old(self).comments.as_map()[comment_id].author != caller && !old(self).admin(caller) {
                Err(Error::NotAdmin)
            } else {
                Ok(())
            }),
            r is Err ==> *final(self) == *old(self),
            r is Ok ==> {
                let c = old(self).comments.as_map()[comment_id];
                let total: u64 = match c.reply_to_comment_id {
                    None => (1 + old(self).reply_ids(comment_id).len()) as u64,
                    Some(_) => 1,
                };
                &&& c.reply_to_comment_id is None ==> {
                    &&& final(self).comments.as_map() == old(self).comments.as_map().remove_keys(
                        Set::new(|x: u64| old(self).reply_pairs().contains((comment_id, x))),
                    ).remove(comment_id)
                    &&& final(self).comment_pairs() == old(self).comment_pairs().difference(
                        Set::new(|p: (u64, u64)| p.0 == c.post_id && old(self).reply_pairs().contains((comment_id, p.1))),
                    ).remove((c.post_id, comment_id))
                    &&& final(self).reply_pairs() == old(self).reply_pairs().filter(|p: (u64, u64)| p.0 != comment_id)
                }
                &&& c.reply_to_comment_id matches Some(pid) ==> {
                    let old_models = comment_models(old(self).comments.as_map());
                    &&& comment_models(final(self).comments.as_map()) == if old_models.contains_key(pid) {
                        old_models.insert(pid, CommentModel { reply_count: old_models[pid].reply_count.saturating_sub(1), ..old_models[pid] })
                    } else {
                        old_models
                    }.remove(comment_id)
                    &&& final(self).comment_pairs() == old(self).comment_pairs().remove((c.post_id, comment_id))
                    &&& final(self).reply_pairs() == old(self).reply_pairs().remove((pid, comment_id))
                }
                &&& old(self).posts.as_map().contains_key(c.post_id) ==> {
                    let p = old(self).posts.as_map()[c.post_id]@;
                    post_changed(old(self).posts.as_map(), final(self).posts.as_map(), c.post_id, PostModel { comment_count: p.comment_count.saturating_sub(total), ..p })
                }
                &&& !old(self).posts.as_map().contains_key(c.post_id) ==> final(self).posts == old(self).posts
                &&& final(self).users == old(self).users
                &&& final(self).image_chunks == old(self).image_chunks
                &&& final(self).likes == old(self).likes
                &&& final(self).next_post == old(self).next_post
                &&& final(self).next_comment == old(self).next_comment
                &&& final(self).admins == old(self).admins
            },
            old(self).counts_match() ==> final(self).counts_match(),
    {
        let comment = match self.comments.get(&comment_id) {
            Some(c) => c.duplicate(),
            None => return Err(Error::CommentNotFound),
        };
        if !comment.author.same(&caller) {
            self.require_admin(caller)?;
        }
        let ghost s0 = *self;
        let post_id = comment.post_id;
        let total: u64 = match comment.reply_to_comment_id {
            None => {
                let reply_ids = self.comment_replies.listing(comment_id);
                let ghost ids = reply_ids@;
                let mut i: usize = 0;
                while i < reply_ids.len()
                    invariant
                        self.wf(),
                        ids == reply_ids@,
                        i <= ids.len(),
                        forall|x: u64| ids.contains(x) <==> s0.reply_pairs().contains((comment_id, x)),
                        self.comments.as_map() == s0.comments.as_map().remove_keys(
                            Set::new(|x: u64| ids.subrange(0, i as int).contains(x)),
                        ),
                        self.comment_pairs() == s0.comment_pairs().difference(
                            Set::new(|p: (u64, u64)| p.0 == post_id && ids.subrange(0, i as int).contains(p.1)),
                        ),
                        self.reply_pairs() == s0.reply_pairs().difference(
                            Set::new(|p: (u64, u64)| p.0 == comment_id && ids.subrange(0, i as int).contains(p.1)),
                        ),
                        self.users == s0.users,
                        self.posts == s0.posts,
                        self.image_chunks == s0.image_chunks,
                        self.likes == s0.likes,
                        self.next_post == s0.next_post,
                        self.next_comment == s0.next_comment,
                        self.admins == s0.admins,
                    decreases ids.len() - i,
                {
                    let rid = reply_ids[i];
                    self.drop_comment(rid);
                    self.post_comments.remove(post_id, rid);
                    self.comment_replies.remove(comment_id, rid);
                    proof {
                        let done = ids.subrange(0, i as int);
                        let done2 = ids.subrange(0, i + 1);
                        assert forall|x: u64| done2.contains(x) <==> (done.contains(x) || x == rid) by {
                            if done2.contains(x) {
                                let j = choose|j: int| 0 <= j < i + 1 && done2[j] == x;
                                if j < i {
                                    assert(done[j] == x);
                                }
                            }
                            if done.contains(x) {
                                let j = choose|j: int| 0 <= j < i && done[j] == x;
                                assert(done2[j] == x);
                            }
                            if x == rid {
                                assert(done2[i as int] == x);
                            }
                        }
                        assert(self.comments.as_map() =~= s0.comments.as_map().remove_keys(
                            Set::new(|x: u64| done2.contains(x)),
                        ));
                        assert(self.comment_pairs() =~= s0.comment_pairs().difference(
                            Set::new(|p: (u64, u64)| p.0 == post_id && done2.contains(p.1)),
                        ));
                        assert(self.reply_pairs() =~= s0.reply_pairs().difference(
                            Set::new(|p: (u64, u64)| p.0 == comment_id && done2.contains(p.1)),
                        ));
                    }
                    i = i + 1;
                }
                proof {
                    assert(ids.subrange(0, ids.len() as int) =~= ids);
                    assert(self.reply_pairs() =~= s0.reply_pairs().filter(|p: (u64, u64)| p.0 != comment_id));
                    assert(Set::new(|x: u64| ids.contains(x)) =~= Set::new(|x: u64| s0.reply_pairs().contains((comment_id, x))));
                    assert(Set::new(|p: (u64, u64)| p.0 == post_id && ids.contains(p.1)) =~= Set::new(
                        |p: (u64, u64)| p.0 == post_id && s0.reply_pairs().contains((comment_id, p.1)),
                    ));
                    assert(ids == s0.reply_ids(comment_id));
                }
                1 + reply_ids.len() as u64
            },
            Some(parent_id) => {
                match self.comments.get(&parent_id) {
                    Some(p) => {
                        let mut parent = p.duplicate();
                        proof {
                            let i = self.comments.pos(parent_id);
                            self.comments.lemma_pos(i);
                            assert(self.comments.entries@[i].0 < counter_value(self.next_comment));
                        }
                        parent.reply_count = parent.reply_count.saturating_sub(1);
                        self.put_comment(parent);
                    },
                    None => {},
                }
                self.comment_replies.remove(parent_id, comment_id);
                1
            },
        };
        let ghost mid = comment_models(self.comments.as_map());
        self.drop_comment(comment_id);
        self.post_comments.remove(post_id, comment_id);
        proof {
            if comment.reply_to_comment_id is Some {
                assert(comment_models(self.comments.as_map()) =~= mid.remove(comment_id));
            }
        }
        match self.posts.get(&post_id) {
            Some(p) => {
                let mut post = p.duplicate();
                proof {
                    let i = self.posts.pos(post_id);
                    self.posts.lemma_pos(i);
                }
                post.comment_count = post.comment_count.saturating_sub(total);
                let ghost before = self.posts.as_map();
                self.replace_post(post);
                proof {
                    assert(self.posts.as_map().remove(post_id) =~= before.remove(post_id));
                }
            },
            None => {},
        }
        proof {
            if old(self).counts_match() {
                match comment.reply_to_comment_id {
                    None => lemma_counts_after_thread_delete(*old(self), *self, comment_id),
                    Some(pid) => {
                        let old_models = comment_models(old(self).comments.as_map());
                        assert(comment_models(self.comments.as_map()) =~= (if old_models.contains_key(pid) {
                            old_models.insert(pid, CommentModel { reply_count: old_models[pid].reply_count.saturating_sub(1), ..old_models[pid] })
                        } else {
                            old_models
                        }).remove(comment_id));
                        assert(self.comment_pairs() =~= old(self).comment_pairs().remove((post_id, comment_id)));
                        assert(self.reply_pairs() =~= old(self).reply_pairs().remove((pid, comment_id)));
                        lemma_counts_after_reply_delete(*old(self), *self, comment_id, pid);
                    },
                }
            }
        }
        Ok(())
    }

    /// Lets the author of a post, or an administrator, delete it with its image
    /// chunks, its likes and its comments.
    pub fn delete_post(&mut self, caller: PrincipalId, post_id: u64) -> (r: Result<(), Error>)
        requires
            old(self).wf(),
        ensures
            final(self).wf(),
            r == (if !old(self).posts.as_map().contains_key(post_id) {
                Err(Error::PostNotFound)
            } else if old(self).posts.as_map()[post_id].author != caller && !old(self).admin(caller) {
                Err(Error::NotAdmin)
            } else {
                Ok(())
            }),
            r is Err ==> *final(self) == *old(self),
            r is Ok ==> {
                let p = old(self).posts.as_map()[post_id]@;
                &&& final(self).posts.as_map() == old(self).posts.as_map().remove(post_id)
                &&& final(self).chunk_map() == old(self).chunk_map().remove_keys(post_chunk_keys(post_id, p.images))
                &&& final(self).likes.as_map() == old(self).likes.as_map().remove_keys(
                    Set::new(|k: LikeKey| k.post_id == post_id),
                )
                &&& final(self).comments.as_map() == old(self).comments.as_map().remove_keys(
                    Set::new(|c: u64| old(self).comment_pairs().contains((post_id, c))),
                )
                &&& final(self).comment_pairs() == old(self).comment_pairs().filter(|q: (u64, u64)| q.0 != post_id)
                &&& final(self).users == old(self).users
                &&& final(self).next_post == old(self).next_post
                &&& final(self).next_comment == old(self).next_comment
                &&& final(self).admins == old(self).admins
                &&& final(self).comment_replies == old(self).comment_replies
            },
            old(self).counts_match() ==> final(self).counts_match(),
    {
        let post = match self.posts.get(&post_id) {
            Some(p) => p.duplicate(),
            None => return Err(Error::PostNotFound),
        };
        if !post.author.same(&caller) {
            self.require_admin(caller)?;
        }
        let ghost s0 = *self;
        self.delete_post_images(post_id, post.images.as_slice());
        let ghost s1 = *self;
        let mut keys: Vec<LikeKey> = Vec::new();
        let mut i: usize = 0;
        while i < self.likes.entries.len()
            invariant
                self.wf(),
                *self == s1,
                i <= self.likes.entries@.len(),
                forall|m: int| 0 <= m < keys@.len() ==> (#[trigger] keys@[m]).post_id == post_id,
                forall|j: int| 0 <= j < i && #[trigger] self.likes.entries@[j].0.post_id == post_id
                    ==> keys@.contains(self.likes.entries@[j].0),
            decreases self.likes.entries@.len() - i,
        {
            if self.likes.entries[i].0.post_id == post_id {
                let k = self.likes.entries[i].0;
                let ghost before = keys@;
                keys.push(k);
                proof {
                    assert(keys@[keys@.len() - 1] == k);
                    assert forall|j: int| 0 <= j < i + 1 && #[trigger] self.likes.entries@[j].0.post_id == post_id
                        implies keys@.contains(self.likes.entries@[j].0) by {
                        if j < i {
                            let m = choose|m: int| 0 <= m < before.len() && before[m] == self.likes.entries@[j].0;
                            assert(keys@[m] == before[m]);
                        }
                    }
                }
            }
            i = i + 1;
        }
        let mut i: usize = 0;
        while i < keys.len()
            invariant
                self.wf(),
                i <= keys@.len(),
                forall|m: int| 0 <= m < keys@.len() ==> (#[trigger] keys@[m]).post_id == post_id,
                self.likes.as_map() == s1.likes.as_map().remove_keys(
                    Set::new(|k: LikeKey| keys@.subrange(0, i as int).contains(k)),
                ),
                self.users == s1.users,
                self.posts == s1.posts,
                self.image_chunks == s1.image_chunks,
                self.comments == s1.comments,
                self.post_comments == s1.post_comments,
                self.next_post == s1.next_post,
                self.next_comment == s1.next_comment,
                self.admins == s1.admins,
                self.comment_replies == s1.comment_replies,
            decreases keys@.len() - i,
        {
            let k = keys[i];
            let _ = self.likes.remove(&k);
            proof {
                let done = keys@.subrange(0, i as int);
                let done2 = keys@.subrange(0, i + 1);
                assert forall|x: LikeKey| done2.contains(x) <==> (done.contains(x) || x == k) by {
                    if done2.contains(x) {
                        let j = choose|j: int| 0 <= j < i + 1 && done2[j] == x;
                        if j < i {
                            assert(done[j] == x);
                        }
                    }
                    if done.contains(x) {
                        let j = choose|j: int| 0 <= j < i && done[j] == x;
                        assert(done2[j] == x);
                    }
                    if x == k {
                        assert(done2[i as int] == x);
                    }
                }
                assert(self.likes.as_map() =~= s1.likes.as_map().remove_keys(
                    Set::new(|x: LikeKey| done2.contains(x)),
                ));
            }
            i = i + 1;
        }
        proof {
            assert(keys@.subrange(0, keys@.len() as int) =~= keys@);
            assert forall|k: LikeKey| #[trigger] s1.likes.as_map().contains_key(k) && k.post_id == post_id implies keys@.contains(k) by {
                let j = s1.likes.pos(k);
                assert(s1.likes.entries@[j].0.post_id == post_id);
            }
            assert(self.likes.as_map() =~= s1.likes.as_map().remove_keys(
                Set::new(|k: LikeKey| k.post_id == post_id),
            ));
        }
        let ghost s2 = *self;
        let comment_ids = self.post_comments.listing(post_id);
        let ghost ids = comment_ids@;
        let mut i: usize = 0;
        while i < comment_ids.len()
            invariant
                self.wf(),
                ids == comment_ids@,
                i <= ids.len(),
                forall|x: u64| ids.contains(x) <==> s2.comment_pairs().contains((post_id, x)),
                self.comments.as_map() == s2.comments.as_map().remove_keys(
                    Set::new(|x: u64| ids.subrange(0, i as int).contains(x)),
                ),
                self.comment_pairs() == s2.comment_pairs().difference(
                    Set::new(|q: (u64, u64)| q.0 == post_id && ids.subrange(0, i as int).contains(q.1)),
                ),
                self.users == s2.users,
                self.posts == s2.posts,
                self.image_chunks == s2.image_chunks,
                self.likes == s2.likes,
                self.next_post == s2.next_post,
                self.next_comment == s2.next_comment,
                self.admins == s2.admins,
                self.comment_replies == s2.comment_replies,
            decreases ids.len() - i,
        {
            let cid = comment_ids[i];
            self.drop_comment(cid);
            self.post_comments.remove(post_id, cid);
            proof {
                let done = ids.subrange(0, i as int);
                let done2 = ids.subrange(0, i + 1);
                assert forall|x: u64| done2.contains(x) <==> (done.contains(x) || x == cid) by {
                    if done2.contains(x) {
                        let j = choose|j: int| 0 <= j < i + 1 && done2[j] == x;
                        if j < i {
                            assert(done[j] == x);
                        }
                    }
                    if done.contains(x) {
                        let j = choose|j: int| 0 <= j < i && done[j] == x;
                        assert(done2[j] == x);
                    }
                    if x == cid {
                        assert(done2[i as int] == x);
                    }
                }
                assert(self.comments.as_map() =~= s2.comments.as_map().remove_keys(
                    Set::new(|x: u64| done2.contains(x)),
                ));
                assert(self.comment_pairs() =~= s2.comment_pairs().difference(
                    Set::new(|q: (u64, u64)| q.0 == post_id && done2.contains(q.1)),
                ));
            }
            i = i + 1;
        }
        proof {
            assert(ids.subrange(0, ids.len() as int) =~= ids);
            assert(self.comments.as_map() =~= s2.comments.as_map().remove_keys(
                Set::new(|c: u64| s2.comment_pairs().contains((post_id, c))),
            ));
            assert(self.comment_pairs() =~= s2.comment_pairs().filter(|q: (u64, u64)| q.0 != post_id));
        }
        let ghost before = self.posts;
        let _ = self.posts.remove(&post_id);
        proof {
            let p = before.pos(post_id);
            assert forall|a: int, b: int|
                0 <= a < b < self.posts.entries@.len() implies #[trigger] self.posts.entries@[a].0
                < #[trigger] self.posts.entries@[b].0 by {
                let a2 = if a < p { a } else { a + 1 };
                let b2 = if b < p { b } else { b + 1 };
                assert(before.entries@[a2].0 < before.entries@[b2].0);
            }
            assert forall|a: int| 0 <= a < self.posts.entries@.len() implies #[trigger] self.posts.entries@[a].0
                < counter_value(self.next_post) && self.posts.entries@[a].0
                == self.posts.entries@[a].1.id && self.posts.entries@[a].1.images@.len()
                <= MAX_IMAGES_PER_POST by {
                let a2 = if a < p { a } else { a + 1 };
                assert(self.posts.entries@[a] == before.entries@[a2]);
                assert(before.entries@[a2].0 < counter_value(self.next_post));
                assert(before.entries@[a2].0 == before.entries@[a2].1.id);
            }
        }
        proof {
            if old(self).counts_match() {
                lemma_counts_after_post_delete(*old(self), *self, post_id);
            }
        }
        Ok(())
    }

    /// The comments whose ids `ids` lists, in the window `[offset, offset + limit)`
    /// of `ids`, skipping ids of deleted comments; and the length of `ids`.
    fn comments_page(&self, ids: &Vec<u64>, offset: u64, limit: u64) -> (r: CommentsPage)
        requires
            self.wf(),
        ensures
            r.total == ids@.len(),
            ({
                let f = found(self.comments.as_map(), window(ids@, (offset as usize) as nat, (limit as usize) as nat));
                &&& r.comments@.len() == f.len()
                &&& forall|i: int| 0 <= i < f.len() ==> (#[trigger] r.comments@[i])@ == self.comments.as_map()[f[i]]@
            }),
    {
        let n = ids.len();
        let off = offset as usize;
        let lim = limit as usize;
        let lo: usize = if off < n { off } else { n };
        let hi: usize = if lim < n - lo { lo + lim } else { n };
        let ghost w = window(ids@, off as nat, lim as nat);
        assert(w == ids@.subrange(lo as int, hi as int));
        let mut out: Vec<Comment> = Vec::new();
        let mut i: usize = lo;
        while i < hi
            invariant
                self.wf(),
                lo <= i <= hi,
                hi <= ids@.len(),
                w == ids@.subrange(lo as int, hi as int),
                ({
                    let f = found(self.comments.as_map(), w.subrange(0, i - lo));
                    &&& out@.len() == f.len()
                    &&& forall|j: int| 0 <= j < f.len() ==> (#[trigger] out@[j])@ == self.comments.as_map()[f[j]]@
                }),
            decreases hi - i,
        {
            let cid = ids[i];
            proof {
                assert(w.subrange(0, i + 1 - lo).drop_last() =~= w.subrange(0, i - lo));
                assert(w.subrange(0, i + 1 - lo).last() == w[i - lo]);
            }
            match self.comments.get(&cid) {
                Some(c) => {
                    out.push(c.duplicate());
                },
                None => {},
            }
            i = i + 1;
        }
        proof {
            assert(w.subrange(0, hi - lo) =~= w);
        }
        CommentsPage { comments: out, total: n as u64 }
    }

    /// One page of the comments on a post, in id order, and how many there are.
    pub fn list_comments(&self, post_id: u64, offset: u64, limit: u64) -> (r: CommentsPage)
        requires
            self.wf(),
        ensures
            r.total == self.post_comment_ids(post_id).len(),
            ({
                let f = found(self.comments.as_map(), window(self.post_comment_ids(post_id), (offset as usize) as nat, (limit as usize) as nat));
                &&& r.comments@.len() == f.len()
                &&& forall|i: int| 0 <= i < f.len() ==> (#[trigger] r.comments@[i])@ == self.comments.as_map()[f[i]]@
            }),
    {
        let ids = self.post_comments.listing(post_id);
        self.comments_page(&ids, offset, limit)
    }

    /// One page of the replies to a comment, in id order, and how many there are.
    pub fn list_replies(&self, comment_id: u64, offset: u64, limit: u64) -> (r: CommentsPage)
        requires
            self.wf(),
        ensures
            r.total == self.reply_ids(comment_id).len(),
            ({
                let f = found(self.comments.as_map(), window(self.reply_ids(comment_id), (offset as usize) as nat, (limit as usize) as nat));
                &&& r.comments@.len() == f.len()
                &&& forall|i: int| 0 <= i < f.len() ==> (#[trigger] r.comments@[i])@ == self.comments.as_map()[f[i]]@
            }),
    {
        let ids = self.comment_replies.listing(comment_id);
        self.comments_page(&ids, offset, limit)
    }
}

} // verus!
