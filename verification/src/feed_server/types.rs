//! Records, errors, limits and stable-key encodings of the feed server.
use vstd::prelude::*;
use crate::keyed::KeyModel;
use crate::principal::PrincipalId;

verus! {

/// Why a request of the feed server failed.
#[derive(Clone, Copy, Debug, PartialEq, Eq)]
pub enum Error {
    NotAdmin,
    NotRegistered,
    NotAuthor,
    UserAlreadyExists,
    UserNotFound,
    PostNotFound,
    CommentNotFound,
    AlreadyLiked,
    NotLiked,
    ImageIndexOutOfRange,
    ChunkIndexOutOfRange,
    ChunkAlreadyUploaded,
    DataTooLarge,
    UploadIncomplete,
    UploadNotPending,
    InvalidContentType,
    ContentTooLong,
    TooManyImages,
    InvalidReplyTarget,
    ReplyToReply,
    CommentPostMismatch,
}

/// The longest post text, in bytes.
pub const MAX_CONTENT_LENGTH: usize = 2000;

/// The most images one post may have.
pub const MAX_IMAGES_PER_POST: u32 = 9;

/// The largest chunk of image data that one call stores.
pub const MAX_CHUNK_SIZE: usize = 1572864;

/// The longest comment text, in bytes.
pub const MAX_COMMENT_LENGTH: usize = 500;

/// A registered user.
#[derive(Clone, Debug, PartialEq, Eq)]
pub struct UserProfile {
    pub principal: PrincipalId,
    pub nickname: String,
    pub avatar_url: String,
    pub created_at: u64,
}

/// The spec model of a `UserProfile`.
pub ghost struct ProfileModel {
    pub principal: PrincipalId,
    pub nickname: Seq<char>,
    pub avatar_url: Seq<char>,
    pub created_at: u64,
}

impl View for UserProfile {
    type V = ProfileModel;

    open spec fn view(&self) -> ProfileModel {
        ProfileModel {
            principal: self.principal,
            nickname: self.nickname@,
            avatar_url: self.avatar_url@,
            created_at: self.created_at,
        }
    }
}

impl UserProfile {
    /// A copy of this profile.
    pub fn duplicate(&self) -> (r: UserProfile)
        ensures
            r@ == self@,
    {
        UserProfile {
            principal: self.principal,
            nickname: self.nickname.clone(),
            avatar_url: self.avatar_url.clone(),
            created_at: self.created_at,
        }
    }
}

/// Whether the images of a post are still being uploaded.
#[derive(Clone, Debug, PartialEq, Eq)]
pub enum PostStatus {
    Pending { uploaded_images: Vec<u32> },
    Published,
}

/// The spec model of a `PostStatus`.
pub ghost enum StatusModel {
    Pending { uploaded_images: Seq<u32> },
    Published,
}

impl View for PostStatus {
    type V = StatusModel;

    open spec fn view(&self) -> StatusModel {
        match self {
            PostStatus::Pending { uploaded_images } => StatusModel::Pending {
                uploaded_images: uploaded_images@,
            },
            PostStatus::Published => StatusModel::Published,
        }
    }
}

impl PostStatus {
    /// A copy of this status.
    pub fn duplicate(&self) -> (r: PostStatus)
        ensures
            r@ == self@,
    {
        match self {
            PostStatus::Pending { uploaded_images } => {
                let mut v: Vec<u32> = Vec::new();
                let mut i: usize = 0;
                while i < uploaded_images.len()
                    invariant
                        i <= uploaded_images@.len(),
                        v@ == uploaded_images@.subrange(0, i as int),
                    decreases uploaded_images@.len() - i,
                {
                    v.push(uploaded_images[i]);
                    i = i + 1;
                }
                assert(v@ =~= uploaded_images@);
                PostStatus::Pending { uploaded_images: v }
            },
            PostStatus::Published => PostStatus::Published,
        }
    }
}

/// One image of a post.
#[derive(Clone, Debug, PartialEq, Eq)]
pub struct PostImage {
    pub content_type: String,
    pub size: u64,
    pub chunk_count: u32,
    pub width: Option<u32>,
    pub height: Option<u32>,
}

/// The spec model of a `PostImage`.
pub ghost struct ImageModel {
    pub content_type: Seq<char>,
    pub size: u64,
    pub chunk_count: u32,
    pub width: Option<u32>,
    pub height: Option<u32>,
}

impl View for PostImage {
    type V = ImageModel;

    open spec fn view(&self) -> ImageModel {
        ImageModel {
            content_type: self.content_type@,
            size: self.size,
            chunk_count: self.chunk_count,
            width: self.width,
            height: self.height,
        }
    }
}

/// The models of a list of images.
pub open spec fn image_models(v: Seq<PostImage>) -> Seq<ImageModel> {
    v.map_values(|i: PostImage| i@)
}

impl PostImage {
    /// A copy of this image description.
    pub fn duplicate(&self) -> (r: PostImage)
        ensures
            r@ == self@,
    {
        PostImage {
            content_type: self.content_type.clone(),
            size: self.size,
            chunk_count: self.chunk_count,
            width: self.width,
            height: self.height,
        }
    }
}

/// A copy of a list of image descriptions.
pub fn copy_images(v: &Vec<PostImage>) -> (r: Vec<PostImage>)
    ensures
        image_models(r@) == image_models(v@),
        r@.len() == v@.len(),
{
    let mut out: Vec<PostImage> = Vec::new();
    let mut i: usize = 0;
    while i < v.len()
        invariant
            i <= v@.len(),
            out@.len() == i,
            forall|j: int| 0 <= j < i ==> out@[j]@ == #[trigger] v@[j]@,
        decreases v@.len() - i,
    {
        out.push(v[i].duplicate());
        i = i + 1;
    }
    assert(image_models(out@) =~= image_models(v@));
    out
}

/// A post.
#[derive(Clone, Debug, PartialEq, Eq)]
pub struct Post {
    pub id: u64,
    pub author: PrincipalId,
    pub content: String,
    pub images: Vec<PostImage>,
    pub status: PostStatus,
    pub like_count: u64,
    pub comment_count: u64,
    pub created_at: u64,
}

/// The spec model of a `Post`.
pub ghost struct PostModel {
    pub id: u64,
    pub author: PrincipalId,
    pub content: Seq<char>,
    pub images: Seq<ImageModel>,
    pub status: StatusModel,
    pub like_count: u64,
    pub comment_count: u64,
    pub created_at: u64,
}

impl View for Post {
    type V = PostModel;

    open spec fn view(&self) -> PostModel {
        PostModel {
            id: self.id,
            author: self.author,
            content: self.content@,
            images: image_models(self.images@),
            status: self.status@,
            like_count: self.like_count,
            comment_count: self.comment_count,
            created_at: self.created_at,
        }
    }
}

impl Post {
    /// A copy of this post.
    pub fn duplicate(&self) -> (r: Post)
        ensures
            r@ == self@,
            r.images@.len() == self.images@.len(),
    {
        Post {
            id: self.id,
            author: self.author,
            content: self.content.clone(),
            images: copy_images(&self.images),
            status: self.status.duplicate(),
            like_count: self.like_count,
            comment_count: self.comment_count,
            created_at: self.created_at,
        }
    }
}

/// What a post listing shows of a post.
#[derive(Clone, Debug, PartialEq, Eq)]
pub struct PostSummary {
    pub id: u64,
    pub author: PrincipalId,
    pub content: String,
    pub image_count: u32,
    pub like_count: u64,
    pub comment_count: u64,
    pub created_at: u64,
}

/// One page of published posts, and the number of all posts.
#[derive(Clone, Debug, PartialEq, Eq)]
pub struct PostsPage {
    pub posts: Vec<PostSummary>,
    pub total: u64,
}

/// A new post: its text, and for each image its content type, byte size and number of
/// chunks.
#[derive(Clone, Debug, PartialEq, Eq)]
pub struct CreatePostRequest {
    pub content: String,
    pub images: Vec<(String, u64, u32)>,
}

/// A comment on a post, or a reply to a comment.
#[derive(Clone, Debug, PartialEq, Eq)]
pub struct Comment {
    pub id: u64,
    pub post_id: u64,
    pub author: PrincipalId,
    pub content: String,
    pub created_at: u64,
    pub reply_to_comment_id: Option<u64>,
    pub reply_to_user: Option<PrincipalId>,
    pub reply_count: u64,
}

/// The spec model of a `Comment`.
pub ghost struct CommentModel {
    pub id: u64,
    pub post_id: u64,
    pub author: PrincipalId,
    pub content: Seq<char>,
    pub created_at: u64,
    pub reply_to_comment_id: Option<u64>,
    pub reply_to_user: Option<PrincipalId>,
    pub reply_count: u64,
}

impl View for Comment {
    type V = CommentModel;

    open spec fn view(&self) -> CommentModel {
        CommentModel {
            id: self.id,
            post_id: self.post_id,
            author: self.author,
            content: self.content@,
            created_at: self.created_at,
            reply_to_comment_id: self.reply_to_comment_id,
            reply_to_user: self.reply_to_user,
            reply_count: self.reply_count,
        }
    }
}

impl Comment {
    /// A copy of this comment.
    pub fn duplicate(&self) -> (r: Comment)
        ensures
            r@ == self@,
    {
        Comment {
            id: self.id,
            post_id: self.post_id,
            author: self.author,
            content: self.content.clone(),
            created_at: self.created_at,
            reply_to_comment_id: self.reply_to_comment_id,
            reply_to_user: self.reply_to_user,
            reply_count: self.reply_count,
        }
    }
}

/// One page of comments, and how many there are in all.
#[derive(Clone, Debug, PartialEq, Eq)]
pub struct CommentsPage {
    pub comments: Vec<Comment>,
    pub total: u64,
}

/// The big-endian bytes of a `u64`.
pub open spec fn be64(x: u64) -> Seq<u8> {
    seq![
        (x >> 56u64) as u8,
        (x >> 48u64) as u8,
        (x >> 40u64) as u8,
        (x >> 32u64) as u8,
        (x >> 24u64) as u8,
        (x >> 16u64) as u8,
        (x >> 8u64) as u8,
        x as u8,
    ]
}

/// The `u64` of eight big-endian bytes.
pub open spec fn from_be64(b: Seq<u8>) -> u64 {
    ((b[0] as u64) << 56u64) | ((b[1] as u64) << 48u64) | ((b[2] as u64) << 40u64) | ((b[3] as u64)
        << 32u64) | ((b[4] as u64) << 24u64) | ((b[5] as u64) << 16u64) | ((b[6] as u64) << 8u64) | (
    b[7] as u64)
}

pub proof fn lemma_be64_roundtrip(x: u64)
    ensures
        from_be64(be64(x)) == x,
{
    let b0 = (x >> 56u64) as u8;
    let b1 = (x >> 48u64) as u8;
    let b2 = (x >> 40u64) as u8;
    let b3 = (x >> 32u64) as u8;
    let b4 = (x >> 24u64) as u8;
    let b5 = (x >> 16u64) as u8;
    let b6 = (x >> 8u64) as u8;
    let b7 = x as u8;
    assert(((b0 as u64) << 56u64) | ((b1 as u64) << 48u64) | ((b2 as u64) << 40u64) | ((b3 as u64)
        << 32u64) | ((b4 as u64) << 24u64) | ((b5 as u64) << 16u64) | ((b6 as u64) << 8u64) | (
    b7 as u64) == x) by (bit_vector)
        requires
            b0 == (x >> 56u64) as u8,
            b1 == (x >> 48u64) as u8,
            b2 == (x >> 40u64) as u8,
            b3 == (x >> 32u64) as u8,
            b4 == (x >> 24u64) as u8,
            b5 == (x >> 16u64) as u8,
            b6 == (x >> 8u64) as u8,
            b7 == x as u8,
    ;
}

fn push_be64(buf: &mut Vec<u8>, x: u64)
    ensures
        final(buf)@ == old(buf)@ + be64(x),
{
    buf.push((x >> 56u64) as u8);
    buf.push((x >> 48u64) as u8);
    buf.push((x >> 40u64) as u8);
    buf.push((x >> 32u64) as u8);
    buf.push((x >> 24u64) as u8);
    buf.push((x >> 16u64) as u8);
    buf.push((x >> 8u64) as u8);
    buf.push(x as u8);
    assert(final(buf)@ =~= old(buf)@ + be64(x));
}

fn read_be64(b: &[u8], at: usize) -> (r: u64)
    requires
        at + 8 <= b@.len(),
    ensures
        r == from_be64(b@.subrange(at as int, at + 8)),
{
    ((b[at] as u64) << 56u64) | ((b[at + 1] as u64) << 48u64) | ((b[at + 2] as u64) << 40u64) | ((b[at
        + 3] as u64) << 32u64) | ((b[at + 4] as u64) << 24u64) | ((b[at + 5] as u64) << 16u64) | ((b[at
        + 6] as u64) << 8u64) | (b[at + 7] as u64)
}

/// The stable key of one chunk of one image of a post.
#[derive(Clone, Copy, Debug, PartialEq, Eq, PartialOrd, Ord)]
pub struct ImageChunkKey {
    pub post_id: u64,
    pub image_index: u32,
    pub chunk_index: u32,
}

impl ImageChunkKey {
    /// The fixed sixteen-byte encoding: all fields big-endian.
    pub fn to_bytes(&self) -> (r: Vec<u8>)
        ensures
            r@ == be64(self.post_id) + crate::sticker_server::types::be32(self.image_index)
                + crate::sticker_server::types::be32(self.chunk_index),
    {
        let mut buf: Vec<u8> = Vec::new();
        push_be64(&mut buf, self.post_id);
        crate::sticker_server::types::push_be32(&mut buf, self.image_index);
        crate::sticker_server::types::push_be32(&mut buf, self.chunk_index);
        buf
    }

    /// Decodes the first sixteen bytes.
    pub fn from_bytes(b: &[u8]) -> (r: ImageChunkKey)
        requires
            b@.len() >= 16,
        ensures
            r.post_id == from_be64(b@.subrange(0, 8)),
            r.image_index == crate::sticker_server::types::from_be32(b@[8], b@[9], b@[10], b@[11]),
            r.chunk_index == crate::sticker_server::types::from_be32(b@[12], b@[13], b@[14], b@[15]),
    {
        ImageChunkKey {
            post_id: read_be64(b, 0),
            image_index: crate::sticker_server::types::read_be32(b, 8),
            chunk_index: crate::sticker_server::types::read_be32(b, 12),
        }
    }
}

/// The stable key of a like: a post and the user who liked it.
#[derive(Clone, Copy, Debug, PartialEq, Eq, PartialOrd, Ord)]
pub struct LikeKey {
    pub post_id: u64,
    pub user: PrincipalId,
}

impl KeyModel for LikeKey {
    type Model = LikeKey;

    open spec fn model(&self) -> LikeKey {
        *self
    }

    fn same_key(&self, other: &Self) -> (r: bool) {
        self.post_id == other.post_id && self.user.same(&other.user)
    }
}

impl LikeKey {
    /// The encoding: the post id big-endian, the length of the principal, its bytes.
    pub fn to_bytes(&self) -> (r: Vec<u8>)
        ensures
            r@ == be64(self.post_id) + seq![self.user@.len() as u8] + self.user@,
    {
        let principal = self.user.to_vec();
        let mut buf: Vec<u8> = Vec::new();
        push_be64(&mut buf, self.post_id);
        buf.push(principal.len() as u8);
        let ghost before = buf@;
        let mut i: usize = 0;
        while i < principal.len()
            invariant
                i <= principal@.len(),
                buf@ == before + principal@.subrange(0, i as int),
            decreases principal@.len() - i,
        {
            buf.push(principal[i]);
            i = i + 1;
        }
        assert(principal@.subrange(0, principal@.len() as int) =~= principal@);
        buf
    }

    /// Decodes an encoding; `None` where the bytes are too short or the principal is
    /// longer than 29 bytes.
    pub fn from_bytes(b: &[u8]) -> (r: Option<LikeKey>)
        ensures
            r is Some <==> (b@.len() >= 9 && 9 + b@[8] <= b@.len() && b@[8] <= 29),
            r matches Some(k) ==> k.post_id == from_be64(b@.subrange(0, 8)) && k.user@ == b@.subrange(9, 9 + b@[8]),
    {
        if b.len() < 9 {
            return None;
        }
        let len = b[8] as usize;
        if len > b.len() - 9 {
            return None;
        }
        let post_id = read_be64(b, 0);
        let slice = vstd::slice::slice_subrange(b, 9, 9 + len);
        match PrincipalId::from_slice(slice) {
            Some(user) => Some(LikeKey { post_id, user }),
            None => None,
        }
    }
}

/// The stable key of the membership of a comment in a post.
#[derive(Clone, Copy, Debug, PartialEq, Eq, PartialOrd, Ord)]
pub struct PostCommentKey {
    pub post_id: u64,
    pub comment_id: u64,
}

impl PostCommentKey {
    /// The fixed sixteen-byte encoding: both fields big-endian.
    pub fn to_bytes(&self) -> (r: Vec<u8>)
        ensures
            r@ == be64(self.post_id) + be64(self.comment_id),
    {
        let mut buf: Vec<u8> = Vec::new();
        push_be64(&mut buf, self.post_id);
        push_be64(&mut buf, self.comment_id);
        buf
    }

    /// Decodes the first sixteen bytes.
    pub fn from_bytes(b: &[u8]) -> (r: PostCommentKey)
        requires
            b@.len() >= 16,
        ensures
            r.post_id == from_be64(b@.subrange(0, 8)),
            r.comment_id == from_be64(b@.subrange(8, 16)),
    {
        PostCommentKey { post_id: read_be64(b, 0), comment_id: read_be64(b, 8) }
    }
}

/// The stable key of a reply to a comment.
#[derive(Clone, Copy, Debug, PartialEq, Eq, PartialOrd, Ord)]
pub struct CommentReplyKey {
    pub comment_id: u64,
    pub reply_id: u64,
}

/// Decoding the encoding of an image chunk key gives the key back.
pub proof fn law_image_chunk_key_roundtrip(k: ImageChunkKey)
    ensures
        ({
            let b = be64(k.post_id) + crate::sticker_server::types::be32(k.image_index)
                + crate::sticker_server::types::be32(k.chunk_index);
            &&& from_be64(b.subrange(0, 8)) == k.post_id
            &&& crate::sticker_server::types::from_be32(b[8], b[9], b[10], b[11]) == k.image_index
            &&& crate::sticker_server::types::from_be32(b[12], b[13], b[14], b[15]) == k.chunk_index
        }),
{
    let b = be64(k.post_id) + crate::sticker_server::types::be32(k.image_index)
        + crate::sticker_server::types::be32(k.chunk_index);
    assert(b.subrange(0, 8) =~= be64(k.post_id));
    lemma_be64_roundtrip(k.post_id);
    crate::sticker_server::types::lemma_be32_roundtrip(k.image_index);
    crate::sticker_server::types::lemma_be32_roundtrip(k.chunk_index);
}

/// Decoding the encoding of a post-comment key gives the key back.
pub proof fn law_post_comment_key_roundtrip(k: PostCommentKey)
    ensures
        ({
            let b = be64(k.post_id) + be64(k.comment_id);
            from_be64(b.subrange(0, 8)) == k.post_id && from_be64(b.subrange(8, 16)) == k.comment_id
        }),
{
    let b = be64(k.post_id) + be64(k.comment_id);
    assert(b.subrange(0, 8) =~= be64(k.post_id));
    assert(b.subrange(8, 16) =~= be64(k.comment_id));
    lemma_be64_roundtrip(k.post_id);
    lemma_be64_roundtrip(k.comment_id);
}

/// Decoding the encoding of a like key gives the key back.
pub proof fn law_like_key_roundtrip(k: LikeKey)
    requires
        k.user@.len() <= 29,
    ensures
        ({
            let b = be64(k.post_id) + seq![k.user@.len() as u8] + k.user@;
            &&& b.len() >= 9 && 9 + b[8] <= b.len() && b[8] <= 29
            &&& from_be64(b.subrange(0, 8)) == k.post_id
            &&& b.subrange(9, 9 + b[8]) == k.user@
        }),
{
    let b = be64(k.post_id) + seq![k.user@.len() as u8] + k.user@;
    assert(b.subrange(0, 8) =~= be64(k.post_id));
    assert(b.subrange(9, 9 + b[8]) =~= k.user@);
    lemma_be64_roundtrip(k.post_id);
}

} // verus!
