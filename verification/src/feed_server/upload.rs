//! Chunked upload of the images of a post.
use vstd::prelude::*;
use crate::external::{blob_dimensions, image_dimensions};
use crate::sticker_server::types::allowed_content_type;
use crate::sticker_server::upload::image_size;
use super::state::{chunks_present, image_bytes, FeedState};
use super::types::{
    image_models, Error, ImageModel, Post, PostImage, PostModel, PostStatus, StatusModel,
    MAX_CHUNK_SIZE,
};

verus! {

/// Accepts exactly the allowed image content types.
pub fn validate_content_type(content_type: &str) -> (r: Result<(), Error>)
    ensures
        r == (if allowed_content_type(content_type@) {
            Ok(())
        } else {
            Err(Error::InvalidContentType)
        }),
{
    match crate::sticker_server::upload::validate_content_type(content_type) {
        Ok(()) => Ok(()),
        Err(_) => Err(Error::InvalidContentType),
    }
}

/// The (width, height) of an image, when its header is recognized.
pub fn parse_image_size(data: &[u8]) -> (r: Option<(u32, u32)>)
    ensures
        r == image_size(data@),
{
    match blob_dimensions(data) {
        Some(d) => Some((d.0 as u32, d.1 as u32)),
        None => None,
    }
}

/// What `upload_image_chunk` answers, before it changes anything.
pub open spec fn upload_image_answer(s: &FeedState, post_id: u64, image_index: u32, chunk_index: u32, len: nat) -> Result<(), Error> {
    if len > MAX_CHUNK_SIZE {
        Err(Error::DataTooLarge)
    } else if !s.posts.as_map().contains_key(post_id) {
        Err(Error::PostNotFound)
    } else {
        let p = s.posts.as_map()[post_id]@;
        if image_index as nat >= p.images.len() {
            Err(Error::ImageIndexOutOfRange)
        } else if chunk_index >= p.images[image_index as int].chunk_count {
            Err(Error::ChunkIndexOutOfRange)
        } else if p.status == StatusModel::Published {
            Err(Error::UploadNotPending)
        } else {
            Ok(())
        }
    }
}

/// Every image of a post has all its chunks stored.
pub open spec fn images_complete(chunks: Map<(u64, u32, u32), Seq<u8>>, post_id: u64, images: Seq<ImageModel>) -> bool {
    forall|i: int| 0 <= i < images.len() ==> chunks_present(chunks, post_id, i as u32, #[trigger] images[i].chunk_count as nat) == images[i].chunk_count
}

/// An image with the size read from its bytes, where the header is recognized.
pub open spec fn sized_image(img: ImageModel, data: Seq<u8>) -> ImageModel {
    match image_size(data) {
        Some(d) => ImageModel { width: Some(d.0), height: Some(d.1), ..img },
        None => img,
    }
}

/// The images of a post with the sizes read from their chunks.
pub open spec fn sized_images(chunks: Map<(u64, u32, u32), Seq<u8>>, post_id: u64, images: Seq<ImageModel>) -> Seq<ImageModel> {
    Seq::new(
        images.len(),
        |i: int| sized_image(images[i], image_bytes(chunks, post_id, i as u32, images[i].chunk_count as nat)),
    )
}

/// What `finalize_post_images` answers, before it changes anything.
pub open spec fn finalize_images_answer(s: &FeedState, post_id: u64) -> Result<(), Error> {
    if !s.posts.as_map().contains_key(post_id) {
        Err(Error::PostNotFound)
    } else {
        let p = s.posts.as_map()[post_id]@;
        if p.status == StatusModel::Published {
            Err(Error::UploadNotPending)
        } else if !images_complete(s.chunk_map(), post_id, p.images) {
            Err(Error::UploadIncomplete)
        } else {
            Ok(())
        }
    }
}

/// The chunk keys of the images of a post.
pub open spec fn post_chunk_keys(post_id: u64, images: Seq<ImageModel>) -> Set<(u64, u32, u32)> {
    Set::new(
        |k: (u64, u32, u32)|
            k.0 == post_id && exists|i: int| 0 <= i < images.len() && k.1 == i as u32 && k.2 < #[trigger] images[i].chunk_count,
    )
}

impl FeedState {
    /// The bytes of chunks `0..count` of one image, in order, and how many of them are
    /// stored.
    pub fn assemble_image(&self, post_id: u64, image: u32, count: u32) -> (r: (Vec<u8>, u32))
        ensures
            r.0@ == image_bytes(self.chunk_map(), post_id, image, count as nat),
            r.1 == chunks_present(self.chunk_map(), post_id, image, count as nat),
    {
        let mut data: Vec<u8> = Vec::new();
        let mut present: u32 = 0;
        let mut i: u32 = 0;
        while i < count
            invariant
                i <= count,
                data@ == image_bytes(self.chunk_map(), post_id, image, i as nat),
                present == chunks_present(self.chunk_map(), post_id, image, i as nat),
                present <= i,
            decreases count - i,
        {
            match self.image_chunks.get((post_id, image, i)) {
                Some(mut chunk) => {
                    data.append(&mut chunk);
                    present = present + 1;
                },
                None => {},
            }
            i = i + 1;
        }
        (data, present)
    }

    /// Stores one chunk of one image of a pending post.
    pub fn upload_image_chunk(&mut self, post_id: u64, image_index: u32, chunk_index: u32, data: Vec<u8>) -> (r: Result<(), Error>)
        requires
            old(self).wf(),
        ensures
            final(self).wf(),
            r == upload_image_answer(old(self), post_id, image_index, chunk_index, data@.len()),
            r is Err ==> *final(self) == *old(self),
            r is Ok ==> final(self).chunk_map() == old(self).chunk_map().insert((post_id, image_index, chunk_index), data@)
                && final(self).users == old(self).users && final(self).posts == old(self).posts
                && final(self).likes == old(self).likes && final(self).comments == old(self).comments
                && final(self).post_comments == old(self).post_comments && final(self).next_post
                == old(self).next_post && final(self).next_comment == old(self).next_comment
                && final(self).admins == old(self).admins && final(self).comment_replies
                == old(self).comment_replies,
    {
        if data.len() > MAX_CHUNK_SIZE {
            return Err(Error::DataTooLarge);
        }
        let post = match self.posts.get(&post_id) {
            Some(p) => p,
            None => return Err(Error::PostNotFound),
        };
        if image_index as usize >= post.images.len() {
            return Err(Error::ImageIndexOutOfRange);
        }
        if chunk_index >= post.images[image_index as usize].chunk_count {
            return Err(Error::ChunkIndexOutOfRange);
        }
        match &post.status {
            PostStatus::Pending { .. } => {},
            PostStatus::Published => return Err(Error::UploadNotPending),
        }
        self.image_chunks.insert((post_id, image_index, chunk_index), data);
        Ok(())
    }

    /// Publishes a pending post whose images have all their chunks, recording the size
    /// read from each image.
    pub fn finalize_post_images(&mut self, post_id: u64) -> (r: Result<(), Error>)
        requires
            old(self).wf(),
        ensures
            final(self).wf(),
            r == finalize_images_answer(old(self), post_id),
            r is Err ==> *final(self) == *old(self),
            r is Ok ==> {
                let p = old(self).posts.as_map()[post_id]@;
                &&& final(self).posts.as_map().contains_key(post_id)
                &&& final(self).posts.as_map().remove(post_id) == old(self).posts.as_map().remove(post_id)
                &&& final(self).posts.as_map()[post_id]@ == PostModel {
                    images: sized_images(old(self).chunk_map(), post_id, p.images),
                    status: StatusModel::Published,
                    ..p
                }
                &&& final(self).users == old(self).users
                &&& final(self).image_chunks == old(self).image_chunks
                &&& final(self).likes == old(self).likes
                &&& final(self).comments == old(self).comments
                &&& final(self).post_comments == old(self).post_comments
                &&& final(self).next_post == old(self).next_post
                &&& final(self).next_comment == old(self).next_comment
                &&& final(self).admins == old(self).admins
                &&& final(self).comment_replies == old(self).comment_replies
            },
    {
        let pos = match self.posts.position(&post_id) {
            Some(i) => i,
            None => return Err(Error::PostNotFound),
        };
        proof {
            self.posts.lemma_pos(pos as int);
        }
        match &self.posts.entries[pos].1.status {
            PostStatus::Pending { .. } => {},
            PostStatus::Published => return Err(Error::UploadNotPending),
        }
        let mut post = self.posts.entries[pos].1.duplicate();
        let ghost p = post@;
        let ghost chunks = self.chunk_map();
        let n = post.images.len();
        let mut images: Vec<PostImage> = Vec::new();
        let mut i: usize = 0;
        while i < n
            invariant
                self.wf(),
                *self == *old(self),
                old(self).posts.as_map().contains_key(post_id),
                p == old(self).posts.as_map()[post_id]@,
                p.status != StatusModel::Published,
                n == p.images.len(),
                n <= 9,
                post@ == p,
                chunks == self.chunk_map(),
                i <= n,
                images@.len() == i,
                forall|j: int| 0 <= j < i ==> chunks_present(chunks, post_id, j as u32, #[trigger] p.images[j].chunk_count as nat)
                    == p.images[j].chunk_count,
                forall|j: int| 0 <= j < i ==> #[trigger] images@[j]@ == sized_image(
                    p.images[j],
                    image_bytes(chunks, post_id, j as u32, p.images[j].chunk_count as nat),
                ),
            decreases n - i,
        {
            let count = post.images[i].chunk_count;
            assert(post.images@[i as int]@ == p.images[i as int]);
            let (full_data, present) = self.assemble_image(post_id, i as u32, count);
            if present != count {
                proof {
                    assert(chunks_present(chunks, post_id, i as u32, p.images[i as int].chunk_count as nat)
                        != p.images[i as int].chunk_count);
                    assert(!images_complete(self.chunk_map(), post_id, p.images));
                }
                return Err(Error::UploadIncomplete);
            }
            let mut image = post.images[i].duplicate();
            match parse_image_size(full_data.as_slice()) {
                Some((w, h)) => {
                    image.width = Some(w);
                    image.height = Some(h);
                },
                None => {},
            }
            images.push(image);
            i = i + 1;
        }
        post.images = images;
        post.status = PostStatus::Published;
        proof {
            assert(image_models(post.images@) =~= sized_images(chunks, post_id, p.images));
        }
        let ghost before = self.posts;
        self.posts.insert(post_id, post);
        proof {
            assert(self.posts.as_map().remove(post_id) =~= before.as_map().remove(post_id));
            assert forall|a: int, b: int|
                0 <= a < b < self.posts.entries@.len() implies #[trigger] self.posts.entries@[a].0
                < #[trigger] self.posts.entries@[b].0 by {
                assert(before.entries@[a].0 < before.entries@[b].0);
            }
            assert forall|a: int| 0 <= a < self.posts.entries@.len() implies #[trigger] self.posts.entries@[a].0
                < crate::stable::counter_value(self.next_post) && self.posts.entries@[a].0
                == self.posts.entries@[a].1.id && self.posts.entries@[a].1.images@.len() <= 9 by {
                if a != pos {
                    assert(self.posts.entries@[a] == before.entries@[a]);
                }
                assert(before.entries@[a].0 < crate::stable::counter_value(self.next_post));
                assert(before.entries@[a].0 == before.entries@[a].1.id);
            }
        }
        Ok(())
    }

    /// The content type and bytes of one image of a post.
    pub fn get_image_data(&self, post_id: u64, image_index: u32) -> (r: Result<(String, Vec<u8>), Error>)
        requires
            self.wf(),
        ensures
            !self.posts.as_map().contains_key(post_id) ==> r == Err::<(String, Vec<u8>), Error>(Error::PostNotFound),
            self.posts.as_map().contains_key(post_id) ==> {
                let p = self.posts.as_map()[post_id]@;
                if image_index as nat >= p.images.len() {
                    r == Err::<(String, Vec<u8>), Error>(Error::ImageIndexOutOfRange)
                } else {
                    r matches Ok(v) && v.0@ == p.images[image_index as int].content_type && v.1@ == image_bytes(
                        self.chunk_map(),
                        post_id,
                        image_index,
                        p.images[image_index as int].chunk_count as nat,
                    )
                }
            },
    {
        let post = match self.posts.get(&post_id) {
            Some(p) => p,
            None => return Err(Error::PostNotFound),
        };
        if image_index as usize >= post.images.len() {
            return Err(Error::ImageIndexOutOfRange);
        }
        let image = &post.images[image_index as usize];
        assert(post.images@[image_index as int]@ == post@.images[image_index as int]);
        let content_type = image.content_type.clone();
        let (data, _) = self.assemble_image(post_id, image_index, image.chunk_count);
        Ok((content_type, data))
    }

    /// Removes the chunks of the given images of a post.
    pub fn delete_post_images(&mut self, post_id: u64, images: &[PostImage])
        requires
            old(self).wf(),
        ensures
            final(self).wf(),
            final(self).chunk_map() == old(self).chunk_map().remove_keys(post_chunk_keys(post_id, image_models(images@))),
            final(self).users == old(self).users,
            final(self).posts == old(self).posts,
            final(self).likes == old(self).likes,
            final(self).comments == old(self).comments,
            final(self).post_comments == old(self).post_comments,
            final(self).next_post == old(self).next_post,
            final(self).next_comment == old(self).next_comment,
            final(self).admins == old(self).admins,
            final(self).comment_replies == old(self).comment_replies,
    {
        let ghost models = image_models(images@);
        let ghost base = self.chunk_map();
        let mut i: usize = 0;
        while i < images.len()
            invariant
                self.wf(),
                models == image_models(images@),
                i <= images@.len(),
                self.chunk_map() == base.remove_keys(post_chunk_keys(post_id, models.subrange(0, i as int))),
                self.users == old(self).users,
                self.posts == old(self).posts,
                self.likes == old(self).likes,
                self.comments == old(self).comments,
                self.post_comments == old(self).post_comments,
                self.next_post == old(self).next_post,
                self.next_comment == old(self).next_comment,
                self.admins == old(self).admins,
                self.comment_replies == old(self).comment_replies,
                base == old(self).chunk_map(),
            decreases images@.len() - i,
        {
            let count = images[i].chunk_count;
            let mut ci: u32 = 0;
            while ci < count
                invariant
                    self.wf(),
                    models == image_models(images@),
                    i < images@.len(),
                    count == models[i as int].chunk_count,
                    ci <= count,
                    self.chunk_map() == base.remove_keys(post_chunk_keys(post_id, models.subrange(0, i as int))).remove_keys(
                        Set::new(|k: (u64, u32, u32)| k.0 == post_id && k.1 == i as u32 && k.2 < ci),
                    ),
                    self.users == old(self).users,
                    self.posts == old(self).posts,
                    self.likes == old(self).likes,
                    self.comments == old(self).comments,
                    self.post_comments == old(self).post_comments,
                    self.next_post == old(self).next_post,
                    self.next_comment == old(self).next_comment,
                    self.admins == old(self).admins,
                    self.comment_replies == old(self).comment_replies,
                decreases count - ci,
            {
                self.image_chunks.remove((post_id, i as u32, ci));
                proof {
                    assert(self.chunk_map() =~= base.remove_keys(post_chunk_keys(post_id, models.subrange(0, i as int))).remove_keys(
                        Set::new(|k: (u64, u32, u32)| k.0 == post_id && k.1 == i as u32 && k.2 < ci + 1),
                    ));
                }
                ci = ci + 1;
            }
            proof {
                let done = models.subrange(0, i as int);
                let done2 = models.subrange(0, i + 1);
                assert forall|k: (u64, u32, u32)| #[trigger] post_chunk_keys(post_id, done2).contains(k) == (post_chunk_keys(post_id, done).contains(k)
                    || (k.0 == post_id && k.1 == i as u32 && k.2 < count)) by {
                    if post_chunk_keys(post_id, done2).contains(k) {
                        let j = choose|j: int| 0 <= j < done2.len() && k.1 == j as u32 && k.2 < #[trigger] done2[j].chunk_count;
                        if j < i {
                            assert(done[j] == done2[j]);
                        }
                    }
                    if post_chunk_keys(post_id, done).contains(k) {
                        let j = choose|j: int| 0 <= j < done.len() && k.1 == j as u32 && k.2 < #[trigger] done[j].chunk_count;
                        assert(done2[j] == done[j]);
                    }
                    if k.0 == post_id && k.1 == i as u32 && k.2 < count {
                        assert(done2[i as int] == models[i as int]);
                    }
                }
                assert(self.chunk_map() =~= base.remove_keys(post_chunk_keys(post_id, done2)));
            }
            i = i + 1;
        }
        proof {
            assert(models.subrange(0, images@.len() as int) =~= models);
        }
    }
}

} // verus!
