//! Laws of the feed server that span its requests.
use vstd::prelude::*;
use super::api::published_newest_first;
use super::http::image_response;
use super::state::{image_bytes, FeedState};
use super::types::{LikeKey, Post, StatusModel};

verus! {

proof fn lemma_image_prefix(chunks: Map<(u64, u32, u32), Seq<u8>>, post_id: u64, image: u32, parts: Seq<Seq<u8>>, n: nat)
    requires
        n <= parts.len() <= u32::MAX as nat + 1,
        forall|k: u32| (k as int) < parts.len() ==> #[trigger] chunks.contains_key((post_id, image, k)) && chunks[(post_id, image, k)] == parts[k as int],
    ensures
        image_bytes(chunks, post_id, image, n) == parts.subrange(0, n as int).flatten(),
    decreases n,
{
    if n > 0 {
        let p = (n - 1) as nat;
        lemma_image_prefix(chunks, post_id, image, parts, p);
        let init = parts.subrange(0, p as int);
        assert(chunks.contains_key((post_id, image, p as u32)));
        init.lemma_flatten_push(parts[p as int]);
        assert(init.push(parts[p as int]) =~= parts.subrange(0, n as int));
    } else {
        assert(parts.subrange(0, 0) =~= Seq::<Seq<u8>>::empty());
    }
}

/// Reading an image of a post gives back, in order, the chunks uploaded for it: when
/// chunks `0..n` hold `parts`, the image is `parts` concatenated.
pub proof fn law_image_chunks_read_back(chunks: Map<(u64, u32, u32), Seq<u8>>, post_id: u64, image: u32, parts: Seq<Seq<u8>>)
    requires
        parts.len() <= u32::MAX as nat + 1,
        forall|k: u32| (k as int) < parts.len() ==> #[trigger] chunks.contains_key((post_id, image, k)) && chunks[(post_id, image, k)] == parts[k as int],
    ensures
        image_bytes(chunks, post_id, image, parts.len()) == parts.flatten(),
{
    lemma_image_prefix(chunks, post_id, image, parts, parts.len());
    assert(parts.subrange(0, parts.len() as int) =~= parts);
}

/// Liking a post and then taking the like back leaves the likes, and the post's like
/// count, as they were.
pub proof fn law_like_then_unlike(likes: Map<LikeKey, ()>, key: LikeKey, like_count: u64)
    requires
        !likes.contains_key(key),
        like_count < u64::MAX,
    ensures
        likes.insert(key, ()).remove(key) == likes,
        ((like_count + 1) as u64).saturating_sub(1) == like_count,
{
    assert(likes.insert(key, ()).remove(key) =~= likes);
}

proof fn lemma_listing_newest_first(e: Seq<(u64, Post)>)
    requires
        forall|i: int, j: int| 0 <= i < j < e.len() ==> #[trigger] e[i].1.id < #[trigger] e[j].1.id,
    ensures
        forall|k: int| 0 <= k < published_newest_first(e).len() ==> (#[trigger] published_newest_first(e)[k]).status@ == StatusModel::Published,
        forall|a: int, b: int| 0 <= a < b < published_newest_first(e).len() ==> #[trigger] published_newest_first(e)[a].id > #[trigger] published_newest_first(e)[b].id,
        forall|k: int| 0 <= k < published_newest_first(e).len() ==> exists|i: int| 0 <= i < e.len() && e[i].1 == #[trigger] published_newest_first(e)[k],
        forall|i: int| 0 <= i < e.len() && (#[trigger] e[i]).1.status@ == StatusModel::Published ==> published_newest_first(e).contains(e[i].1),
    decreases e.len(),
{
    if e.len() > 0 {
        let t = e.drop_first();
        assert forall|i: int, j: int| 0 <= i < j < t.len() implies #[trigger] t[i].1.id < #[trigger] t[j].1.id by {
            assert(t[i] == e[i + 1] && t[j] == e[j + 1]);
        }
        lemma_listing_newest_first(t);
        let rest = published_newest_first(t);
        let all = published_newest_first(e);
        assert forall|k: int| 0 <= k < rest.len() implies exists|i: int| 0 <= i < e.len() && e[i].1 == #[trigger] rest[k] by {
            let i = choose|i: int| 0 <= i < t.len() && t[i].1 == rest[k];
            assert(e[i + 1] == t[i]);
        }
        assert forall|k: int| 0 <= k < rest.len() implies (#[trigger] rest[k]).id > e[0].1.id by {
            let i = choose|i: int| 0 <= i < t.len() && t[i].1 == rest[k];
            assert(e[i + 1] == t[i]);
            assert(e[0].1.id < e[i + 1].1.id);
        }
        assert forall|i: int| 0 <= i < e.len() && (#[trigger] e[i]).1.status@ == StatusModel::Published implies all.contains(e[i].1) by {
            if e[0].1.status@ == StatusModel::Published {
                assert(all == rest.push(e[0].1));
            } else {
                assert(all =~= rest);
            }
            if i == 0 {
                assert(all[all.len() - 1] == e[0].1);
            } else {
                assert(t[i - 1] == e[i]);
                assert(rest.contains(e[i].1));
                let k = choose|k: int| 0 <= k < rest.len() && rest[k] == e[i].1;
                assert(all[k] == rest[k]);
            }
        }
        if e[0].1.status@ == StatusModel::Published {
            assert(all == rest.push(e[0].1));
            assert forall|k: int| 0 <= k < all.len() implies exists|i: int| 0 <= i < e.len() && e[i].1 == #[trigger] all[k] by {
                if k < rest.len() {
                    assert(all[k] == rest[k]);
                } else {
                    assert(e[0].1 == all[k]);
                }
            }
            assert forall|a: int, b: int| 0 <= a < b < all.len() implies #[trigger] all[a].id > #[trigger] all[b].id by {
                if b < rest.len() {
                    assert(all[a] == rest[a] && all[b] == rest[b]);
                } else {
                    assert(all[a] == rest[a]);
                }
            }
        } else {
            assert(all =~= rest);
        }
    }
}

/// The post listing holds published stored posts only, newest (largest id) first.
pub proof fn law_listing_newest_first(s: FeedState)
    requires
        s.wf(),
    ensures
        forall|k: int| 0 <= k < published_newest_first(s.posts.entries@).len() ==> (#[trigger] published_newest_first(s.posts.entries@)[k]).status@ == StatusModel::Published,
        forall|a: int, b: int| 0 <= a < b < published_newest_first(s.posts.entries@).len() ==> #[trigger] published_newest_first(s.posts.entries@)[a].id > #[trigger] published_newest_first(s.posts.entries@)[b].id,
        forall|k: int| 0 <= k < published_newest_first(s.posts.entries@).len() ==> s.posts.as_map().contains_key(#[trigger] published_newest_first(s.posts.entries@)[k].id)
            && s.posts.as_map()[published_newest_first(s.posts.entries@)[k].id] == published_newest_first(s.posts.entries@)[k],
        forall|id: u64| #[trigger] s.posts.as_map().contains_key(id) && s.posts.as_map()[id].status@ == StatusModel::Published
            ==> published_newest_first(s.posts.entries@).contains(s.posts.as_map()[id]),
{
    let e = s.posts.entries@;
    assert forall|i: int, j: int| 0 <= i < j < e.len() implies #[trigger] e[i].1.id < #[trigger] e[j].1.id by {
        assert(e[i].0 < e[j].0);
        assert(e[i].0 == e[i].1.id);
        assert(e[j].0 == e[j].1.id);
    }
    lemma_listing_newest_first(e);
    let l = published_newest_first(e);
    assert forall|k: int| 0 <= k < l.len() implies s.posts.as_map().contains_key(#[trigger] l[k].id) && s.posts.as_map()[l[k].id] == l[k] by {
        let i = choose|i: int| 0 <= i < e.len() && e[i].1 == l[k];
        s.posts.lemma_pos(i);
        assert(e[i].0 == e[i].1.id);
    }
    assert forall|id: u64| #[trigger] s.posts.as_map().contains_key(id) && s.posts.as_map()[id].status@ == StatusModel::Published
        implies l.contains(s.posts.as_map()[id]) by {
        assert(s.posts.has(id));
        let i = s.posts.pos(id);
        s.posts.lemma_pos(i);
        assert(e[i].0 == id);
        assert(e[i].1.status@ == StatusModel::Published);
    }
}

/// The answer for image `image_index` of a post is that image's own uploaded chunks:
/// when chunks `0..chunk_count` of that image hold `parts`, it is a 200 with the
/// image's content type and `parts` concatenated. A missing post or image is a 404.
pub proof fn law_served_image_is_its_chunks(s: FeedState, post_id: u64, image_index: u32, parts: Seq<Seq<u8>>)
    requires
        s.posts.as_map().contains_key(post_id) && (image_index as int) < s.posts.as_map()[post_id]@.images.len() ==> {
            &&& parts.len() == s.posts.as_map()[post_id]@.images[image_index as int].chunk_count
            &&& forall|k: u32| (k as int) < parts.len() ==> #[trigger] s.chunk_map().contains_key((post_id, image_index, k))
                && s.chunk_map()[(post_id, image_index, k)] == parts[k as int]
        },
    ensures
        s.posts.as_map().contains_key(post_id) && (image_index as int) < s.posts.as_map()[post_id]@.images.len() ==> {
            let r = image_response(&s, post_id, image_index);
            &&& r.status_code == 200
            &&& r.headers[0] == ("Content-Type"@, s.posts.as_map()[post_id]@.images[image_index as int].content_type)
            &&& r.body == parts.flatten()
        },
        !(s.posts.as_map().contains_key(post_id) && (image_index as int) < s.posts.as_map()[post_id]@.images.len())
            ==> image_response(&s, post_id, image_index).status_code == 404,
{
    if s.posts.as_map().contains_key(post_id) && (image_index as int) < s.posts.as_map()[post_id]@.images.len() {
        law_image_chunks_read_back(s.chunk_map(), post_id, image_index, parts);
    }
}

} // verus!
