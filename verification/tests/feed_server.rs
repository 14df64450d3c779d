use marscat::feed_server::state::FeedState;
use marscat::feed_server::types::{
    CreatePostRequest, Error, ImageChunkKey, LikeKey, PostCommentKey, PostStatus,
    MAX_CHUNK_SIZE,
};
use marscat::feed_server::upload::{parse_image_size, validate_content_type};
use marscat::principal::PrincipalId;
use marscat::sticker_server::http::HttpRequest;

fn user(n: u8) -> PrincipalId {
    PrincipalId::from_slice(&[n, 1, 2]).unwrap()
}

fn png(width: u32, height: u32) -> Vec<u8> {
    let mut v = vec![0x89, b'P', b'N', b'G', 0x0D, 0x0A, 0x1A, 0x0A, 0, 0, 0, 13];
    v.extend_from_slice(b"IHDR");
    v.extend_from_slice(&width.to_be_bytes());
    v.extend_from_slice(&height.to_be_bytes());
    v.extend_from_slice(&[8, 6, 0, 0, 0, 0, 0, 0, 0]);
    v
}

fn request(url: &str) -> HttpRequest {
    HttpRequest { method: "GET".to_string(), url: url.to_string(), headers: vec![], body: vec![] }
}

fn text_post(content: &str) -> CreatePostRequest {
    CreatePostRequest { content: content.to_string(), images: vec![] }
}

fn server_with_users() -> FeedState {
    let mut s = FeedState::new();
    s.init_admin(user(100));
    s.register(user(1), 10, "alice".to_string(), "a.png".to_string()).unwrap();
    s.register(user(2), 11, "bob".to_string(), "b.png".to_string()).unwrap();
    s
}

#[test]
fn profiles_register_update_delete() {
    let mut s = FeedState::new();
    assert_eq!(s.register(user(1), 5, "alice".to_string(), "a".to_string()), Ok(()));
    assert_eq!(s.register(user(1), 6, "again".to_string(), "b".to_string()), Err(Error::UserAlreadyExists));
    let p = s.get_profile(user(1)).unwrap();
    assert_eq!(p.nickname, "alice");
    assert_eq!(p.created_at, 5);
    assert_eq!(s.update_profile(user(1), Some("al".to_string()), None), Ok(()));
    let p = s.get_profile(user(1)).unwrap();
    assert_eq!(p.nickname, "al");
    assert_eq!(p.avatar_url, "a");
    assert_eq!(s.update_profile(user(2), None, None), Err(Error::UserNotFound));
    assert_eq!(s.get_profile(user(2)), Err(Error::UserNotFound));
    assert_eq!(s.delete_profile(user(1)), Ok(()));
    assert_eq!(s.delete_profile(user(1)), Err(Error::UserNotFound));
}

#[test]
fn admins_are_managed_by_admins() {
    let mut s = server_with_users();
    assert_eq!(s.add_admin(user(1), user(2)), Err(Error::NotAdmin));
    assert_eq!(s.add_admin(user(100), user(2)), Ok(()));
    assert!(s.is_admin(user(2)));
    assert_eq!(s.remove_admin(user(2), user(2)), Ok(()));
    assert!(!s.is_admin(user(2)));
    assert_eq!(s.remove_admin(user(2), user(100)), Err(Error::NotAdmin));
}

#[test]
fn create_post_checks_in_order() {
    let mut s = server_with_users();
    assert_eq!(s.create_post(user(9), 1, text_post("hi")), Err(Error::NotRegistered));
    assert_eq!(s.create_post(user(1), 1, text_post(&"x".repeat(2001))), Err(Error::ContentTooLong));
    // 667 three-byte characters are 2001 bytes, though only 667 characters.
    assert_eq!(s.create_post(user(1), 1, text_post(&"\u{20ac}".repeat(667))), Err(Error::ContentTooLong));
    assert!(s.create_post(user(1), 1, text_post(&"x".repeat(2000))).is_ok());
    let many = CreatePostRequest {
        content: "pics".to_string(),
        images: (0..10).map(|_| ("image/png".to_string(), 10u64, 1u32)).collect(),
    };
    assert_eq!(s.create_post(user(1), 1, many), Err(Error::TooManyImages));
    let bad = CreatePostRequest {
        content: "pics".to_string(),
        images: vec![("image/png".to_string(), 10, 1), ("text/plain".to_string(), 10, 1)],
    };
    assert_eq!(s.create_post(user(1), 1, bad), Err(Error::InvalidContentType));
}

#[test]
fn ids_are_handed_out_in_order() {
    let mut s = server_with_users();
    assert_eq!(s.create_post(user(1), 1, text_post("a")), Ok(1));
    assert_eq!(s.create_post(user(2), 2, text_post("b")), Ok(2));
    assert_eq!(s.next_post_id(), 3);
    assert_eq!(s.next_comment_id(), 1);
    assert_eq!(s.next_comment_id(), 2);
    let p = s.get_post(1).unwrap();
    assert_eq!(p.status, PostStatus::Published);
    assert_eq!(p.author, user(1));
    assert_eq!(p.created_at, 1);
    assert_eq!(s.get_post(7), Err(Error::PostNotFound));
}

#[test]
fn image_upload_finalize_and_serve() {
    let mut s = server_with_users();
    let req = CreatePostRequest {
        content: "photo".to_string(),
        images: vec![("image/png".to_string(), 33, 2)],
    };
    let id = s.create_post(user(1), 3, req).unwrap();
    assert_eq!(s.get_post(id).unwrap().status, PostStatus::Pending { uploaded_images: vec![] });
    let data = png(640, 480);
    let (first, second) = data.split_at(20);
    assert_eq!(s.upload_post_image(user(2), id, 0, 0, first.to_vec()), Err(Error::NotAuthor));
    assert_eq!(s.upload_post_image(user(9), id, 0, 0, first.to_vec()), Err(Error::NotRegistered));
    assert_eq!(s.upload_post_image(user(1), 99, 0, 0, first.to_vec()), Err(Error::PostNotFound));
    assert_eq!(s.upload_post_image(user(1), id, 1, 0, first.to_vec()), Err(Error::ImageIndexOutOfRange));
    assert_eq!(s.upload_post_image(user(1), id, 0, 2, first.to_vec()), Err(Error::ChunkIndexOutOfRange));
    assert_eq!(s.upload_post_image(user(1), id, 0, 0, vec![0u8; MAX_CHUNK_SIZE + 1]), Err(Error::DataTooLarge));
    assert_eq!(s.upload_post_image(user(1), id, 0, 0, first.to_vec()), Ok(()));
    assert_eq!(s.finalize_post(user(1), id), Err(Error::UploadIncomplete));
    assert_eq!(s.upload_post_image(user(1), id, 0, 1, second.to_vec()), Ok(()));
    assert_eq!(s.finalize_post(user(2), id), Err(Error::NotAuthor));
    assert_eq!(s.finalize_post(user(1), id), Ok(()));
    let post = s.get_post(id).unwrap();
    assert_eq!(post.status, PostStatus::Published);
    assert_eq!(post.images[0].width, Some(640));
    assert_eq!(post.images[0].height, Some(480));
    assert_eq!(s.finalize_post(user(1), id), Err(Error::UploadNotPending));
    assert_eq!(s.upload_post_image(user(1), id, 0, 0, first.to_vec()), Err(Error::UploadNotPending));
    let (ct, bytes) = s.get_image_data(id, 0).unwrap();
    assert_eq!(ct, "image/png");
    assert_eq!(bytes, data);
    assert_eq!(s.get_image_data(id, 1), Err(Error::ImageIndexOutOfRange));
    assert_eq!(s.get_image_data(42, 0), Err(Error::PostNotFound));

    let r = s.http_request(&request("/post/1/image/0?size=big"));
    assert_eq!(r.status_code, 200);
    assert_eq!(r.body, data);
    assert_eq!(
        r.headers,
        vec![
            ("Content-Type".to_string(), "image/png".to_string()),
            ("Cache-Control".to_string(), "public, max-age=604800".to_string()),
        ]
    );
    let r = s.http_request(&request("/post/1/image/3"));
    assert_eq!(r.status_code, 404);
    assert_eq!(r.body, b"Image not found".to_vec());
    let r = s.http_request(&request("/post/1/picture/0"));
    assert_eq!(r.status_code, 404);
    assert_eq!(r.body, b"Not Found. Use /post/{id}/image/{index}".to_vec());
    assert_eq!(r.headers, vec![("Content-Type".to_string(), "text/plain".to_string())]);
}

#[test]
fn image_with_unknown_header_keeps_no_size() {
    let mut s = server_with_users();
    let req = CreatePostRequest { content: "raw".to_string(), images: vec![("image/webp".to_string(), 3, 1)] };
    let id = s.create_post(user(1), 3, req).unwrap();
    assert_eq!(s.upload_post_image(user(1), id, 0, 0, vec![1, 2, 3]), Ok(()));
    assert_eq!(s.finalize_post(user(1), id), Ok(()));
    let post = s.get_post(id).unwrap();
    assert_eq!(post.images[0].width, None);
    assert_eq!(post.images[0].height, None);
}

#[test]
fn content_types_and_image_sizes() {
    assert_eq!(validate_content_type("image/gif"), Ok(()));
    assert_eq!(validate_content_type("image/svg+xml"), Err(Error::InvalidContentType));
    assert_eq!(parse_image_size(&png(3, 7)), Some((3, 7)));
    assert_eq!(parse_image_size(b"not an image"), None);
}

#[test]
fn image_paths_route() {
    let s = server_with_users();
    assert_eq!(s.http_request(&request("/post/x/image/0")).status_code, 404);
    assert_eq!(s.http_request(&request("/post/1/image")).status_code, 404);
    assert_eq!(s.http_request(&request("/post/1/image/0")).body, b"Image not found".to_vec());
}

#[test]
fn listing_is_newest_first_and_published_only() {
    let mut s = server_with_users();
    s.create_post(user(1), 1, text_post("one")).unwrap();
    s.create_post(user(1), 2, CreatePostRequest { content: "pending".to_string(), images: vec![("image/png".to_string(), 1, 1)] }).unwrap();
    s.create_post(user(2), 3, text_post("three")).unwrap();
    s.create_post(user(2), 4, text_post("four")).unwrap();
    let page = s.list_posts(0, 10);
    assert_eq!(page.total, 4);
    let ids: Vec<u64> = page.posts.iter().map(|p| p.id).collect();
    assert_eq!(ids, vec![4, 3, 1]);
    let page = s.list_posts(1, 1);
    assert_eq!(page.posts.len(), 1);
    assert_eq!(page.posts[0].id, 3);
    assert_eq!(page.posts[0].content, "three");
    assert_eq!(page.posts[0].image_count, 0);
    assert_eq!(s.list_posts(5, 10).posts.len(), 0);
}

#[test]
fn likes_count_once_per_user() {
    let mut s = server_with_users();
    let id = s.create_post(user(1), 1, text_post("x")).unwrap();
    assert_eq!(s.like_post(user(9), id), Err(Error::NotRegistered));
    assert_eq!(s.like_post(user(2), 77), Err(Error::PostNotFound));
    assert_eq!(s.like_post(user(2), id), Ok(()));
    assert_eq!(s.like_post(user(2), id), Err(Error::AlreadyLiked));
    assert_eq!(s.like_post(user(1), id), Ok(()));
    assert_eq!(s.get_post(id).unwrap().like_count, 2);
    assert!(s.is_liked(user(2), id));
    assert_eq!(s.unlike_post(user(2), id), Ok(()));
    assert!(!s.is_liked(user(2), id));
    assert_eq!(s.unlike_post(user(2), id), Err(Error::NotLiked));
    assert_eq!(s.get_post(id).unwrap().like_count, 1);
}

#[test]
fn like_then_unlike_restores_count() {
    let mut s = server_with_users();
    let id = s.create_post(user(1), 1, text_post("x")).unwrap();
    let before = s.get_post(id).unwrap().like_count;
    s.like_post(user(2), id).unwrap();
    s.unlike_post(user(2), id).unwrap();
    assert_eq!(s.get_post(id).unwrap().like_count, before);
    assert!(!s.is_liked(user(2), id));
}

#[test]
fn comments_and_replies() {
    let mut s = server_with_users();
    let p1 = s.create_post(user(1), 1, text_post("first")).unwrap();
    let p2 = s.create_post(user(1), 1, text_post("second")).unwrap();
    assert_eq!(s.add_comment(user(9), 5, p1, "hi".to_string(), None), Err(Error::NotRegistered));
    assert_eq!(s.add_comment(user(2), 5, p1, "x".repeat(501), None), Err(Error::ContentTooLong));
    assert_eq!(s.add_comment(user(2), 5, 99, "hi".to_string(), None), Err(Error::PostNotFound));
    assert_eq!(s.add_comment(user(2), 5, p1, "hi".to_string(), Some(42)), Err(Error::InvalidReplyTarget));
    let c1 = s.add_comment(user(2), 5, p1, "hello".to_string(), None).unwrap();
    let c2 = s.add_comment(user(1), 6, p1, "thanks".to_string(), Some(c1)).unwrap();
    assert_eq!(s.add_comment(user(2), 7, p1, "deeper".to_string(), Some(c2)), Err(Error::ReplyToReply));
    assert_eq!(s.add_comment(user(2), 7, p2, "elsewhere".to_string(), Some(c1)), Err(Error::CommentPostMismatch));
    let c3 = s.add_comment(user(2), 8, p1, "again".to_string(), Some(c1)).unwrap();
    assert_eq!((c1, c2, c3), (1, 2, 3));
    assert_eq!(s.get_post(p1).unwrap().comment_count, 3);
    let page = s.list_comments(p1, 0, 10);
    assert_eq!(page.total, 3);
    let ids: Vec<u64> = page.comments.iter().map(|c| c.id).collect();
    assert_eq!(ids, vec![1, 2, 3]);
    assert_eq!(page.comments[0].reply_count, 2);
    assert_eq!(page.comments[1].reply_to_comment_id, Some(c1));
    assert_eq!(page.comments[1].reply_to_user, Some(user(2)));
    let replies = s.list_replies(c1, 1, 5);
    assert_eq!(replies.total, 2);
    assert_eq!(replies.comments.len(), 1);
    assert_eq!(replies.comments[0].id, c3);

    assert_eq!(s.delete_comment(user(2), c2), Err(Error::NotAdmin));
    assert_eq!(s.delete_comment(user(1), c2), Ok(()));
    assert_eq!(s.list_replies(c1, 0, 10).total, 1);
    assert_eq!(s.get_post(p1).unwrap().comment_count, 2);
    assert_eq!(s.list_comments(p1, 0, 10).comments[0].reply_count, 1);
    assert_eq!(s.delete_comment(user(2), c1), Ok(()));
    assert_eq!(s.list_comments(p1, 0, 10).total, 0);
    assert_eq!(s.get_post(p1).unwrap().comment_count, 0);
    assert_eq!(s.delete_comment(user(2), c3), Err(Error::CommentNotFound));
}

#[test]
fn comment_counts_follow_the_indexes() {
    let mut s = server_with_users();
    let p = s.create_post(user(1), 1, text_post("thread")).unwrap();
    let top = s.add_comment(user(2), 2, p, "top".to_string(), None).unwrap();
    let other = s.add_comment(user(2), 2, p, "other".to_string(), None).unwrap();
    for k in 0..3u64 {
        s.add_comment(user(1), 3 + k, p, "re".to_string(), Some(top)).unwrap();
    }
    assert_eq!(s.get_post(p).unwrap().comment_count, s.list_comments(p, 0, 100).total);
    assert_eq!(s.get_post(p).unwrap().comment_count, 5);
    let page = s.list_comments(p, 0, 100);
    assert_eq!(page.comments[0].reply_count, s.list_replies(top, 0, 100).total);
    assert_eq!(page.comments[0].reply_count, 3);
    assert_eq!(s.delete_comment(user(2), top), Ok(()));
    assert_eq!(s.get_post(p).unwrap().comment_count, 1);
    assert_eq!(s.list_comments(p, 0, 100).total, 1);
    assert_eq!(s.list_comments(p, 0, 100).comments[0].id, other);
}

#[test]
fn deleting_a_post_takes_its_likes_and_comments() {
    let mut s = server_with_users();
    let id = s.create_post(user(1), 1, text_post("x")).unwrap();
    s.like_post(user(2), id).unwrap();
    let c = s.add_comment(user(2), 2, id, "hi".to_string(), None).unwrap();
    assert_eq!(s.delete_post(user(2), id), Err(Error::NotAdmin));
    assert_eq!(s.delete_post(user(100), 55), Err(Error::PostNotFound));
    assert_eq!(s.delete_post(user(100), id), Ok(()));
    assert_eq!(s.get_post(id), Err(Error::PostNotFound));
    assert!(!s.is_liked(user(2), id));
    assert_eq!(s.list_comments(id, 0, 10).total, 0);
    assert_eq!(s.delete_comment(user(2), c), Err(Error::CommentNotFound));
}

#[test]
fn keys_encode_and_decode() {
    let k = ImageChunkKey { post_id: 0x0102030405060708, image_index: 9, chunk_index: 0xA0B0C0D0 };
    let b = k.to_bytes();
    assert_eq!(b.len(), 16);
    assert_eq!(&b[..8], &[1, 2, 3, 4, 5, 6, 7, 8]);
    assert_eq!(ImageChunkKey::from_bytes(&b), k);
    let l = LikeKey { post_id: 7, user: user(3) };
    let lb = l.to_bytes();
    assert_eq!(lb, vec![0, 0, 0, 0, 0, 0, 0, 7, 3, 3, 1, 2]);
    assert_eq!(LikeKey::from_bytes(&lb), Some(l));
    assert_eq!(LikeKey::from_bytes(&lb[..5]), None);
    let pc = PostCommentKey { post_id: 1, comment_id: 256 };
    assert_eq!(PostCommentKey::from_bytes(&pc.to_bytes()), pc);
}

#[test]
fn snapshots_are_kept_in_stable_memory() {
    let s = FeedState::new();
    assert_eq!(s.load_snapshot(), Vec::<u8>::new());
    s.save_snapshot(vec![1, 2, 3]);
    assert_eq!(s.load_snapshot(), vec![1, 2, 3]);
    let opened = FeedState::open();
    assert_eq!(opened.post_counter(), 1);
    assert_eq!(opened.comment_counter(), 1);
}
