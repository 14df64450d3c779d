use std::io::{Cursor, Write};

use marscat::principal::PrincipalId;
use marscat::sticker_server::http::{percent_decode, HttpRequest};
use marscat::sticker_server::state::StickerState;
use marscat::sticker_server::types::{
    extension_to_content_type, ChunkKey, Error, PackStickerKey, StorageType, UploadStatus,
    MAX_CHUNK_SIZE, MAX_ZIP_SIZE,
};
use marscat::sticker_server::upload::{parse_image_size, validate_content_type};
use marscat::sticker_server::zip_upload::{sticker_name_of, zip_image_content_type};
use zip::write::SimpleFileOptions;
use zip::ZipWriter;

fn admin() -> PrincipalId {
    PrincipalId::from_slice(&[7, 7]).unwrap()
}

fn other() -> PrincipalId {
    PrincipalId::from_slice(&[8]).unwrap()
}

fn png(width: u32, height: u32) -> Vec<u8> {
    let mut v = vec![0x89, b'P', b'N', b'G', 0x0D, 0x0A, 0x1A, 0x0A, 0, 0, 0, 13];
    v.extend_from_slice(b"IHDR");
    v.extend_from_slice(&width.to_be_bytes());
    v.extend_from_slice(&height.to_be_bytes());
    v.extend_from_slice(&[8, 6, 0, 0, 0, 0, 0, 0, 0]);
    v
}

fn request(url: &str) -> HttpRequest {
    HttpRequest { method: "GET".to_string(), url: url.to_string(), headers: vec![], body: vec![] }
}

fn server() -> StickerState {
    let mut s = StickerState::new();
    s.init_admin(admin());
    s
}

fn binary(content_type: &str, size: u64, chunk_count: u32) -> StorageType {
    StorageType::Binary { content_type: content_type.to_string(), size, chunk_count }
}

fn zip_of(files: &[(&str, &[u8])]) -> Vec<u8> {
    let mut w = ZipWriter::new(Cursor::new(Vec::new()));
    for (name, data) in files {
        if name.ends_with('/') {
            w.add_directory(*name, SimpleFileOptions::default()).unwrap();
        } else {
            w.start_file(*name, SimpleFileOptions::default()).unwrap();
            w.write_all(data).unwrap();
        }
    }
    w.finish().unwrap().into_inner()
}

#[test]
fn packs_are_created_updated_and_listed() {
    let mut s = server();
    assert_eq!(s.create_pack(other(), 1, "cats".to_string(), "".to_string()), Err(Error::NotAdmin));
    assert_eq!(s.create_pack(admin(), 1, "cats".to_string(), "meow".to_string()), Ok(1));
    assert_eq!(s.create_pack(admin(), 2, "dogs".to_string(), "woof".to_string()), Ok(2));
    assert_eq!(s.update_pack(admin(), 5, 1, Some("kittens".to_string()), None, Some(9)), Ok(()));
    assert_eq!(s.update_pack(admin(), 5, 3, None, None, None), Err(Error::PackNotFound));
    let p = s.get_pack(1).unwrap();
    assert_eq!(p.name, "kittens");
    assert_eq!(p.description, "meow");
    assert_eq!(p.cover_sticker_id, Some(9));
    assert_eq!(p.updated_at, 5);
    assert_eq!(p.created_at, 1);
    assert_eq!(p.creator, admin());
    let page = s.list_packs(1, 5);
    assert_eq!(page.total, 2);
    assert_eq!(page.packs.len(), 1);
    assert_eq!(page.packs[0].name, "dogs");
    assert_eq!(page.packs[0].sticker_count, 0);
    assert_eq!(s.get_pack(4), Err(Error::PackNotFound));
}

#[test]
fn admins_manage_admins() {
    let mut s = server();
    assert_eq!(s.add_admin(other(), other()), Err(Error::NotAdmin));
    assert_eq!(s.add_admin(admin(), other()), Ok(()));
    assert!(s.is_admin(other()));
    assert_eq!(s.remove_admin(other(), other()), Ok(()));
    assert!(!s.is_admin(other()));
}

#[test]
fn sticker_with_inline_data_is_complete() {
    let mut s = server();
    let pack = s.create_pack(admin(), 1, "p".to_string(), "d".to_string()).unwrap();
    let data = png(16, 16);
    let id = s
        .create_sticker(admin(), 2, pack, "smile".to_string(), vec!["happy".to_string()], binary("image/png", 33, 1), Some(data.clone()))
        .unwrap();
    let st = s.get_sticker(id).unwrap();
    assert_eq!(st.upload_status, UploadStatus::Complete);
    assert_eq!(st.tags, vec!["happy".to_string()]);
    assert_eq!(s.get_sticker_data(id), Ok(data.clone()));
    assert_eq!(s.get_chunk(id, 0), Ok(data.clone()));
    assert_eq!(s.get_chunk(id, 1), Err(Error::StickerNotFound));
    assert_eq!(
        s.create_sticker(admin(), 2, pack, "x".to_string(), vec![], binary("application/zip", 1, 1), None),
        Err(Error::InvalidContentType)
    );
    assert_eq!(
        s.create_sticker(admin(), 2, 99, "x".to_string(), vec![], binary("image/png", 1, 1), None),
        Err(Error::PackNotFound)
    );
    assert_eq!(
        s.create_sticker(admin(), 2, pack, "big".to_string(), vec![], binary("image/png", 1, 1), Some(vec![0u8; MAX_CHUNK_SIZE + 1])),
        Err(Error::DataTooLarge)
    );
}

#[test]
fn chunked_upload_then_finalize() {
    let mut s = server();
    let pack = s.create_pack(admin(), 1, "p".to_string(), "d".to_string()).unwrap();
    let id = s
        .create_sticker(admin(), 2, pack, "wave".to_string(), vec![], binary("image/png", 33, 2), None)
        .unwrap();
    let data = png(100, 50);
    let (a, b) = data.split_at(10);
    assert_eq!(s.admin_upload_chunk(other(), id, 0, a.to_vec(), 3), Err(Error::NotAdmin));
    assert_eq!(s.admin_upload_chunk(admin(), id, 2, a.to_vec(), 3), Err(Error::ChunkIndexOutOfRange));
    assert_eq!(s.admin_upload_chunk(admin(), 77, 0, a.to_vec(), 3), Err(Error::StickerNotFound));
    assert_eq!(s.admin_upload_chunk(admin(), id, 0, a.to_vec(), 3), Ok(()));
    assert_eq!(s.admin_upload_chunk(admin(), id, 0, a.to_vec(), 3), Err(Error::ChunkAlreadyUploaded));
    assert_eq!(s.admin_finalize_upload(admin(), id, 4), Err(Error::UploadIncomplete));
    let r = s.http_request(&request(&format!("/sticker/{}", id)));
    assert_eq!(r.status_code, 404);
    assert_eq!(r.body, b"Upload not complete".to_vec());
    assert_eq!(s.admin_upload_chunk(admin(), id, 1, b.to_vec(), 5), Ok(()));
    assert_eq!(s.admin_finalize_upload(admin(), id, 6), Ok(()));
    assert_eq!(s.admin_finalize_upload(admin(), id, 6), Err(Error::UploadNotPending));
    let st = s.get_sticker(id).unwrap();
    assert_eq!((st.width, st.height), (Some(100), Some(50)));
    assert_eq!(st.updated_at, 6);
    assert_eq!(s.get_sticker_data(id), Ok(data.clone()));
    let r = s.http_request(&request(&format!("/sticker/{}?v=1", id)));
    assert_eq!(r.status_code, 200);
    assert_eq!(r.body, data);
    assert_eq!(r.headers[0], ("Content-Type".to_string(), "image/png".to_string()));
}

#[test]
fn external_stickers_redirect() {
    let mut s = server();
    let pack = s.create_pack(admin(), 1, "links".to_string(), "".to_string()).unwrap();
    let id = s
        .create_sticker(admin(), 2, pack, "far".to_string(), vec![], StorageType::External { url: "https://x.test/a.png".to_string() }, None)
        .unwrap();
    assert_eq!(s.get_sticker(id).unwrap().upload_status, UploadStatus::Complete);
    assert_eq!(s.get_sticker_data(id), Ok(vec![]));
    let r = s.http_request(&request(&format!("/sticker/{}", id)));
    assert_eq!(r.status_code, 302);
    assert_eq!(r.headers, vec![("Location".to_string(), "https://x.test/a.png".to_string())]);
    assert!(r.body.is_empty());
    assert_eq!(s.admin_upload_chunk(admin(), id, 0, vec![1], 3), Err(Error::UploadNotPending));
}

#[test]
fn routes_by_pack_name_and_index() {
    let mut s = server();
    let pack = s.create_pack(admin(), 1, "happy cats".to_string(), "".to_string()).unwrap();
    let first = s.create_sticker(admin(), 2, pack, "a".to_string(), vec![], binary("image/png", 3, 1), Some(vec![1, 2, 3])).unwrap();
    let second = s.create_sticker(admin(), 2, pack, "b".to_string(), vec![], binary("image/gif", 2, 1), Some(vec![4, 5])).unwrap();
    assert_eq!(s.get_pack_sticker_by_index(pack, 2), Some(second));
    assert_eq!(s.get_pack_sticker_by_index(pack, 1), Some(first));
    assert_eq!(s.get_pack_sticker_by_index(pack, 3), None);
    assert_eq!(s.http_request(&request("/happy%20cats/2")).body, vec![4, 5]);
    assert_eq!(s.http_request(&request("//happy+cats/1")).body, vec![1, 2, 3]);
    let r = s.http_request(&request("/happy%20cats/3"));
    assert_eq!((r.status_code, r.body), (404, b"Sticker not found".to_vec()));
    let r = s.http_request(&request("/sad%20cats/1"));
    assert_eq!(r.body, b"Sticker not found".to_vec());
    let r = s.http_request(&request("/happy%20cats/0"));
    assert_eq!(r.body, b"Not Found. Use /sticker/{id} or /{pack_name}/{index}".to_vec());
    let r = s.http_request(&request("/sticker/99"));
    assert_eq!(r.body, b"Sticker not found".to_vec());
    assert_eq!(s.find_pack_by_name("happy cats").map(|p| p.id), Some(pack));
    assert_eq!(s.find_pack_by_name("happy"), None);
}

#[test]
fn listing_and_deleting_stickers() {
    let mut s = server();
    let pack = s.create_pack(admin(), 1, "p".to_string(), "".to_string()).unwrap();
    let a = s.create_sticker(admin(), 2, pack, "a".to_string(), vec![], binary("image/png", 3, 1), Some(vec![1, 2, 3])).unwrap();
    let b = s.create_sticker(admin(), 2, pack, "b".to_string(), vec![], binary("image/png", 3, 1), Some(vec![4])).unwrap();
    assert_eq!(s.count_pack_stickers(pack), 2);
    let page = s.list_stickers(pack, 1, 10);
    assert_eq!(page.total, 2);
    assert_eq!(page.stickers.len(), 1);
    assert_eq!(page.stickers[0].id, b);
    assert_eq!(s.update_sticker(admin(), 9, a, Some("aa".to_string()), Some(vec!["t".to_string()])), Ok(()));
    assert_eq!(s.get_sticker(a).unwrap().name, "aa");
    assert_eq!(s.update_sticker(admin(), 9, 55, None, None), Err(Error::StickerNotFound));
    assert_eq!(s.delete_sticker(other(), a), Err(Error::NotAdmin));
    assert_eq!(s.delete_sticker(admin(), a), Ok(()));
    assert_eq!(s.get_sticker(a), Err(Error::StickerNotFound));
    assert_eq!(s.get_chunk(a, 0), Err(Error::StickerNotFound));
    assert_eq!(s.count_pack_stickers(pack), 1);
    assert_eq!(s.delete_sticker(admin(), a), Err(Error::StickerNotFound));
    assert_eq!(s.delete_pack(admin(), pack), Ok(()));
    assert_eq!(s.get_sticker(b), Err(Error::StickerNotFound));
    assert_eq!(s.get_pack(pack), Err(Error::PackNotFound));
    assert_eq!(s.delete_pack(admin(), pack), Err(Error::PackNotFound));
}

#[test]
fn zip_import_adds_image_files() {
    let mut s = server();
    let pack = s.create_pack(admin(), 1, "zipped".to_string(), "".to_string()).unwrap();
    let img = png(8, 9);
    let data = zip_of(&[
        ("folder/", b""),
        ("folder/grin.face.PNG", &img),
        ("__MACOSX/grin.png", b"junk"),
        (".hidden.png", b"junk"),
        ("notes.txt", b"text"),
        ("wink.gif", b"GIF89a"),
    ]);
    assert_eq!(s.upload_zip(other(), 3, pack, data.clone()), Err(Error::NotAdmin));
    assert_eq!(s.upload_zip(admin(), 3, 42, data.clone()), Err(Error::PackNotFound));
    let ids = s.upload_zip(admin(), 3, pack, data).unwrap();
    assert_eq!(ids, vec![1, 2]);
    let st = s.get_sticker(1).unwrap();
    assert_eq!(st.name, "grin");
    assert_eq!(st.upload_status, UploadStatus::Complete);
    assert_eq!(st.storage_type, binary("image/png", img.len() as u64, 1));
    assert_eq!(s.get_sticker_data(1), Ok(img));
    assert_eq!(s.get_sticker(2).unwrap().name, "wink");
    assert_eq!(s.get_sticker_data(2), Ok(b"GIF89a".to_vec()));
    assert_eq!(s.count_pack_stickers(pack), 2);
}

#[test]
fn zip_import_errors() {
    let mut s = server();
    let pack = s.create_pack(admin(), 1, "zipped".to_string(), "".to_string()).unwrap();
    assert_eq!(s.upload_zip(admin(), 3, pack, zip_of(&[("a.txt", b"x")])), Err(Error::ZipNoImagesFound));
    let names: Vec<String> = (0..101).map(|i| format!("{}.png", i)).collect();
    let files: Vec<(&str, &[u8])> = names.iter().map(|n| (n.as_str(), &b"x"[..])).collect();
    assert_eq!(s.upload_zip(admin(), 3, pack, zip_of(&files)), Err(Error::ZipTooManyImages));
    assert_eq!(s.upload_zip(admin(), 3, pack, vec![0u8; MAX_ZIP_SIZE + 1]), Err(Error::ZipTooLarge));
    match s.upload_zip(admin(), 3, pack, b"not a zip".to_vec()) {
        Err(Error::ZipExtractFailed { detail }) => assert!(detail.starts_with("Failed to open zip: ")),
        other => panic!("unexpected {:?}", other),
    }
    assert_eq!(s.count_pack_stickers(pack), 0);
}

#[test]
fn helpers_and_codecs() {
    assert_eq!(extension_to_content_type("JPG"), Some("image/jpeg"));
    assert_eq!(extension_to_content_type("webp"), Some("image/webp"));
    assert_eq!(extension_to_content_type("bmp"), None);
    assert_eq!(validate_content_type("image/png"), Ok(()));
    assert_eq!(validate_content_type("image/bmp"), Err(Error::InvalidContentType));
    assert_eq!(parse_image_size(&png(1, 2)), Some((1, 2)));
    assert_eq!(parse_image_size(&[1, 2, 3]), None);
    assert_eq!(zip_image_content_type("a/b.Gif", false), Some("image/gif"));
    assert_eq!(zip_image_content_type("a/", true), None);
    assert_eq!(sticker_name_of("dir/sub/cat.big.png"), "cat");
    assert_eq!(percent_decode("a%2Fb+c%zz"), "a/b c%zz");
    assert_eq!(percent_decode("plain"), "plain");
    assert_eq!(percent_decode("caf%C3%A9"), "caf\u{e9}");
    assert_eq!(percent_decode("%FF"), "\u{fffd}");
    let k = ChunkKey { sticker_id: 0x01020304, chunk_index: 5 };
    assert_eq!(k.to_bytes(), vec![1, 2, 3, 4, 0, 0, 0, 5]);
    assert_eq!(ChunkKey::from_bytes(&k.to_bytes()), k);
    let pk = PackStickerKey { pack_id: 9, sticker_id: 300 };
    assert_eq!(PackStickerKey::from_bytes(&pk.to_bytes()), pk);
}

#[test]
fn opening_fresh_memory_gives_an_empty_server() {
    let s = StickerState::open().unwrap();
    assert_eq!(s.pack_counter(), 1);
    assert_eq!(s.sticker_counter(), 1);
    assert_eq!(s.list_packs(0, 10).total, 0);
    s.save_snapshot(vec![9]);
    assert_eq!(s.load_snapshot(), vec![9]);
}
