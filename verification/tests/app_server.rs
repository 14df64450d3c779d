use marscat::app_server::auth::constant_time_eq;
use marscat::app_server::http::{error_response, time_millis, version_json_response, HttpReply};
use marscat::app_server::state::AppState;
use marscat::app_server::types::{
    Announcement, AppVersion, HttpRequest, ReviewVersionRequest, ReviewVersionResponse,
    VersionUpdate, DATA_ALREADY_EXISTS, DATA_NOT_EXISTS, PERMISSION_NOT_FOUND,
};
use marscat::principal::PrincipalId;

fn owner() -> PrincipalId {
    PrincipalId::from_slice(&[1, 2, 3, 4]).unwrap()
}

fn stranger() -> PrincipalId {
    PrincipalId::from_slice(&[9]).unwrap()
}

fn server() -> AppState {
    let mut s = AppState::new();
    s.init(owner());
    s
}

fn announcement(title: &str) -> Announcement {
    Announcement { title: title.to_string(), content: format!("{} body", title), timestamp: 5, url: "u".to_string() }
}

fn version() -> VersionUpdate {
    VersionUpdate {
        ios_version: "1.2".to_string(),
        ios_title: "t".to_string(),
        ios_download_url: "i".to_string(),
        android_version: "1.3".to_string(),
        android_title: "a".to_string(),
        android_download_url: "d".to_string(),
        force_update: true,
        description: "fixes".to_string(),
        release_time: 77,
    }
}

fn request(url: &str) -> HttpRequest {
    HttpRequest { method: "GET".to_string(), url: url.to_string(), headers: vec![], body: vec![] }
}

#[test]
fn owner_checks() {
    let mut s = AppState::new();
    assert_eq!(s._check_owner(owner()), Err("Only owner can perform this action".to_string()));
    s.post_upgrade(owner());
    assert_eq!(s._check_owner(owner()), Ok(()));
    s.post_upgrade(stranger());
    assert_eq!(s._check_owner(stranger()), Err("Only owner can perform this action".to_string()));
    s.init(stranger());
    assert_eq!(s._check_owner(stranger()), Ok(()));
}

#[test]
fn versions_are_stored_by_the_owner() {
    let mut s = server();
    assert_eq!(s.get_version().err(), Some(DATA_NOT_EXISTS));
    assert_eq!(s.update_version(stranger(), version()), Err(PERMISSION_NOT_FOUND));
    assert_eq!(s.update_version(owner(), version()), Ok(()));
    let v = s.get_version().unwrap();
    assert_eq!(v, version());
    assert_eq!(s._update_version(owner(), 4, version()), Ok(()));
    assert!(s._get_version_by_key(4).is_ok());
    assert_eq!(s._get_version_by_key(5).err(), Some(DATA_NOT_EXISTS));
}

#[test]
fn get_version_over_http() {
    let mut s = server();
    match s.http_request(&request("/get_version")) {
        HttpReply::Ready(r) => {
            assert_eq!(r.status_code, 404);
            assert_eq!(r.body, format!("{{\"error\": {}}}", DATA_NOT_EXISTS).into_bytes());
            assert_eq!(r.headers, vec![("Content-Type".to_string(), "application/json".to_string())]);
            assert_eq!(r.upgrade, Some(false));
        },
        HttpReply::VersionJson(_) => panic!("no version is stored"),
    }
    s.update_version(owner(), version()).unwrap();
    match s.http_request(&request("/get_version?x=1")) {
        HttpReply::VersionJson(v) => assert_eq!(v, version()),
        HttpReply::Ready(_) => panic!("a version is stored"),
    }
    match s.http_request(&request("/other")) {
        HttpReply::Ready(r) => {
            assert_eq!(r.status_code, 404);
            assert_eq!(r.body, b"Not Found".to_vec());
            assert!(r.headers.is_empty());
        },
        HttpReply::VersionJson(_) => panic!("wrong route"),
    }
    let r = version_json_response(b"{}".to_vec());
    assert_eq!(r.status_code, 200);
    assert_eq!(r.headers[1], ("Access-Control-Allow-Origin".to_string(), "*".to_string()));
    assert_eq!(error_response(42).body, b"{\"error\": 42}".to_vec());
}

#[test]
fn announcements_page_newest_first() {
    let mut s = server();
    assert_eq!(s.announcements("en".to_string(), 0, 2).err(), Some(DATA_NOT_EXISTS));
    assert_eq!(s.add_announcement(stranger(), "en".to_string(), 1, announcement("a")), Err(PERMISSION_NOT_FOUND));
    for (id, t) in [(3u64, "c"), (10, "j"), (1, "a"), (7, "g"), (5, "e")] {
        assert_eq!(s.add_announcement(owner(), "en".to_string(), id, announcement(t)), Ok(()));
    }
    assert_eq!(s.add_announcement(owner(), "en".to_string(), 7, announcement("dup")), Err(DATA_ALREADY_EXISTS));
    let p = s.announcements("en".to_string(), 0, 2).unwrap();
    assert_eq!(p.total_announcements, 5);
    assert_eq!(p.total_pages, 3);
    let ids: Vec<u64> = p.announcements.iter().map(|a| a.id).collect();
    assert_eq!(ids, vec![10, 7]);
    assert_eq!(p.announcements[0].title, "j");
    assert_eq!(p.announcements[0].content, "j body");
    let p = s.announcements("en".to_string(), 2, 2).unwrap();
    let ids: Vec<u64> = p.announcements.iter().map(|a| a.id).collect();
    assert_eq!(ids, vec![1]);
    let p = s.announcements("en".to_string(), 3, 2).unwrap();
    assert!(p.announcements.is_empty());
    assert_eq!(p.total_pages, 3);
}

#[test]
fn add_then_remove_announcement() {
    let mut s = server();
    s.add_announcement(owner(), "de".to_string(), 2, announcement("b")).unwrap();
    s.add_announcement(owner(), "de".to_string(), 4, announcement("d")).unwrap();
    assert_eq!(s.remove_announcement(stranger(), "de".to_string(), 4), Err(PERMISSION_NOT_FOUND));
    assert_eq!(s.remove_announcement(owner(), "fr".to_string(), 4), Err(DATA_NOT_EXISTS));
    assert_eq!(s.remove_announcement(owner(), "de".to_string(), 9), Err(DATA_NOT_EXISTS));
    assert_eq!(s.remove_announcement(owner(), "de".to_string(), 4), Ok(()));
    let p = s.announcements("de".to_string(), 0, 10).unwrap();
    assert_eq!(p.total_announcements, 1);
    assert_eq!(p.announcements[0].id, 2);
    assert_eq!(s.remove_announcement(owner(), "de".to_string(), 2), Ok(()));
    let p = s.announcements("de".to_string(), 0, 10).unwrap();
    assert_eq!((p.total_announcements, p.total_pages), (0, 0));
}

#[test]
fn api_keys_need_a_signature() {
    let mut s = server();
    assert_eq!(s.set_api_key(stranger(), "k".to_string(), vec!["v".to_string()]), Err(PERMISSION_NOT_FOUND));
    assert_eq!(s.set_api_key(owner(), "k".to_string(), vec!["v1".to_string(), "v2".to_string()]), Ok(()));
    assert_eq!(s.api_key("k".to_string(), "sig".to_string()).err(), Some(PERMISSION_NOT_FOUND));
    assert_eq!(s.set_auth_secret(stranger(), "key".to_string()), Err(PERMISSION_NOT_FOUND));
    s.set_auth_secret(owner(), "key".to_string()).unwrap();
    assert_eq!(s.owner("x").err(), Some(PERMISSION_NOT_FOUND));
    s.set_auth_message(owner(), "The quick brown fox jumps over the lazy dog".to_string()).unwrap();
    let sig = "f7bc83f430538424b13298e6aa6fb143ef4d59a14946175997479dbc2d1a3cd8";
    assert_eq!(s._verify_signature(sig), Ok(()));
    assert_eq!(s._verify_signature(&sig.to_uppercase()), Err(PERMISSION_NOT_FOUND));
    assert_eq!(s.owner(sig), Ok(Some(owner())));
    assert_eq!(s.api_key("k".to_string(), sig.to_string()).unwrap().0, vec!["v1".to_string(), "v2".to_string()]);
    assert_eq!(s.api_key("nope".to_string(), sig.to_string()).err(), Some(DATA_NOT_EXISTS));
    assert_eq!(s.remove_api_key(owner(), "k".to_string()), Ok(()));
    assert_eq!(s.remove_api_key(owner(), "k".to_string()), Err(DATA_NOT_EXISTS));
    assert_eq!(s.remove_api_key(stranger(), "k".to_string()), Err(PERMISSION_NOT_FOUND));
}

#[test]
fn constant_time_comparison() {
    assert!(constant_time_eq("abc", "abc"));
    assert!(!constant_time_eq("abc", "abd"));
    assert!(!constant_time_eq("abc", "ab"));
    assert!(constant_time_eq("", ""));
}

#[test]
fn review_versions() {
    let mut s = server();
    let req = ReviewVersionRequest { ios_version: Some("2.0".to_string()), android_version: Some("3.0".to_string()) };
    assert_eq!(s.check_review_version(req.clone()).err(), Some(DATA_NOT_EXISTS));
    assert_eq!(s.get_app_version().err(), Some(DATA_NOT_EXISTS));
    let v = AppVersion { android_version: "3.0".to_string(), ios_version: "2.1".to_string() };
    assert_eq!(s.set_app_version(stranger(), v.clone()), Err(PERMISSION_NOT_FOUND));
    assert_eq!(s.set_app_version(owner(), v.clone()), Ok(()));
    assert_eq!(s.get_app_version(), Ok(v));
    assert_eq!(s.check_review_version(req), Ok(ReviewVersionResponse { ios_h: 0, android_h: 1 }));
    let none = ReviewVersionRequest { ios_version: Some("2.1".to_string()), android_version: None };
    assert_eq!(s.check_review_version(none), Ok(ReviewVersionResponse { ios_h: 1, android_h: 0 }));
}

#[test]
fn top_downloads() {
    let mut s = server();
    let info = |s: &mut AppState, addr: &str, count: u64| {
        s.set_info(owner(), addr.to_string(), format!("{} app", addr), "about".to_string(), "1.0".to_string(), 3, count, 0)
    };
    assert_eq!(
        s.set_info(stranger(), "x".to_string(), "n".to_string(), "a".to_string(), "v".to_string(), 1, 1, 1),
        Err("Only owner can perform this action".to_string())
    );
    info(&mut s, "a", 5).unwrap();
    info(&mut s, "b", 50).unwrap();
    info(&mut s, "c", 20).unwrap();
    info(&mut s, "d", 1).unwrap();
    info(&mut s, "a", 60).unwrap();
    assert_eq!(s.top_info(0), Ok(vec![]));
    let top = s.top_info(3).unwrap();
    let addrs: Vec<&str> = top.iter().map(|t| t.app_address.as_str()).collect();
    assert_eq!(addrs, vec!["a", "b", "c"]);
    assert_eq!(top[0].info.name, "a app");
    assert_eq!(s.top_info(10).unwrap().len(), 4);
}

#[test]
fn top_downloads_ties_follow_address_order() {
    let mut s = server();
    let info = |s: &mut AppState, addr: &str, count: u64| {
        s.set_info(owner(), addr.to_string(), format!("{} app", addr), "about".to_string(), "1.0".to_string(), 3, count, 0)
    };
    info(&mut s, "b", 5).unwrap();
    info(&mut s, "a", 5).unwrap();
    let top = s.top_info(1).unwrap();
    assert_eq!(top.len(), 1);
    assert_eq!(top[0].app_address, "a");

    info(&mut s, "c", 6).unwrap();
    let top = s.top_info(2).unwrap();
    let addrs: Vec<&str> = top.iter().map(|t| t.app_address.as_str()).collect();
    assert_eq!(addrs, vec!["c", "b"]);

    info(&mut s, "c", 5).unwrap();
    let mut addrs: Vec<String> = s.top_info(2).unwrap().into_iter().map(|t| t.app_address).collect();
    addrs.sort();
    assert_eq!(addrs, vec!["a".to_string(), "b".to_string()]);
}

#[test]
fn millis_from_nanos() {
    assert_eq!(time_millis(1_234_567_890), 1_234);
}
