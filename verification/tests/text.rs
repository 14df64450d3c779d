use marscat::principal::PrincipalId;
use marscat::text::{
    after_last_char, before_first_char, byte_len, decimal_string, first_index_of, parse_u32,
    parse_u64, parse_usize, same_text, starts_with_text,
};

#[test]
fn decimal_round_trips() {
    for n in [0u64, 7, 10, 99, 1000, u64::MAX] {
        let s = decimal_string(n);
        assert_eq!(s, n.to_string());
        assert_eq!(parse_u64(s.as_bytes()), Some(n));
    }
}

#[test]
fn parsing_follows_from_str() {
    assert_eq!(parse_u32(b"+12"), Some(12));
    assert_eq!(parse_u32(b""), None);
    assert_eq!(parse_u32(b"+"), None);
    assert_eq!(parse_u32(b"-1"), None);
    assert_eq!(parse_u32(b"4294967295"), Some(u32::MAX));
    assert_eq!(parse_u32(b"4294967296"), None);
    assert_eq!(parse_u64(b"18446744073709551616"), None);
    assert_eq!(parse_usize(b"0042"), Some(42));
    assert_eq!(parse_u32(b"1 "), None);
}

#[test]
fn text_helpers() {
    assert_eq!(byte_len("\u{20ac}a"), 4);
    assert_eq!(first_index_of("a/b/c", '/'), Some(1));
    assert_eq!(first_index_of("abc", '/'), None);
    assert_eq!(after_last_char("x/y/z.png", '/'), "z.png");
    assert_eq!(before_first_char("/p?q=1?r", '?'), "/p");
    assert!(starts_with_text("/sticker/1", "/sticker/"));
    assert!(!starts_with_text("/st", "/sticker/"));
    assert!(same_text("image", "image"));
    assert!(!same_text("image", "images"));
}

#[test]
fn principals() {
    let p = PrincipalId::from_slice(&[1, 2, 3]).unwrap();
    assert_eq!(p.to_vec(), vec![1, 2, 3]);
    assert!(p.same(&PrincipalId::from_slice(&[1, 2, 3]).unwrap()));
    assert!(!p.same(&PrincipalId::from_slice(&[1, 2]).unwrap()));
    assert!(PrincipalId::from_slice(&[0u8; 30]).is_none());
    assert_eq!(PrincipalId::empty().to_vec(), Vec::<u8>::new());
}
