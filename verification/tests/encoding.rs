use phash::encoding::decode_base64;
use phash::state::ServerState;
use std::sync::Arc;

#[test]
fn base64_is_decoded() {
    assert_eq!(decode_base64(""), Some(vec![]));
    assert_eq!(decode_base64("AAAA"), Some(vec![0, 0, 0]));
    assert_eq!(decode_base64("QQ=="), Some(vec![0x41]));
    assert_eq!(decode_base64("+/8="), Some(vec![0xfb, 0xff]));
    let pepper: Vec<u8> = (0x20u8..0x30).collect();
    assert_eq!(decode_base64("ICEiIyQlJicoKSorLC0uLw=="), Some(pepper));
}

#[test]
fn other_text_is_not_decoded() {
    assert_eq!(decode_base64("QQ"), None);
    assert_eq!(decode_base64("QQ="), None);
    assert_eq!(decode_base64("Q"), None);
    assert_eq!(decode_base64("-_8="), None);
    assert_eq!(decode_base64("AA AA"), None);
    assert_eq!(decode_base64("AAAA\n"), None);
    assert_eq!(decode_base64("QR=="), None);
    assert_eq!(decode_base64("é"), None);
}

#[test]
fn secret_is_borrowed_not_copied() {
    let secret: Arc<[u8]> = Arc::from((0u8..32).collect::<Vec<u8>>());
    let state = ServerState { argon_secret: secret.clone() };
    assert_eq!(state.borrow_secret(), &secret[..]);
    assert!(std::ptr::eq(state.borrow_secret(), &secret[..]));
    let shared = state.clone();
    assert!(std::ptr::eq(shared.borrow_secret(), state.borrow_secret()));
    assert_eq!(Arc::strong_count(&secret), 3);
}
