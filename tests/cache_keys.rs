use cache_normalizer::{
    collapse_whitespace, normalize, normalize_and_hash, normalize_and_hash_batch, normalize_text,
    render_digest, text_hash,
};

#[test]
fn test_normalize_empty() {
    assert_eq!(normalize(""), "");
    assert_eq!(normalize("   "), "");
}

#[test]
fn test_normalize_spaces() {
    assert_eq!(normalize("  Hello   World  "), "hello world");
    assert_eq!(normalize("a b c"), "a b c");
}

#[test]
fn test_normalize_lowercase() {
    assert_eq!(normalize("HELLO"), "hello");
}

#[test]
fn test_text_hash_consistent() {
    let h1 = text_hash("  Hello   World  ");
    let h2 = text_hash("hello world");
    assert_eq!(h1, h2, "same normalized text must yield same MD5");
    assert_eq!(h1.len(), 32);
    assert!(h1.chars().all(|c| c.is_ascii_hexdigit()));
}

#[test]
fn test_text_hash_empty() {
    let h = text_hash("");
    assert_eq!(h.len(), 32);
    assert_eq!(h, "d41d8cd98f00b204e9800998ecf8427e");
}

#[test]
fn test_normalize_and_hash_batch() {
    let texts = vec![
        String::from("  Hello   World  "),
        String::from(""),
        String::from("test"),
    ];
    let hashes = normalize_and_hash_batch(texts);
    assert_eq!(hashes.len(), 3);
    assert_eq!(hashes[0], text_hash("hello world"));
    assert_eq!(hashes[1], "d41d8cd98f00b204e9800998ecf8427e");
    assert_eq!(hashes[2], text_hash("test"));
}

#[test]
fn batch_of_nothing_is_empty() {
    assert!(normalize_and_hash_batch(Vec::new()).is_empty());
}

#[test]
fn batch_keeps_order_and_duplicates() {
    let texts = vec![
        String::from("b"),
        String::from("A"),
        String::from(" a "),
        String::from("b"),
    ];
    let hashes = normalize_and_hash_batch(texts.clone());
    assert_eq!(hashes.len(), 4);
    for (h, t) in hashes.iter().zip(texts.iter()) {
        assert_eq!(*h, text_hash(t));
    }
    assert_eq!(hashes[1], hashes[2]);
    assert_eq!(hashes[0], hashes[3]);
    assert_ne!(hashes[0], hashes[1]);
}

#[test]
fn key_of_known_text() {
    assert_eq!(text_hash("hello world"), "5eb63bbbe01eeed093cb22bb8f5acdc3");
    assert_eq!(normalize_and_hash("  HELLO\tworld\n"), "5eb63bbbe01eeed093cb22bb8f5acdc3");
}

#[test]
fn key_is_lowercase_hex() {
    for t in ["", "x", "Ünïcödé  text", "\u{3000}spaced\u{2028}out\u{85}"] {
        let h = text_hash(t);
        assert_eq!(h.len(), 32);
        assert!(h.chars().all(|c| matches!(c, '0'..='9' | 'a'..='f')));
    }
}

#[test]
fn whitespace_only_text_has_empty_key() {
    assert_eq!(text_hash(" \t\r\n\u{a0}\u{2003}"), "d41d8cd98f00b204e9800998ecf8427e");
}

#[test]
fn normalize_is_idempotent_on_examples() {
    for t in ["", "   ", "  Hello   World  ", "A\tB\nC", "ÀÉÎ  õü", "\u{2000}x\u{3000}y\u{205f}"] {
        let once = normalize(t);
        assert_eq!(normalize(&once), once);
    }
}

#[test]
fn unicode_whitespace_and_case() {
    assert_eq!(normalize("\u{3000}Straße\u{a0}\u{2029}ÉTÉ\u{85}"), "straße été");
    assert_eq!(normalize("x\u{200b}y"), "x\u{200b}y");
}

#[test]
fn normalize_text_matches_normalize() {
    assert_eq!(normalize_text("  Mixed\t CASE  "), "mixed case");
}

#[test]
fn collapse_keeps_case() {
    assert_eq!(collapse_whitespace("  A \t\n B  "), "A B");
    assert_eq!(collapse_whitespace(""), "");
    assert_eq!(collapse_whitespace("\t \n"), "");
}

#[test]
fn render_digest_writes_high_nibble_first() {
    let d: [u8; 16] = [
        0xd4, 0x1d, 0x8c, 0xd9, 0x8f, 0x00, 0xb2, 0x04, 0xe9, 0x80, 0x09, 0x98, 0xec, 0xf8, 0x42,
        0x7e,
    ];
    assert_eq!(render_digest(&d), "d41d8cd98f00b204e9800998ecf8427e");
    assert_eq!(render_digest(&[0u8; 16]), "00000000000000000000000000000000");
    assert_eq!(render_digest(&[0xffu8; 16]), "ffffffffffffffffffffffffffffffff");
}

#[test]
fn same_normal_form_same_key() {
    assert_eq!(text_hash("Cache  KEY"), text_hash("cache key"));
    assert_ne!(text_hash("cache key"), text_hash("cachekey"));
}
