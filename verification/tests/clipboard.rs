use pane::clipboard::{
    calculate_hash, calculate_hash_bytes, encode_image_to_base64, set_skip_next,
    truncate_preview, Handler, ImageData, ImageStep, SkipFlag, TextStep, MAX_CONTENT_BYTES,
};
use base64::Engine;
use std::collections::hash_map::DefaultHasher;
use std::hash::{Hash, Hasher};

fn expected_text_hash(s: &str) -> String {
    let mut h = DefaultHasher::new();
    s.hash(&mut h);
    format!("{:x}", h.finish())
}

fn expected_bytes_hash(b: &[u8]) -> String {
    let mut h = DefaultHasher::new();
    b.hash(&mut h);
    format!("{:x}", h.finish())
}

#[test]
fn preview_keeps_short_text_whole() {
    assert_eq!(truncate_preview("hello", 10), "hello");
    assert_eq!(truncate_preview("hello", 5), "hello");
    assert_eq!(truncate_preview("", 0), "");
}

#[test]
fn preview_cuts_long_text_by_characters() {
    assert_eq!(truncate_preview("hello world", 5), "hello...");
    assert_eq!(truncate_preview("ñandú", 2), "ña...");
    assert_eq!(truncate_preview("abc", 0), "...");
}

#[test]
fn text_hash_is_default_hasher_in_hex() {
    assert_eq!(calculate_hash("hello"), expected_text_hash("hello"));
    assert_ne!(calculate_hash("hello"), "hello");
    assert_ne!(calculate_hash("hello"), calculate_hash("hellp"));
}

#[test]
fn image_hash_looks_at_the_first_64_kib_only() {
    let small = vec![1u8, 2, 3];
    assert_eq!(calculate_hash_bytes(&small), expected_bytes_hash(&small));
    let mut big = vec![7u8; 70000];
    let first = calculate_hash_bytes(&big);
    big[69999] = 8;
    assert_eq!(calculate_hash_bytes(&big), first);
    assert_eq!(first, expected_bytes_hash(&big[..65536]));
    big[10] = 9;
    assert_ne!(calculate_hash_bytes(&big), first);
}

#[test]
fn skip_flag_skips_exactly_one_change() {
    let mut flag = SkipFlag::new();
    assert!(Handler::on_clipboard_change(&mut flag));
    set_skip_next(&mut flag);
    assert!(!Handler::on_clipboard_change(&mut flag));
    assert!(!flag.skip);
    assert!(Handler::on_clipboard_change(&mut flag));
}

#[test]
fn repeated_text_is_a_duplicate() {
    let mut h = Handler::new(Ok(None));
    let clip = h.handle_text("https://example.com").expect("first copy is new");
    assert_eq!(clip.content, "https://example.com");
    assert_eq!(clip.content_type, "url");
    assert_eq!(clip.preview, "https://example.com");
    assert_eq!(clip.hash, expected_text_hash("https://example.com"));
    assert!(clip.image_base64.is_none());
    assert_eq!(h.last_hash, clip.hash);
    assert!(h.handle_text("https://example.com").is_none());
    assert!(h.handle_text("other").is_some());
    assert!(h.handle_text("https://example.com").is_some());
}

#[test]
fn start_up_state_uses_the_stored_hash() {
    let stored = expected_text_hash("hello");
    let mut h = Handler::new(Ok(Some(stored.clone())));
    assert_eq!(h.last_hash, stored);
    assert!(h.handle_text("hello").is_none());
    assert_eq!(Handler::new(Err("db".to_string())).last_hash, "");
    assert_eq!(Handler::new(Ok(None)).last_hash, "");
}

#[test]
fn long_text_is_cut_to_fifty_kib_at_a_character_boundary() {
    let mut h = Handler::new(Ok(None));
    let text = "é".repeat(25601); // 51202 bytes
    let clip = h.handle_text(&text).unwrap();
    assert_eq!(clip.content.len(), MAX_CONTENT_BYTES);
    assert_eq!(clip.content.chars().count(), 25600);
    let text = format!("a{}", "é".repeat(25600)); // 51201 bytes
    let clip = h.handle_text(&text).unwrap();
    assert_eq!(clip.content.len(), 51199);
    assert!(text.starts_with(&clip.content));
    assert_eq!(clip.preview.chars().count(), 203);
    let exact = "x".repeat(MAX_CONTENT_BYTES);
    assert_eq!(h.handle_text(&exact).unwrap().content, exact);
}

#[test]
fn text_read_steps() {
    let mut h = Handler::new(Ok(None));
    assert!(matches!(h.after_text_read(None), TextStep::ReadImage));
    assert!(matches!(h.after_text_read(Some("")), TextStep::ReadImage));
    match h.after_text_read(Some("#fff")) {
        TextStep::Saved(c) => assert_eq!(c.content_type, "color"),
        _ => panic!("expected a new clip"),
    }
    assert!(matches!(h.after_text_read(Some("#fff")), TextStep::Duplicate));
}

#[test]
fn image_is_encoded_as_png_in_base64() {
    let img = ImageData { width: 1, height: 1, bytes: vec![255, 0, 0, 255] };
    let b64 = encode_image_to_base64(&img).unwrap();
    // the PNG signature in base64
    assert!(b64.starts_with("iVBORw0KGgo"));
    assert_eq!(b64.len() % 4, 0);
    let png = base64::engine::general_purpose::STANDARD.decode(&b64).unwrap();
    assert_eq!(&png[..8], &[137u8, 80, 78, 71, 13, 10, 26, 10]);
}

#[test]
fn empty_image_cannot_be_encoded() {
    let img = ImageData { width: 0, height: 0, bytes: vec![] };
    let err = encode_image_to_base64(&img).unwrap_err();
    assert!(err.starts_with("PNG encode error: "));
}

#[test]
fn image_clips_describe_their_size_and_repeat_as_duplicates() {
    let mut h = Handler::new(Ok(None));
    let img = ImageData { width: 2, height: 1, bytes: vec![0, 0, 0, 255, 255, 255, 255, 255] };
    match h.handle_image(&img) {
        ImageStep::Saved(c) => {
            assert_eq!(c.content, "Image 2×1");
            assert_eq!(c.preview, "Image (2×1)");
            assert_eq!(c.content_type, "image");
            assert_eq!(c.hash, expected_bytes_hash(&img.bytes));
            assert!(c.image_base64.unwrap().starts_with("iVBORw0KGgo"));
        }
        _ => panic!("expected a new clip"),
    }
    assert!(matches!(h.handle_image(&img), ImageStep::Duplicate));
    // a repeat is recognised before any encoding, whatever size it claims
    let same_pixels = ImageData { width: 7, height: 3, bytes: img.bytes.clone() };
    assert!(matches!(h.handle_image(&same_pixels), ImageStep::Duplicate));
    let empty = ImageData { width: 0, height: 0, bytes: vec![] };
    assert!(matches!(h.handle_image(&empty), ImageStep::EncodeFailed(_)));
    assert!(matches!(h.handle_image(&empty), ImageStep::Duplicate));
}
