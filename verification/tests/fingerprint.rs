use uni_server::etag::{etag_hash, etag_matches};
use xxhash_rust::xxh3::xxh3_64;

#[test]
fn equal_bytes_equal_tags() {
    let a = etag_hash(b"some content");
    let b = etag_hash(b"some content");
    assert_eq!(a, b);
}

#[test]
fn tag_is_the_quoted_content_hash() {
    let content = b"abc";
    let expected = format!("\"{}\"", xxh3_64(content));
    assert_eq!(etag_hash(content), expected);
    assert_eq!(etag_hash(b""), format!("\"{}\"", xxh3_64(b"")));
}

#[test]
fn changing_one_byte_changes_the_tag() {
    let a = etag_hash(b"index.css bytes A");
    let b = etag_hash(b"index.css bytes B");
    assert_ne!(a, b);
}

#[test]
fn presented_tag_for_unchanged_bytes_is_not_modified() {
    let content = b"stylesheet body";
    let tag = etag_hash(content);
    assert!(etag_matches(content, tag.as_str()));
}

#[test]
fn stale_or_foreign_tags_do_not_match() {
    let content = b"fresh bytes";
    let old_tag = etag_hash(b"previous bytes");
    assert!(!etag_matches(content, old_tag.as_str()));
    assert!(!etag_matches(content, "\"0\""));
    assert!(!etag_matches(content, "not-a-tag"));
}
