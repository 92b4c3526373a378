use sangha::media::{ext_from_mime, is_valid_media, mime_for_ext, name_extension};
use sangha::store::{content_hash, media_filename, prefix_content_id, BlobStore, HASH_PREFIX_LEN};
use sangha::ServerErr;

#[test]
fn content_hash_matches_blake3() {
    let bytes: Vec<u8> = b"hello media".to_vec();
    let h = content_hash(&bytes);
    assert_eq!(h.to_bytes(), *blake3::hash(b"hello media").as_bytes());
}

#[test]
fn media_filename_is_hex_digest_plus_ext() {
    let bytes: Vec<u8> = vec![];
    // the BLAKE3 digest of the empty input, a published test vector
    let expected = "af1349b9f5f9a1a6a0404dea36dcc9499bcb25c9adc112b7cc9a93cae41f3262.png";
    assert_eq!(media_filename(&bytes, "png"), expected);

    let data: Vec<u8> = b"abc".to_vec();
    let expected2 = format!("{}.jpeg", hex::encode(blake3::hash(b"abc").as_bytes()));
    assert_eq!(media_filename(&data, "jpeg"), expected2);
}

#[test]
fn ingest_is_idempotent() {
    let mut store = BlobStore::new();
    let name1 = store.ingest(b"same bytes".to_vec(), "png");
    assert_eq!(store.len(), 1);
    let name2 = store.ingest(b"same bytes".to_vec(), "png");
    assert_eq!(name1, name2);
    assert_eq!(store.len(), 1);
    // different extension stores a second blob under a different name
    let name3 = store.ingest(b"same bytes".to_vec(), "jpg");
    assert_ne!(name1, name3);
    assert_eq!(store.len(), 2);
}

#[test]
fn fetch_returns_bytes_and_mime() {
    let mut store = BlobStore::new();
    let name = store.ingest(b"pixels".to_vec(), "png");
    let id = name.strip_suffix(".png").unwrap();
    let (bytes, mime) = store.fetch(id, "png").unwrap();
    assert_eq!(bytes, b"pixels".to_vec());
    assert_eq!(mime, "image/png");
}

#[test]
fn fetch_missing_is_not_found() {
    let store = BlobStore::new();
    let r = store.fetch("deadbeef", "png");
    assert_eq!(r.unwrap_err(), ServerErr::NotFound);
}

#[test]
fn fetch_unknown_extension_rejected() {
    let mut store = BlobStore::new();
    let name = store.ingest(b"data".to_vec(), "exe");
    let id = name.strip_suffix(".exe").unwrap();
    let r = store.fetch(id, "exe");
    assert_eq!(r.unwrap_err(), ServerErr::InvalidMediaType);
}

#[test]
fn prefix_content_id_hashes_padded_prefix() {
    // short input: zero-padded to the fixed prefix length before hashing
    let bytes: Vec<u8> = b"short".to_vec();
    let mut padded = vec![0u8; HASH_PREFIX_LEN];
    padded[..bytes.len()].copy_from_slice(&bytes);
    let expected = hex::encode(blake3::hash(&padded).as_bytes());
    assert_eq!(prefix_content_id(&bytes), expected);

    // long input: only the first prefix worth of bytes matters
    let mut long = vec![7u8; HASH_PREFIX_LEN + 1000];
    long[HASH_PREFIX_LEN] = 99;
    let expected_long = hex::encode(blake3::hash(&long[..HASH_PREFIX_LEN]).as_bytes());
    assert_eq!(prefix_content_id(&long), expected_long);
}

#[test]
fn mime_table() {
    assert_eq!(mime_for_ext("png").unwrap(), "image/png");
    assert_eq!(mime_for_ext("jpg").unwrap(), "image/jpeg");
    assert_eq!(mime_for_ext("jpeg").unwrap(), "image/jpeg");
    assert_eq!(mime_for_ext("mp4").unwrap(), "video/mp4");
    assert_eq!(mime_for_ext("mpeg").unwrap(), "video/mpeg");
    assert_eq!(mime_for_ext("gif").unwrap_err(), ServerErr::InvalidMediaType);
}

#[test]
fn media_type_validation() {
    assert!(is_valid_media("image/png").is_ok());
    assert!(is_valid_media("video/mp4").is_ok());
    assert_eq!(is_valid_media("text/html").unwrap_err(), ServerErr::InvalidMediaType);
    assert_eq!(is_valid_media("imag").unwrap_err(), ServerErr::InvalidMediaType);
}

#[test]
fn subtype_extraction() {
    assert_eq!(ext_from_mime("image/jpeg").unwrap(), "jpeg");
    assert_eq!(ext_from_mime("image/png; charset=binary").unwrap(), "png");
    assert_eq!(ext_from_mime("nosubtype").unwrap_err(), ServerErr::InvalidMediaType);
}

#[test]
fn name_extension_after_last_dot() {
    assert_eq!(name_extension("abc.def.png"), "png");
    assert_eq!(name_extension("noext"), "");
    assert_eq!(name_extension("trailingdot."), "");
}
