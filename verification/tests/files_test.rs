use playpen::files::{cache_key, content_hash, files_upload_url, resolve_uri, upload_failure_message, ImageCache};
use playpen::event::Event;
use playpen::json::JsonValue;

#[test]
fn test_content_hash_deterministic() {
    assert_eq!(content_hash(&b"abc".to_vec()), content_hash(&b"abc".to_vec()));
    assert_ne!(content_hash(&b"abc".to_vec()), content_hash(&b"abd".to_vec()));
}

#[test]
fn content_hash_is_sha256_hex() {
    assert_eq!(
        content_hash(&b"abc".to_vec()),
        "ba7816bf8f01cfea414140de5dae2223b00361a396177a9cb410ff61f20015ad"
    );
    assert_eq!(cache_key("ab"), "ds-file:ab");
}

#[test]
fn test_resolve_uri_variants() {
    let wd = "/work";
    assert_eq!(resolve_uri("file:///abs/x.png", wd), "/abs/x.png");
    assert_eq!(resolve_uri("/abs/x.png", wd), "/abs/x.png");
    assert_eq!(resolve_uri("x.png", wd), "/work/x.png");
}

#[test]
fn upload_url_and_failure() {
    assert_eq!(files_upload_url("https://api.deepseek.com/"), "https://api.deepseek.com/files");
    assert_eq!(
        upload_failure_message("400 Bad Request", "nope"),
        "DeepSeek files upload failed: HTTP 400 Bad Request: nope"
    );
}

#[test]
fn image_cache_reuses_ids() {
    let mut cache = ImageCache::new();
    assert!(cache.lookup("h").is_none());
    let ev = cache.record_upload("h", &"file-1".to_string());
    assert_eq!(cache.lookup("h").as_deref(), Some("file-1"));
    match ev {
        Event::StateUpdate { id, name, data } => {
            assert_eq!(id, "");
            assert_eq!(name, "ds-file:h");
            assert!(matches!(data, JsonValue::Str(s) if s == "file-1"));
        }
        _ => panic!("期望 StateUpdate"),
    }
    let saved = JsonValue::Str("file-2".into());
    assert_eq!(cache.adopt_saved("g", Some(&saved)).as_deref(), Some("file-2"));
    assert_eq!(cache.lookup("g").as_deref(), Some("file-2"));
    assert!(cache.adopt_saved("k", Some(&JsonValue::Null)).is_none());
    assert!(cache.lookup("k").is_none());
}
