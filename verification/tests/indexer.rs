use model_audit::manifest::{parse_manifest_path, normalize_digest, ManifestSource, ModelIndex};

fn comps(parts: &[&str]) -> Vec<Vec<u8>> {
    parts.iter().map(|p| p.as_bytes().to_vec()).collect()
}

#[test]
fn normalize_strips_prefix() {
    let d = normalize_digest(b"sha256:abc123");
    assert_eq!(d, b"abc123".to_vec());
}

#[test]
fn normalize_unprefixed_is_noop() {
    let d = normalize_digest(b"abc123");
    assert_eq!(d, b"abc123".to_vec());
}

#[test]
fn name_derivation_library_namespace() {
    let c = comps(&["models", "manifests", "registry.ollama.ai", "library", "llama3", "8b"]);
    let name = parse_manifest_path(&c).unwrap();
    assert_eq!(String::from_utf8(name).unwrap(), "llama3:8b");
}

#[test]
fn name_derivation_custom_namespace() {
    let c = comps(&["manifests", "registry.ollama.ai", "alice", "custom", "v1"]);
    let name = parse_manifest_path(&c).unwrap();
    assert_eq!(String::from_utf8(name).unwrap(), "alice/custom:v1");
}

#[test]
fn name_derivation_short_path_skipped() {
    let c = comps(&["llama3", "8b"]);
    assert!(parse_manifest_path(&c).is_none());
}

#[test]
fn merge_join_appends_names_and_overwrites_size() {
    let mut idx = ModelIndex::new();
    idx.insert(b"abc123".to_vec(), b"llama3:8b".to_vec(), 100);
    idx.insert(b"abc123".to_vec(), b"llama3:latest".to_vec(), 200);
    let (name, size) = idx.lookup(b"abc123").unwrap();
    assert_eq!(String::from_utf8(name).unwrap(), "llama3:8b, llama3:latest");
    assert_eq!(size, 200);
}

#[test]
fn distinct_hashes_get_distinct_entries() {
    let mut idx = ModelIndex::new();
    idx.insert(b"aaa".to_vec(), b"one:1".to_vec(), 1);
    idx.insert(b"bbb".to_vec(), b"two:2".to_vec(), 2);
    assert_eq!(idx.lookup(b"aaa").unwrap().1, 1);
    assert_eq!(idx.lookup(b"bbb").unwrap().1, 2);
    assert!(idx.lookup(b"ccc").is_none());
}

#[test]
fn build_index_from_manifest_json() {
    let content = br#"{
        "schemaVersion": 2,
        "layers": [
            {"mediaType": "application/vnd.ollama.image.template", "digest": "sha256:ffff", "size": 10},
            {"mediaType": "application/vnd.ollama.image.model", "digest": "sha256:abc123", "size": 4096},
            {"mediaType": "application/vnd.ollama.image.model", "digest": "sha256:zzzz", "size": 1}
        ]
    }"#;
    let m = ManifestSource {
        components: comps(&["manifests", "registry.ollama.ai", "library", "llama3", "8b"]),
        content: content.to_vec(),
    };
    let idx = ModelIndex::build(&vec![m]);
    let (name, size) = idx.lookup(b"abc123").unwrap();
    assert_eq!(String::from_utf8(name).unwrap(), "llama3:8b");
    assert_eq!(size, 4096);
    assert!(idx.lookup(b"zzzz").is_none());
}

#[test]
fn malformed_manifest_is_skipped() {
    let m = ManifestSource {
        components: comps(&["manifests", "registry.ollama.ai", "library", "bad", "tag"]),
        content: b"not json at all".to_vec(),
    };
    let idx = ModelIndex::build(&vec![m]);
    assert!(idx.entries.is_empty());
}

#[test]
fn manifest_without_model_layer_is_skipped() {
    let content = br#"{"layers": [{"mediaType": "application/vnd.ollama.image.license", "digest": "sha256:abc", "size": 5}]}"#;
    let m = ManifestSource {
        components: comps(&["manifests", "registry.ollama.ai", "library", "x", "y"]),
        content: content.to_vec(),
    };
    let idx = ModelIndex::build(&vec![m]);
    assert!(idx.entries.is_empty());
}

#[test]
fn manifest_with_short_path_is_skipped() {
    let content = br#"{"layers": [{"mediaType": "application/vnd.ollama.image.model", "digest": "sha256:abc", "size": 5}]}"#;
    let m = ManifestSource { components: comps(&["x", "y"]), content: content.to_vec() };
    let idx = ModelIndex::build(&vec![m]);
    assert!(idx.entries.is_empty());
}
