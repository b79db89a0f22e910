use std::io::Write;
use ed25519_dalek::{Signer, SigningKey};
use saya_core::plugins::marketplace::{
    find_zip_root, parse_repo_url, read_zipball, readme_url, strip_signature_fields, verify_registry_signature,
    zipball_root, zipball_url,
    PluginEntry, PluginEntryManifest, Registry,
};

fn registry(signature: Option<&str>, public_key: Option<&str>) -> Registry {
    Registry {
        registry_version: "1".into(),
        updated_at: "2024-01-01".into(),
        signature: signature.map(|s| s.to_string()),
        public_key: public_key.map(|s| s.to_string()),
        plugins: vec![],
    }
}

#[test]
fn test_parse_repo_url() {
    assert_eq!(
        parse_repo_url("https://github.com/saya-org/plugin-email").unwrap(),
        ("saya-org".to_string(), "plugin-email".to_string())
    );
    assert_eq!(
        parse_repo_url("https://github.com/user/repo/").unwrap(),
        ("user".to_string(), "repo".to_string())
    );
}

#[test]
fn test_parse_repo_url_invalid() {
    assert!(parse_repo_url("https://gitlab.com/user/repo").is_err());
    assert!(parse_repo_url("not-a-url").is_err());
}

#[test]
fn parse_repo_url_edge_cases() {
    assert_eq!(
        parse_repo_url("https://github.com/a/b/tree/main").unwrap(),
        ("a".to_string(), "b".to_string())
    );
    assert_eq!(parse_repo_url("https://github.com/a///").unwrap_err(), "Invalid GitHub repo URL");
    assert_eq!(parse_repo_url("https://github.com/").unwrap_err(), "Invalid GitHub repo URL");
    assert_eq!(
        parse_repo_url("https://github.com//repo").unwrap(),
        ("".to_string(), "repo".to_string())
    );
}

#[test]
fn repo_urls() {
    assert_eq!(zipball_url("o", "r"), "https://github.com/o/r/zipball");
    assert_eq!(readme_url("o", "r"), "https://api.github.com/repos/o/r/readme");
}

#[test]
fn zip_root_is_the_repository_directory() {
    let names: Vec<String> = vec![
        "README.md".into(),
        "other-1/".into(),
        "plugin-email-abc123/".into(),
        "plugin-email-abc123/README.md".into(),
    ];
    assert_eq!(find_zip_root(&names, "plugin-email"), Some("plugin-email-abc123".to_string()));
    assert_eq!(find_zip_root(&names, "tasks"), None);
    let nested: Vec<String> = vec!["repo-x/sub/".into()];
    assert_eq!(find_zip_root(&nested, "repo"), Some("repo-x".to_string()));
}

#[test]
fn registry_missing_fields() {
    let r = verify_registry_signature(registry(None, Some("00")), "{}");
    assert_eq!(r.unwrap_err(), "Registry missing signature field");
    let r = verify_registry_signature(registry(Some("00"), None), "{}");
    assert_eq!(r.unwrap_err(), "Registry missing public_key field");
}

#[test]
fn registry_bad_hex() {
    let r = verify_registry_signature(registry(Some("abc"), Some("00")), "{}");
    assert_eq!(r.unwrap_err(), "Invalid signature hex: Odd number of digits");
    let r = verify_registry_signature(registry(Some("00"), Some("zz")), "{}");
    assert_eq!(r.unwrap_err(), "Invalid public_key hex: Invalid character 'z' at position 0");
}

#[test]
fn registry_short_public_key_is_rejected() {
    let r = verify_registry_signature(registry(Some("00"), Some("0011")), "{}").unwrap();
    assert!(!r.valid);
    assert!(r.plugins.is_empty());
    assert_eq!(r.error.as_deref(), Some("Public key must be 32 bytes"));
}

#[test]
fn registry_short_signature_fails() {
    // A valid curve point: the Ed25519 base point.
    let key = "5866666666666666666666666666666666666666666666666666666666666666";
    let r = verify_registry_signature(registry(Some("0011"), Some(key)), "{}");
    assert_eq!(r.unwrap_err(), "Invalid signature: signature error");
}

#[test]
fn registry_wrong_signature_is_rejected() {
    let key = "5866666666666666666666666666666666666666666666666666666666666666";
    let sig = "00".repeat(64);
    let r = verify_registry_signature(registry(Some(&sig), Some(key)), "{}").unwrap();
    assert!(!r.valid);
    assert_eq!(r.error.as_deref(), Some("Signature verification failed"));
}

#[test]
fn registry_invalid_point_fails() {
    // y = 2 is not the y-coordinate of a point on the curve.
    let key = format!("02{}", "00".repeat(31));
    let r = verify_registry_signature(registry(Some(&"00".repeat(64)), Some(&key)), "{}");
    assert_eq!(r.unwrap_err(), "Invalid public key: signature error: Cannot decompress Edwards point");
}

fn entry() -> PluginEntry {
    PluginEntry {
        name: "email".into(),
        display_name: "Email".into(),
        icon: "e".into(),
        version: "1.0.0".into(),
        description: "Mail".into(),
        repo_url: "https://github.com/saya-org/plugin-email".into(),
        verified: true,
        manifest: PluginEntryManifest { columns: vec![] },
    }
}

/// A registry document signed with a fixed key, and the registry it holds.
fn signed_document(tamper: bool) -> (String, Registry) {
    let signing = SigningKey::from_bytes(&[7u8; 32]);
    let key_hex = hex::encode(signing.verifying_key().to_bytes());
    let body = r#"{"registry_version":"1","updated_at":"2024-01-01","plugins":[{"name":"email"}]}"#;
    let signature = signing.sign(strip_signature_fields(body).as_bytes());
    let sig_hex = hex::encode(signature.to_bytes());
    let updated = if tamper { "2024-01-02" } else { "2024-01-01" };
    let doc = format!(
        r#"{{"public_key":"{}","registry_version":"1","signature":"{}","updated_at":"{}","plugins":[{{"name":"email"}}]}}"#,
        key_hex, sig_hex, updated
    );
    let mut reg = registry(Some(&sig_hex), Some(&key_hex));
    reg.plugins.push(entry());
    (doc, reg)
}

#[test]
fn registry_valid_signature_keeps_plugins() {
    let (doc, reg) = signed_document(false);
    let r = verify_registry_signature(reg, &doc).unwrap();
    assert!(r.valid);
    assert_eq!(r.plugins.len(), 1);
    assert_eq!(r.plugins[0].name, "email");
    assert!(r.error.is_none());
}

#[test]
fn registry_changed_document_is_rejected() {
    let (doc, reg) = signed_document(true);
    let r = verify_registry_signature(reg, &doc).unwrap();
    assert!(!r.valid);
    assert!(r.plugins.is_empty());
    assert_eq!(r.error.as_deref(), Some("Signature verification failed"));
}

#[test]
fn test_strip_signature_fields() {
    let json = r#"{
            "registry_version": "1",
            "signature": "abc123",
            "public_key": "def456",
            "plugins": []
        }"#;
    let result = strip_signature_fields(json);
    let value: serde_json::Value = serde_json::from_str(&result).unwrap();
    assert!(!value.as_object().unwrap().contains_key("signature"));
    assert!(!value.as_object().unwrap().contains_key("public_key"));
    assert!(value.as_object().unwrap().contains_key("registry_version"));
}

#[test]
fn stripped_text_is_compact_with_sorted_keys() {
    assert_eq!(
        strip_signature_fields(r#"{ "b": [1, 2], "signature": "x", "a": {"k": true}, "public_key": null }"#),
        r#"{"a":{"k":true},"b":[1,2]}"#
    );
    assert_eq!(strip_signature_fields("not json"), "{}");
    assert_eq!(strip_signature_fields("[1, 2]"), "{}");
}

fn zip_of(dirs: &[&str], files: &[&str]) -> Vec<u8> {
    let options = zip::write::SimpleFileOptions::default().compression_method(zip::CompressionMethod::Stored);
    let mut w = zip::ZipWriter::new(std::io::Cursor::new(Vec::new()));
    for d in dirs {
        w.add_directory(*d, options).unwrap();
    }
    for f in files {
        w.start_file(*f, options).unwrap();
        w.write_all(b"hello").unwrap();
    }
    w.finish().unwrap().into_inner()
}

#[test]
fn zipball_root_is_read_from_the_archive() {
    let bytes = zip_of(&["other-1/", "plugin-email-abc123/"], &["plugin-email-abc123/README.md"]);
    let mut archive = read_zipball(bytes.clone()).unwrap();
    assert_eq!(zipball_root(&mut archive, "plugin-email").unwrap(), "plugin-email-abc123");
    let mut archive = read_zipball(bytes).unwrap();
    assert_eq!(zipball_root(&mut archive, "tasks").unwrap_err(), "Could not find plugin root in zipball");
}

#[test]
fn zipball_that_is_not_a_zip_is_refused() {
    let err = read_zipball(b"not a zip".to_vec()).err().unwrap();
    assert!(err.starts_with("Failed to read zip archive: "), "{}", err);
}
