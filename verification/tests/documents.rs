use nora_upkeep::digest::sha256_hex;
use nora_upkeep::docker_gc::{collect_blob_refs, collect_manifest_refs};
use nora_upkeep::json::{get, get_text, get_unsigned, Json};
use nora_upkeep::phantoms::{clean_npm_metadata, clean_pypi_metadata, npm_cleanup};
use nora_upkeep::repomd::build_repodata_file;
use nora_upkeep::table::KeySet;
use nora_upkeep::text;
use std::io::Read;

/// An npm document with the members, and one version that is not stored.
fn with_phantom(mut members: Vec<(String, Json)>) -> Json {
    let versions = Json::Object(vec![("gone".to_string(), Json::Null)]);
    members.push(("versions".to_string(), versions));
    Json::Object(members)
}

/// The bytes that the cleanup writes for such a document.
fn written(members: Vec<(String, Json)>) -> Vec<u8> {
    let cleanup = npm_cleanup(with_phantom(members), "p", &KeySet::new(), false).unwrap();
    assert_eq!(cleanup.removed, 1);
    cleanup.rewrite.unwrap()
}

#[test]
fn members_are_found() {
    let doc = Json::Object(vec![
        ("a".to_string(), Json::Text("x".to_string())),
        ("n".to_string(), Json::Unsigned(7)),
        ("neg".to_string(), Json::Negative(-1)),
        ("f".to_string(), Json::OtherNumber(serde_json::Number::from_f64(1.5).unwrap())),
        ("list".to_string(), Json::Array(vec![Json::Null, Json::Bool(true)])),
    ]);
    assert_eq!(get_text(&doc, "a"), Some("x"));
    assert_eq!(get_unsigned(&doc, "n"), Some(7));
    assert_eq!(get_unsigned(&doc, "neg"), None);
    assert_eq!(get_unsigned(&doc, "f"), None);
    assert_eq!(get_unsigned(&doc, "a"), None);
    assert_eq!(get_text(&doc, "n"), None);
    assert!(matches!(get(&doc, "list"), Some(Json::Array(v)) if v.len() == 2));
    assert!(get(&doc, "none").is_none());
    assert!(get(&Json::Null, "a").is_none());
}

#[test]
fn broken_documents_are_left_alone() {
    let none = KeySet::new();
    for source in [&b"{"[..], &b""[..], &b"[]"[..], &br#"{"versions": 7}"#[..]] {
        assert!(clean_npm_metadata("npm/p/metadata.json", source, &none, false).is_none());
    }
}

#[test]
fn documents_are_written() {
    let data = written(vec![
        ("a".to_string(), Json::Text("x\"y".to_string())),
        ("b".to_string(), Json::Array(vec![Json::Null, Json::Bool(true), Json::Unsigned(7)])),
    ]);
    assert_eq!(data, br#"{"a":"x\"y","b":[null,true,7],"versions":{}}"#);
}

#[test]
fn documents_survive_reading_and_writing() {
    let source = br#"{"a":{"b":[1,-2,3.25,"s",null,true,{}]},"c":[],"versions":{"gone":1}}"#;
    let cleanup = clean_npm_metadata("npm/p/metadata.json", source, &KeySet::new(), false).unwrap();
    assert_eq!(
        cleanup.rewrite.unwrap(),
        br#"{"a":{"b":[1,-2,3.25,"s",null,true,{}]},"c":[],"versions":{}}"#
    );
}

#[test]
fn written_documents_read_back() {
    let text = "quote \" slash \\ line \n bell \u{7} snow \u{2603} face \u{1f600}";
    let data = written(vec![
        ("".to_string(), Json::Null),
        ("a\"b".to_string(), Json::Unsigned(u64::MAX)),
        ("n".to_string(), Json::Negative(i64::MIN)),
        ("t".to_string(), Json::Array(vec![Json::Text(text.to_string()), Json::Bool(false)])),
    ]);
    let back: serde_json::Value = serde_json::from_slice(&data).unwrap();
    let names: Vec<&String> = back.as_object().unwrap().keys().collect();
    assert_eq!(names, vec!["", "a\"b", "n", "t", "versions"]);
    assert!(back[""].is_null());
    assert_eq!(back["a\"b"].as_u64(), Some(u64::MAX));
    assert_eq!(back["n"].as_i64(), Some(i64::MIN));
    assert_eq!(back["t"][0].as_str(), Some(text));
    assert_eq!(back["t"][1].as_bool(), Some(false));
    assert_eq!(back["t"].as_array().unwrap().len(), 2);
}

#[test]
fn deep_documents_read_back_up_to_a_limit() {
    let nested = |depth: usize| {
        let mut doc = Json::Unsigned(1);
        for _ in 0..depth {
            doc = Json::Array(vec![doc]);
        }
        written(vec![("d".to_string(), doc)])
    };
    let again = |data: &[u8]| clean_npm_metadata("npm/p/metadata.json", data, &KeySet::new(), false);
    // The object around it counts too.
    assert_eq!(again(&nested(126)).unwrap().removed, 0);
    assert!(again(&nested(127)).is_none());
}

#[test]
fn cleaned_metadata_is_clean() {
    let mut stored = KeySet::new();
    stored.insert("npm/left/tarballs/left-1.0.0.tgz".to_string());
    let source = br#"{"name":"left","time":{"1.0.0":"x","2.0.0":"y"},"versions":{"1.0.0":{"a":[1]},"2.0.0":{}}}"#;
    let cleanup = clean_npm_metadata("npm/left/metadata.json", source, &stored, false).unwrap();
    assert_eq!(cleanup.removed, 1);
    let data = cleanup.rewrite.unwrap();
    assert_eq!(data, br#"{"name":"left","time":{"1.0.0":"x"},"versions":{"1.0.0":{"a":[1]}}}"#);
    let again = clean_npm_metadata("npm/left/metadata.json", &data, &stored, false).unwrap();
    assert_eq!(again.removed, 0);
    assert!(again.rewrite.is_none() && again.delete.is_empty());

    let mut files = KeySet::new();
    files.insert("pypi/one/one-1.whl".to_string());
    let source = br#"{"releases":{"1":[{"filename":"one-1.whl"}],"2":[{"filename":"one-2.whl"}]}}"#;
    let cleanup = clean_pypi_metadata("pypi/one/metadata.json", source, &files, false).unwrap();
    assert_eq!(cleanup.removed, 1);
    let data = cleanup.rewrite.unwrap();
    assert_eq!(data, br#"{"releases":{"1":[{"filename":"one-1.whl"}]}}"#);
    let again = clean_pypi_metadata("pypi/one/metadata.json", &data, &files, false).unwrap();
    assert_eq!(again.removed, 0);
    assert!(again.rewrite.is_none());
}

#[test]
fn digests_in_hexadecimal() {
    assert_eq!(
        sha256_hex(b"abc"),
        "ba7816bf8f01cfea414140de5dae2223b00361a396177a9cb410ff61f20015ad"
    );
    assert_eq!(
        sha256_hex(b""),
        "e3b0c44298fc1c149afbf4c8996fb92427ae41e4649b934ca495991b7852b855"
    );
}

#[test]
fn compressed_data_unpacks() {
    let data = "x".repeat(10_000);
    let file = build_repodata_file("primary", &data).unwrap();
    assert!(file.gz.len() < 1000);
    let mut back = String::new();
    flate2::read::GzDecoder::new(file.gz.as_slice()).read_to_string(&mut back).unwrap();
    assert_eq!(back, data);
    assert_eq!(build_repodata_file("primary", &data).unwrap().gz, file.gz);
}

fn digest_object(digest: &str) -> Json {
    Json::Object(vec![("digest".to_string(), Json::Text(digest.to_string()))])
}

#[test]
fn references_of_a_manifest() {
    let size = Json::Object(vec![("size".to_string(), Json::Unsigned(1))]);
    let doc = Json::Object(vec![
        ("config".to_string(), digest_object("sha256:c")),
        (
            "layers".to_string(),
            Json::Array(vec![digest_object("sha256:l"), size, Json::Unsigned(7)]),
        ),
        ("manifests".to_string(), Json::Array(vec![digest_object("sha256:m")])),
    ]);
    let mut blobs = KeySet::new();
    let mut lists = KeySet::new();
    collect_manifest_refs(&doc, &mut blobs, &mut lists);
    assert!(blobs.contains("sha256:c") && blobs.contains("sha256:l"));
    assert!(!blobs.contains("sha256:m"));
    assert!(lists.contains("sha256:m") && !lists.contains("sha256:c"));

    let mut only = KeySet::new();
    collect_blob_refs(&doc, &mut only);
    assert!(only.contains("sha256:l") && !only.contains("sha256:m"));
}

#[test]
fn text_operations() {
    assert!(text::ends_with_ci("a.JSON", ".json"));
    assert!(!text::ends_with_ci("json", ".json"));
    assert_eq!(text::strip_prefix("npm/a", "npm/"), Some("a"));
    assert_eq!(text::strip_suffix("a.json", ".json"), Some("a"));
    assert_eq!(text::split_once("é:b:c", ":"), Some(("é", "b:c")));
    assert_eq!(text::split("a//b", '/'), vec!["a", "", "b"]);
    assert_eq!(text::split("", '/'), vec![""]);
    assert_eq!(text::last_piece("a/b/c", '/'), "c");
    assert_eq!(text::last_piece("abc", '/'), "abc");
    assert_eq!(text::trim_end("a//", '/'), "a");
    assert_eq!(text::decimal_text(0), "0");
    assert_eq!(text::decimal_text(u64::MAX), "18446744073709551615");
    assert_eq!(text::join(&["a".to_string(), "b".to_string()], ", "), "a, b");
    assert!(text::text_at_most("a", "b") && !text::text_at_most("b", "a"));
    assert!(text::text_at_most("Z", "a") && text::text_at_most("", ""));
    assert!(text::contains("aab", "ab") && !text::contains("aab", "ba"));
    assert_eq!(text::find("aab", "ab"), Some(1));
}
