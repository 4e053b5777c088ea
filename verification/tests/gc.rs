use std::collections::BTreeMap;

use nora_upkeep::docker_gc::{detect_docker_orphans, is_digest_ref, DetectionResult};
use nora_upkeep::gc::{
    gc_result, judge_orphan, order_for_sweep, plan_gc, report_uncovered, tally_sweep,
    uncovered_registries, GcResult, GcSnapshot, Sighting, Verdict,
};
use nora_upkeep::phantoms::{
    clean_npm_metadata, clean_pypi_metadata, npm_targets, pypi_targets, tally_phantoms,
    MetadataCleanup,
};
use nora_upkeep::proxy_cache::{
    evict_proxy_cache, is_index_file, tally_eviction, CachedFile, ProxyCacheEviction,
};
use nora_upkeep::registry_gc::{
    detect_cargo_orphans, is_checksum_sidecar, is_meta_sidecar, is_orphanable_sidecar, primary_key_for_checksum,
    primary_key_for_sidecar, primary_keys,
};
use nora_upkeep::table::{FileMeta, FileTable, StatTable};

const NOW: u64 = 1_776_000_000;

/// Storage in memory: content and modification time by key.
struct Store {
    files: BTreeMap<String, (Vec<u8>, u64)>,
    can_stat: bool,
}

impl Store {
    fn new() -> Store {
        Store { files: BTreeMap::new(), can_stat: true }
    }

    fn put(&mut self, key: &str, data: &[u8]) {
        self.put_at(key, data, NOW);
    }

    fn put_at(&mut self, key: &str, data: &[u8], modified: u64) {
        self.files.insert(key.to_string(), (data.to_vec(), modified));
    }

    fn get(&self, key: &str) -> Option<&[u8]> {
        self.files.get(key).map(|f| f.0.as_slice())
    }

    fn list(&self, prefix: &str) -> Vec<String> {
        self.files.keys().filter(|k| k.starts_with(prefix)).cloned().collect()
    }

    fn stat(&self, key: &str) -> Option<FileMeta> {
        if !self.can_stat {
            return None;
        }
        self.files
            .get(key)
            .map(|(data, modified)| FileMeta { size: data.len() as u64, modified: *modified })
    }

    fn list_with_meta(&self, prefix: &str) -> Vec<(String, FileMeta)> {
        self.list(prefix)
            .into_iter()
            .filter_map(|k| self.stat(&k).map(|m| (k, m)))
            .collect()
    }

    fn contents(&self, prefix: &str) -> FileTable {
        let mut files = FileTable::new();
        for key in self.list(prefix) {
            let data = self.files[&key].0.clone();
            files.insert(key, data);
        }
        files
    }

    fn apply(&mut self, meta_key: &str, cleanup: MetadataCleanup) -> (usize, bool) {
        for key in &cleanup.delete {
            self.files.remove(key);
        }
        let rewritten = cleanup.rewrite.is_some();
        if let Some(data) = cleanup.rewrite {
            self.put(meta_key, &data);
        }
        (cleanup.removed, rewritten)
    }

    fn evict(&mut self, max_bytes: u64, dry_run: bool) -> ProxyCacheEviction {
        let rpm = self.list_with_meta("rpm/");
        let deb = self.list_with_meta("deb/");
        let (total_bytes, files) = evict_proxy_cache(&rpm, &deb, max_bytes).unwrap();
        let mut seen = Vec::new();
        for file in files {
            let deleted = !dry_run && self.files.remove(&file.key).is_some();
            seen.push((file, deleted));
        }
        tally_eviction(total_bytes, &seen, dry_run).unwrap()
    }
}

fn detect(store: &Store) -> DetectionResult {
    detect_docker_orphans(&store.list("docker/"), &store.contents("docker/"))
}

fn run_gc(
    store: &mut Store,
    dry_run: bool,
    grace_secs: u64,
    npm_is_proxy: bool,
    proxy_cache_max_bytes: u64,
) -> GcResult {
    let mut checksum_keys = store.list("maven/");
    checksum_keys.extend(store.list("npm/"));
    checksum_keys.extend(store.list("pypi/"));
    let mut primaries = StatTable::new();
    for key in primary_keys(&checksum_keys) {
        if let Some(meta) = store.stat(&key) {
            primaries.insert(key, meta);
        }
    }
    let plan = plan_gc(&GcSnapshot {
        docker_keys: store.list("docker/"),
        docker_files: store.contents("docker/"),
        checksum_keys,
        primaries,
        go_keys: store.list("go/"),
        cargo_keys: store.list("cargo/"),
    })
    .unwrap();

    let mut seen = Vec::new();
    for key in &plan.orphans {
        let meta = store.stat(key);
        let deleted = judge_orphan(meta, NOW, grace_secs, dry_run) == Verdict::Delete
            && store.files.remove(key).is_some();
        seen.push(Sighting { meta, deleted });
    }
    let tally = tally_sweep(&seen, NOW, grace_secs, dry_run).unwrap();

    let mut cleaned = Vec::new();
    let (meta_keys, tarballs) = npm_targets(&store.list("npm/"), npm_is_proxy);
    for key in &meta_keys {
        let data = store.get(key).unwrap().to_vec();
        if let Some(cleanup) = clean_npm_metadata(key, &data, &tarballs, dry_run) {
            cleaned.push(store.apply(key, cleanup));
        }
    }
    let (meta_keys, stored) = pypi_targets(&store.list("pypi/"));
    for key in &meta_keys {
        let data = store.get(key).unwrap().to_vec();
        if let Some(cleanup) = clean_pypi_metadata(key, &data, &stored, dry_run) {
            cleaned.push(store.apply(key, cleanup));
        }
    }

    let phantoms = tally_phantoms(&cleaned, dry_run).unwrap();
    let eviction = store.evict(proxy_cache_max_bytes, dry_run);

    let counts: Vec<(String, usize)> = uncovered_registries()
        .into_iter()
        .map(|name| {
            let count = store.list(&format!("{name}/")).len();
            (name, count)
        })
        .collect();
    gc_result(plan, tally, phantoms, eviction, report_uncovered(&counts))
}

#[test]
fn test_gc_result_defaults() {
    let result = GcResult {
        total_candidates: 0,
        orphaned: 0,
        deleted: 0,
        bytes_freed: 0,
        orphan_keys: vec![],
        uncovered: vec![],
        metadata_phantoms_removed: 0,
        skipped_recent: 0,
        stat_failures: 0,
        proxy_cache_eviction: ProxyCacheEviction::default(),
    };
    assert_eq!(result.total_candidates, 0);
    assert!(result.orphan_keys.is_empty());
}

#[test]
fn test_is_checksum_sidecar() {
    assert!(is_checksum_sidecar("foo.md5"));
    assert!(is_checksum_sidecar("foo.sha1"));
    assert!(is_checksum_sidecar("foo.sha256"));
    assert!(is_checksum_sidecar("foo.sha512"));
    assert!(!is_checksum_sidecar("foo.jar"));
    assert!(!is_checksum_sidecar("foo.pom"));
    assert!(!is_checksum_sidecar("foo.tgz"));
}

#[test]
fn test_primary_key_for_checksum() {
    assert_eq!(primary_key_for_checksum("a.jar.sha256"), Some("a.jar"));
    assert_eq!(primary_key_for_checksum("a.pom.md5"), Some("a.pom"));
    assert_eq!(primary_key_for_checksum("a.tgz.sha1"), Some("a.tgz"));
    assert_eq!(primary_key_for_checksum("a.jar"), None);
}

#[test]
fn test_gc_empty_storage() {
    let mut store = Store::new();
    let result = run_gc(&mut store, true, 0, false, 0);
    assert_eq!(result.total_candidates, 0);
    assert_eq!(result.orphaned, 0);
    assert_eq!(result.deleted, 0);
}

#[test]
fn test_gc_docker_no_orphans() {
    let mut store = Store::new();
    let manifest = r#"{
        "config": {"digest": "sha256:configabc"},
        "layers": [{"digest": "sha256:layer111", "size": 100}]
    }"#;
    store.put("docker/test/manifests/latest.json", manifest.as_bytes());
    store.put("docker/test/blobs/sha256:configabc", b"config-data");
    store.put("docker/test/blobs/sha256:layer111", b"layer-data");

    let result = run_gc(&mut store, true, 0, false, 0);
    assert_eq!(result.orphaned, 0);
}

#[test]
fn test_gc_docker_finds_orphans_dry_run() {
    let mut store = Store::new();
    let manifest = r#"{
        "config": {"digest": "sha256:configabc"},
        "layers": [{"digest": "sha256:layer111", "size": 100}]
    }"#;
    store.put("docker/test/manifests/latest.json", manifest.as_bytes());
    store.put("docker/test/blobs/sha256:configabc", b"config-data");
    store.put("docker/test/blobs/sha256:layer111", b"layer-data");
    store.put("docker/test/blobs/sha256:orphan999", b"orphan-data");

    let result = run_gc(&mut store, true, 0, false, 0);
    assert_eq!(result.orphaned, 1);
    assert_eq!(result.deleted, 0);
    assert!(result.orphan_keys[0].contains("orphan999"));
    assert!(store.get("docker/test/blobs/sha256:orphan999").is_some());
}

#[test]
fn test_gc_grace_protects_recent_orphan() {
    let mut store = Store::new();
    store.put("docker/test/blobs/sha256:fresh000", b"in-flight-layer");

    let result = run_gc(&mut store, false, 3600, false, 0);
    assert_eq!(result.orphaned, 1, "orphan should be detected");
    assert_eq!(
        result.deleted, 0,
        "recent orphan must be protected by grace"
    );
    assert_eq!(result.skipped_recent, 1);
    assert!(
        store.get("docker/test/blobs/sha256:fresh000").is_some(),
        "blob from a possible in-flight push must survive"
    );

    let preview = run_gc(&mut store, true, 3600, false, 0);
    assert_eq!(preview.skipped_recent, 1);
    assert_eq!(
        preview.bytes_freed, 0,
        "dry-run must not count a grace-protected orphan"
    );

    let result = run_gc(&mut store, false, 0, false, 0);
    assert_eq!(result.deleted, 1, "grace=0 deletes the orphan");
    assert!(store.get("docker/test/blobs/sha256:fresh000").is_none());
}

#[test]
fn test_gc_grace_protects_future_mtime_orphan() {
    let mut store = Store::new();
    let key = "docker/test/blobs/sha256:future00";
    store.put_at(key, b"x", NOW + 3600);

    let result = run_gc(&mut store, false, 60, false, 0);
    assert_eq!(
        result.skipped_recent, 1,
        "future-mtime orphan must be protected"
    );
    assert_eq!(result.deleted, 0);
    assert!(store.get(key).is_some());
}

#[test]
fn test_gc_grace_protects_non_docker_orphan() {
    let mut store = Store::new();
    let key = "maven/com/example/1.0/old.jar.sha256";
    store.put(key, b"deadbeef");

    let result = run_gc(&mut store, false, 3600, false, 0);
    assert_eq!(result.orphaned, 1, "checksum orphan should be detected");
    assert_eq!(
        result.deleted, 0,
        "young non-docker orphan must be protected"
    );
    assert_eq!(result.skipped_recent, 1);
    assert!(store.get(key).is_some());
}

#[test]
fn test_gc_stat_failure_keeps_orphan_and_counts() {
    let mut store = Store::new();
    store.put(&format!("docker/lib/blobs/sha256:{}", "a".repeat(64)), b"");
    store.can_stat = false;

    let result = run_gc(&mut store, false, 0, false, 0);
    assert_eq!(result.orphaned, 1, "the blob is detected as an orphan");
    assert_eq!(
        result.deleted, 0,
        "an orphan that cannot be stat'd must be kept"
    );
    assert_eq!(
        result.stat_failures, 1,
        "the kept orphan is counted as a stat failure"
    );
    assert_eq!(store.files.len(), 1);
}

#[test]
fn test_gc_meta_sidecar_orphan_rule_is_npm_scoped() {
    let mut store = Store::new();
    store.put("npm/orphan/metadata.json.meta", br#"{"etag":"v1"}"#);
    store.put("npm/live/metadata.json", b"body");
    store.put("npm/live/metadata.json.meta", br#"{"etag":"v2"}"#);
    store.put("maven/com/x/1.0/thing.meta", b"real-artifact");

    let result = run_gc(&mut store, false, 0, false, 0);
    assert!(result.deleted >= 1);
    assert!(
        store.get("npm/orphan/metadata.json.meta").is_none(),
        "orphan npm .meta must be reaped"
    );
    assert!(
        store.get("npm/live/metadata.json.meta").is_some(),
        "npm .meta with a live body must be kept"
    );
    assert!(
        store.get("maven/com/x/1.0/thing.meta").is_some(),
        "a Maven .meta artifact must never be treated as a sidecar"
    );
}

#[test]
fn test_gc_docker_deletes_orphans() {
    let mut store = Store::new();
    let manifest = r#"{"config": {"digest": "sha256:configabc"}, "layers": []}"#;
    store.put("docker/test/manifests/latest.json", manifest.as_bytes());
    store.put("docker/test/blobs/sha256:configabc", b"config");
    store.put("docker/test/blobs/sha256:orphan1", b"orphan");

    let result = run_gc(&mut store, false, 0, false, 0);
    assert_eq!(result.orphaned, 1);
    assert_eq!(result.deleted, 1);
    assert!(result.bytes_freed > 0);
    assert!(store.get("docker/test/blobs/sha256:orphan1").is_none());
    assert!(store.get("docker/test/blobs/sha256:configabc").is_some());
}

#[test]
fn test_gc_keeps_tag_manifest_digest_alias_and_reaps_sidecars() {
    let mut store = Store::new();
    let manifest = r#"{"config":{"digest":"sha256:cfg"},"layers":[]}"#;
    let digest = format!(
        "sha256:{}",
        hex::encode(<sha2::Sha256 as sha2::Digest>::digest(manifest.as_bytes()))
    );
    let alias_key = format!("docker/test/manifests/{digest}.json");
    let alias_meta_key = format!("docker/test/manifests/{digest}.meta.json");

    store.put("docker/test/manifests/latest.json", manifest.as_bytes());
    store.put(&alias_key, manifest.as_bytes());
    store.put(&alias_meta_key, b"{}");
    store.put("docker/test/blobs/sha256:cfg", b"cfg");
    store.put("docker/test/manifests/sha256:dead.json", b"{}");
    store.put("docker/test/manifests/sha256:dead.meta.json", b"{}");

    let result = run_gc(&mut store, false, 0, false, 0);
    assert_eq!(result.deleted, 2);
    assert!(store.get(&alias_key).is_some());
    assert!(store.get(&alias_meta_key).is_some());
    assert!(store.get("docker/test/manifests/sha256:dead.json").is_none());
    assert!(store.get("docker/test/manifests/sha256:dead.meta.json").is_none());
}

#[test]
fn test_gc_manifest_list_references() {
    let mut store = Store::new();
    let manifest = r#"{
        "manifests": [
            {"digest": "sha256:platformA", "size": 100},
            {"digest": "sha256:platformB", "size": 200}
        ]
    }"#;
    let sub_a = r#"{
        "config": {"digest": "sha256:cfg_a"},
        "layers": [{"digest": "sha256:layer_a", "size": 50}]
    }"#;
    let sub_b = r#"{
        "config": {"digest": "sha256:cfg_b"},
        "layers": [{"digest": "sha256:layer_b", "size": 60}]
    }"#;
    store.put("docker/multi/manifests/latest.json", manifest.as_bytes());
    store.put("docker/multi/manifests/sha256:platformA.json", sub_a.as_bytes());
    store.put("docker/multi/manifests/sha256:platformB.json", sub_b.as_bytes());
    store.put("docker/multi/blobs/sha256:cfg_a", b"cfg-a");
    store.put("docker/multi/blobs/sha256:layer_a", b"layer-a");
    store.put("docker/multi/blobs/sha256:cfg_b", b"cfg-b");
    store.put("docker/multi/blobs/sha256:layer_b", b"layer-b");

    let result = run_gc(&mut store, true, 0, false, 0);
    assert_eq!(result.orphaned, 0);
}

#[test]
fn test_gc_tag_rooted_no_orphans_for_tagged_blobs() {
    let mut store = Store::new();
    let manifest_a = r#"{
        "config": {"digest": "sha256:cfg_a"},
        "layers": [{"digest": "sha256:layer_a", "size": 100}]
    }"#;
    let manifest_b = r#"{
        "config": {"digest": "sha256:cfg_b"},
        "layers": [{"digest": "sha256:layer_b", "size": 200}]
    }"#;
    store.put("docker/repo/manifests/v1.json", manifest_a.as_bytes());
    store.put("docker/repo/manifests/v2.json", manifest_b.as_bytes());
    store.put("docker/repo/blobs/sha256:cfg_a", b"config-a");
    store.put("docker/repo/blobs/sha256:layer_a", b"layer-a");
    store.put("docker/repo/blobs/sha256:cfg_b", b"config-b");
    store.put("docker/repo/blobs/sha256:layer_b", b"layer-b");

    let result = detect(&store);
    assert_eq!(result.orphans.len(), 0, "all blobs are tag-referenced");
}

#[test]
fn test_gc_tag_rooted_repush_orphans_old_blobs() {
    let mut store = Store::new();
    let old_manifest = r#"{
        "config": {"digest": "sha256:old_config"},
        "layers": [{"digest": "sha256:old_layer", "size": 100}]
    }"#;
    let new_manifest = r#"{
        "config": {"digest": "sha256:new_config"},
        "layers": [{"digest": "sha256:new_layer", "size": 200}]
    }"#;
    store.put("docker/repo/manifests/latest.json", new_manifest.as_bytes());
    store.put("docker/repo/manifests/sha256:old_digest.json", old_manifest.as_bytes());
    store.put("docker/repo/manifests/sha256:new_digest.json", new_manifest.as_bytes());
    store.put("docker/repo/blobs/sha256:old_config", b"old-cfg");
    store.put("docker/repo/blobs/sha256:old_layer", b"old-layer");
    store.put("docker/repo/blobs/sha256:new_config", b"new-cfg");
    store.put("docker/repo/blobs/sha256:new_layer", b"new-layer");

    let result = detect(&store);

    let orphan_blobs: Vec<&String> = result
        .orphans
        .iter()
        .filter(|k| k.contains("/blobs/"))
        .collect();
    assert_eq!(orphan_blobs.len(), 2, "old config + old layer are orphaned");
    assert!(
        orphan_blobs.iter().any(|k| k.contains("old_config")),
        "old config blob must be orphaned"
    );
    assert!(
        orphan_blobs.iter().any(|k| k.contains("old_layer")),
        "old layer blob must be orphaned"
    );
    assert!(
        !result.orphans.iter().any(|k| k.contains("new_config")),
        "new config blob must be kept"
    );
    assert!(
        !result.orphans.iter().any(|k| k.contains("new_layer")),
        "new layer blob must be kept"
    );

    let orphan_manifests: Vec<&String> = result
        .orphans
        .iter()
        .filter(|k| k.contains("/manifests/"))
        .collect();
    assert_eq!(
        orphan_manifests.len(),
        2,
        "both orphan digest manifests (old + new, new is not tag-reachable as sub-manifest)"
    );
    assert!(
        orphan_manifests
            .iter()
            .any(|k| k.contains("sha256:old_digest")),
        "old digest manifest must be orphaned"
    );
}

#[test]
fn test_gc_tag_rooted_manifest_list_transitive() {
    let mut store = Store::new();
    let index = r#"{
        "manifests": [
            {"digest": "sha256:sub_amd64", "size": 100, "platform": {"architecture": "amd64"}},
            {"digest": "sha256:sub_arm64", "size": 100, "platform": {"architecture": "arm64"}}
        ]
    }"#;
    let sub_amd64 = r#"{
        "config": {"digest": "sha256:cfg_amd64"},
        "layers": [{"digest": "sha256:layer_amd64", "size": 500}]
    }"#;
    let sub_arm64 = r#"{
        "config": {"digest": "sha256:cfg_arm64"},
        "layers": [{"digest": "sha256:layer_arm64", "size": 600}]
    }"#;
    store.put("docker/multi/manifests/latest.json", index.as_bytes());
    store.put("docker/multi/manifests/sha256:sub_amd64.json", sub_amd64.as_bytes());
    store.put("docker/multi/manifests/sha256:sub_arm64.json", sub_arm64.as_bytes());
    store.put("docker/multi/blobs/sha256:cfg_amd64", b"cfg-amd64");
    store.put("docker/multi/blobs/sha256:layer_amd64", b"layer-amd64");
    store.put("docker/multi/blobs/sha256:cfg_arm64", b"cfg-arm64");
    store.put("docker/multi/blobs/sha256:layer_arm64", b"layer-arm64");

    let result = detect(&store);
    assert_eq!(
        result.orphans.len(),
        0,
        "all blobs and sub-manifests are transitively reachable from the tag"
    );
}

#[test]
fn test_gc_tag_rooted_orphan_digest_manifest() {
    let mut store = Store::new();
    let tagged = r#"{
        "config": {"digest": "sha256:live_cfg"},
        "layers": [{"digest": "sha256:live_layer", "size": 100}]
    }"#;
    let orphan = r#"{
        "config": {"digest": "sha256:dead_cfg"},
        "layers": [{"digest": "sha256:dead_layer", "size": 200}]
    }"#;
    store.put("docker/repo/manifests/v1.json", tagged.as_bytes());
    store.put("docker/repo/manifests/sha256:orphan_digest.json", orphan.as_bytes());
    store.put("docker/repo/blobs/sha256:live_cfg", b"cfg");
    store.put("docker/repo/blobs/sha256:live_layer", b"layer");
    store.put("docker/repo/blobs/sha256:dead_cfg", b"dead-cfg");
    store.put("docker/repo/blobs/sha256:dead_layer", b"dead-layer");

    let result = detect(&store);
    assert!(
        result
            .orphans
            .iter()
            .any(|k| k.contains("sha256:orphan_digest")),
        "digest manifest with no tag must be orphaned"
    );
    assert!(
        result.orphans.iter().any(|k| k.contains("dead_cfg")),
        "blob only referenced by orphaned digest manifest must be orphaned"
    );
    assert!(
        result.orphans.iter().any(|k| k.contains("dead_layer")),
        "blob only referenced by orphaned digest manifest must be orphaned"
    );
    assert!(
        !result.orphans.iter().any(|k| k.contains("live_cfg")),
        "tag-referenced blob must be kept"
    );
    assert!(
        !result.orphans.iter().any(|k| k.contains("live_layer")),
        "tag-referenced blob must be kept"
    );
}

#[test]
fn test_gc_scans_all_registries() {
    let mut store = Store::new();
    store.put("cargo/serde/1.0.0/serde-1.0.0.crate", b"crate-data");
    store.put("go/cache/download/mod/@v/v1.0.0.zip", b"zip");
    store.put("raw/some-file.txt", b"raw-data");

    let result = run_gc(&mut store, true, 0, false, 0);
    assert_eq!(result.orphaned, 2);
    assert_eq!(result.uncovered.len(), 1);
    assert_eq!(result.uncovered[0].0, "raw");
}

#[test]
fn test_gc_go_complete_version_no_orphans() {
    let mut store = Store::new();
    store.put("go/example.com/mod/@v/v1.0.0.info", b"{}");
    store.put("go/example.com/mod/@v/v1.0.0.mod", b"module");
    store.put("go/example.com/mod/@v/v1.0.0.zip", b"zip");

    let result = run_gc(&mut store, true, 0, false, 0);
    assert_eq!(
        result.orphaned, 0,
        "complete Go version should have no orphans"
    );
}

#[test]
fn test_gc_go_incomplete_version() {
    let mut store = Store::new();
    store.put("go/example.com/mod/@v/v1.0.0.mod", b"module");

    let result = run_gc(&mut store, true, 0, false, 0);
    assert_eq!(result.orphaned, 1);
    assert!(result.orphan_keys[0].ends_with(".mod"));
}

#[test]
fn test_gc_cargo_matching_index_no_orphans() {
    let mut store = Store::new();
    store.put("cargo/serde/1.0.0/serde-1.0.0.crate", b"crate");
    store.put("cargo/index/se/rd/serde", b"index-data");

    let result = run_gc(&mut store, true, 0, false, 0);
    assert_eq!(
        result.orphaned, 0,
        "cargo with matching index should have no orphans"
    );
}

#[test]
fn test_gc_cargo_orphan_index_without_crate() {
    let mut store = Store::new();
    store.put("cargo/index/se/rd/serde", b"index-data");

    let result = run_gc(&mut store, true, 0, false, 0);
    assert_eq!(result.orphaned, 1);
    assert!(result.orphan_keys[0].contains("index"));
}

#[test]
fn test_gc_maven_checksum_orphan() {
    let mut store = Store::new();
    store.put("maven/com/example/1.0/lib.jar", b"jar-data");
    store.put("maven/com/example/1.0/lib.jar.sha256", b"abc123");
    store.put("maven/com/example/1.0/old.jar.sha256", b"dead");
    store.put("maven/com/example/1.0/old.jar.md5", b"dead");

    let result = run_gc(&mut store, false, 0, false, 0);
    assert_eq!(result.orphaned, 2);
    assert_eq!(result.deleted, 2);
    assert!(store.get("maven/com/example/1.0/lib.jar.sha256").is_some());
    assert!(store.get("maven/com/example/1.0/lib.jar").is_some());
}

#[test]
fn test_gc_npm_checksum_orphan() {
    let mut store = Store::new();
    store.put("npm/lodash/tarballs/lodash-4.17.21.tgz", b"tarball");
    store.put("npm/lodash/tarballs/lodash-4.17.21.tgz.sha256", b"hash");
    store.put("npm/lodash/tarballs/lodash-3.0.0.tgz.sha256", b"old-hash");

    let result = run_gc(&mut store, false, 0, false, 0);
    assert_eq!(result.orphaned, 1);
    assert_eq!(result.deleted, 1);
    assert!(store.get("npm/lodash/tarballs/lodash-4.17.21.tgz.sha256").is_some());
}

#[test]
fn test_gc_pypi_checksum_orphan() {
    let mut store = Store::new();
    store.put("pypi/flask/flask-2.0.tar.gz", b"package");
    store.put("pypi/flask/flask-2.0.tar.gz.sha256", b"hash");
    store.put("pypi/flask/flask-1.0.tar.gz.sha256", b"old-hash");

    let result = run_gc(&mut store, false, 0, false, 0);
    assert_eq!(result.orphaned, 1);
    assert_eq!(result.deleted, 1);
}

#[test]
fn test_gc_mixed_docker_and_checksum_orphans() {
    let mut store = Store::new();
    let manifest = r#"{"config": {"digest": "sha256:config1"}, "layers": []}"#;
    store.put("docker/app/manifests/v1.json", manifest.as_bytes());
    store.put("docker/app/blobs/sha256:config1", b"config");
    store.put("docker/app/blobs/sha256:stale-blob", b"stale");
    store.put("maven/com/test/1.0/lib.jar.sha1", b"orphan-hash");

    let result = run_gc(&mut store, false, 0, false, 0);
    assert_eq!(result.orphaned, 2);
    assert_eq!(result.deleted, 2);
}

#[test]
fn test_gc_no_checksum_orphans_when_all_valid() {
    let mut store = Store::new();
    store.put("maven/com/example/1.0/lib.jar", b"data");
    store.put("maven/com/example/1.0/lib.jar.md5", b"hash");
    store.put("maven/com/example/1.0/lib.jar.sha1", b"hash");
    store.put("maven/com/example/1.0/lib.jar.sha256", b"hash");
    store.put("maven/com/example/1.0/lib.jar.sha512", b"hash");

    let result = run_gc(&mut store, true, 0, false, 0);
    assert_eq!(result.total_candidates, 4);
    assert_eq!(result.orphaned, 0);
}

#[test]
fn test_gc_bytes_freed_tracked() {
    let mut store = Store::new();
    let manifest = r#"{"config": {"digest": "sha256:cfg"}, "layers": []}"#;
    store.put("docker/x/manifests/v1.json", manifest.as_bytes());
    store.put("docker/x/blobs/sha256:cfg", b"c");
    store.put("docker/x/blobs/sha256:dead", b"12345");

    let result = run_gc(&mut store, false, 0, false, 0);
    assert_eq!(result.deleted, 1);
    assert_eq!(result.bytes_freed, 5);
}

fn document(store: &Store, key: &str) -> serde_json::Value {
    serde_json::from_slice(store.get(key).unwrap()).unwrap()
}

#[test]
fn test_gc_npm_no_phantoms() {
    let mut store = Store::new();
    let meta = r#"{
        "versions": {"1.0.0": {"name": "lodash"}},
        "time": {"1.0.0": "2024-01-15T10:30:00Z"}
    }"#;
    store.put("npm/lodash/metadata.json", meta.as_bytes());
    store.put("npm/lodash/tarballs/lodash-1.0.0.tgz", b"tarball");

    let result = run_gc(&mut store, true, 0, false, 0);
    assert_eq!(result.metadata_phantoms_removed, 0);
}

const LODASH: &str = r#"{
    "versions": {
        "1.0.0": {"name": "lodash"},
        "2.0.0": {"name": "lodash"}
    },
    "time": {
        "1.0.0": "2024-01-01T00:00:00Z",
        "2.0.0": "2024-06-01T00:00:00Z"
    }
}"#;

#[test]
fn test_gc_npm_phantom_detected_dry_run() {
    let mut store = Store::new();
    store.put("npm/lodash/metadata.json", LODASH.as_bytes());
    store.put("npm/lodash/tarballs/lodash-2.0.0.tgz", b"tarball");

    let result = run_gc(&mut store, true, 0, false, 0);
    assert_eq!(result.metadata_phantoms_removed, 1);

    let json = document(&store, "npm/lodash/metadata.json");
    assert!(json["versions"]["1.0.0"].is_object());
}

#[test]
fn test_gc_npm_phantom_cleaned() {
    let mut store = Store::new();
    store.put("npm/lodash/metadata.json", LODASH.as_bytes());
    store.put("npm/lodash/tarballs/lodash-2.0.0.tgz", b"tarball");
    store.put("npm/lodash/versions/1.0.0.json", b"{}");

    let result = run_gc(&mut store, false, 0, false, 0);
    assert_eq!(result.metadata_phantoms_removed, 1);

    let json = document(&store, "npm/lodash/metadata.json");
    assert!(json["versions"]["1.0.0"].is_null());
    assert!(json["versions"]["2.0.0"].is_object());
    assert!(json["time"]["1.0.0"].is_null());
    assert!(json["time"]["2.0.0"].is_string());
    assert!(store.get("npm/lodash/versions/1.0.0.json").is_none());
}

#[test]
fn test_gc_pypi_no_phantoms() {
    let mut store = Store::new();
    let meta = r#"{"releases": {"1.0.0": [{"filename": "flask-1.0.0.tar.gz"}]}}"#;
    store.put("pypi/flask/metadata.json", meta.as_bytes());
    store.put("pypi/flask/flask-1.0.0.tar.gz", b"package");

    let result = run_gc(&mut store, true, 0, false, 0);
    assert_eq!(result.metadata_phantoms_removed, 0);
}

#[test]
fn test_gc_pypi_phantom_detected() {
    let mut store = Store::new();
    let meta = r#"{
        "releases": {
            "1.0.0": [{"filename": "flask-1.0.0.tar.gz"}],
            "2.0.0": [{"filename": "flask-2.0.0.tar.gz"}]
        }
    }"#;
    store.put("pypi/flask/metadata.json", meta.as_bytes());
    store.put("pypi/flask/flask-2.0.0.tar.gz", b"package");

    let result = run_gc(&mut store, false, 0, false, 0);
    assert_eq!(result.metadata_phantoms_removed, 1);

    let json = document(&store, "pypi/flask/metadata.json");
    assert!(json["releases"]["1.0.0"].is_null());
    assert!(json["releases"]["2.0.0"].is_array());
}

#[test]
fn test_gc_mixed_orphans_and_phantoms() {
    let mut store = Store::new();
    let manifest = r#"{"config": {"digest": "sha256:cfg1"}, "layers": []}"#;
    store.put("docker/app/manifests/v1.json", manifest.as_bytes());
    store.put("docker/app/blobs/sha256:cfg1", b"config");
    store.put("docker/app/blobs/sha256:stale", b"old");

    let meta = r#"{
        "versions": {"1.0.0": {}, "2.0.0": {}},
        "time": {"1.0.0": "2024-01-01T00:00:00Z", "2.0.0": "2024-06-01T00:00:00Z"}
    }"#;
    store.put("npm/test-pkg/metadata.json", meta.as_bytes());
    store.put("npm/test-pkg/tarballs/test-pkg-2.0.0.tgz", b"tarball");

    let result = run_gc(&mut store, false, 0, false, 0);
    assert_eq!(result.orphaned, 1);
    assert_eq!(result.deleted, 1);
    assert_eq!(result.metadata_phantoms_removed, 1);
}

#[test]
fn test_gc_npm_proxy_skips_phantom_cleanup() {
    let mut store = Store::new();
    let meta = r#"{
        "versions": {"1.0.0": {}, "2.0.0": {}},
        "time": {"1.0.0": "2024-01-01T00:00:00Z", "2.0.0": "2024-06-01T00:00:00Z"}
    }"#;
    store.put("npm/express/metadata.json", meta.as_bytes());
    store.put("npm/express/tarballs/express-2.0.0.tgz", b"tarball");

    let hosted = run_gc(&mut store, true, 0, false, 0);
    assert_eq!(
        hosted.metadata_phantoms_removed, 1,
        "hosted: phantom detected"
    );

    let proxy = run_gc(&mut store, true, 0, true, 0);
    assert_eq!(
        proxy.metadata_phantoms_removed, 0,
        "proxy: npm phantom cleanup must be skipped"
    );
}

#[test]
fn test_evict_proxy_cache_basic() {
    let mut store = Store::new();
    let payload = vec![0u8; 100];
    for i in 0..5u32 {
        let key = format!("rpm/repo/Packages/{}-1.0.rpm", i);
        store.put_at(&key, &payload, 1_000_000 + u64::from(i) * 1000);
    }

    let result = store.evict(300, false);
    assert_eq!(result.total_bytes, 500);
    assert_eq!(result.evicted_files, 2, "2 oldest files evicted");
    assert_eq!(result.bytes_freed, 200);

    assert!(store.get("rpm/repo/Packages/0-1.0.rpm").is_none());
    assert!(store.get("rpm/repo/Packages/1-1.0.rpm").is_none());
    assert!(store.get("rpm/repo/Packages/2-1.0.rpm").is_some());
    assert!(store.get("rpm/repo/Packages/3-1.0.rpm").is_some());
    assert!(store.get("rpm/repo/Packages/4-1.0.rpm").is_some());
}

#[test]
fn test_evict_proxy_cache_skips_hosted() {
    let mut store = Store::new();
    let payload = vec![0u8; 200];
    store.put("rpm/myrepo/Packages/hosted-1.0.rpm", &payload);
    store.put("rpm/myrepo/.nora-meta/Packages/hosted-1.0.rpm.json", b"{}");
    store.put("rpm/myrepo/Packages/proxy-1.0.rpm", &payload);

    let result = store.evict(100, false);
    assert_eq!(result.evicted_files, 1);
    assert!(store.get("rpm/myrepo/Packages/hosted-1.0.rpm").is_some());
    assert!(store.get("rpm/myrepo/Packages/proxy-1.0.rpm").is_none());
}

#[test]
fn test_evict_proxy_cache_disabled() {
    let mut store = Store::new();
    store.put("rpm/repo/Packages/big-1.0.rpm", &vec![0u8; 1000]);

    let result = store.evict(0, false);
    assert_eq!(result.evicted_files, 0);
    assert_eq!(result.total_bytes, 0);
    assert!(store.get("rpm/repo/Packages/big-1.0.rpm").is_some());
}

#[test]
fn test_evict_proxy_cache_skips_index_files() {
    let mut store = Store::new();
    let payload = vec![0u8; 100];
    store.put("rpm/repo/repodata/repomd.xml", &payload);
    store.put("deb/repo/dists/stable/main/binary-amd64/Packages", &payload);
    store.put("deb/repo/dists/stable/Release", &payload);
    store.put("deb/repo/dists/stable/InRelease", &payload);
    store.put("rpm/repo/Packages/evictme-1.0.rpm", &payload);

    let result = store.evict(1, false);
    assert_eq!(
        result.evicted_files, 1,
        "only the non-index proxy file evicted"
    );
    assert!(store.get("rpm/repo/repodata/repomd.xml").is_some());
    assert!(store.get("deb/repo/dists/stable/main/binary-amd64/Packages").is_some());
    assert!(store.get("deb/repo/dists/stable/Release").is_some());
    assert!(store.get("deb/repo/dists/stable/InRelease").is_some());
}

#[test]
fn test_evict_proxy_cache_mixed_rpm_deb() {
    let mut store = Store::new();
    let payload = vec![0u8; 100];
    for (i, prefix) in ["rpm", "deb", "rpm", "deb"].iter().enumerate() {
        let key = format!("{}/repo/Packages/pkg{}-1.0.pkg", prefix, i);
        store.put_at(&key, &payload, 1_000_000 + i as u64 * 1000);
    }

    let result = store.evict(200, false);
    assert_eq!(result.total_bytes, 400);
    assert_eq!(result.evicted_files, 2);
    assert_eq!(result.bytes_freed, 200);
}

#[test]
fn eviction_stops_once_the_cap_is_met() {
    let mut store = Store::new();
    store.put_at("rpm/r/a.rpm", &[0; 10], 3);
    store.put_at("rpm/r/b.rpm", &[0; 10], 1);
    store.put_at("rpm/r/c.rpm", &[0; 10], 2);
    let result = store.evict(30, true);
    assert_eq!(result, ProxyCacheEviction { total_bytes: 30, evicted_files: 0, bytes_freed: 0 });
    let result = store.evict(19, false);
    assert_eq!(result, ProxyCacheEviction { total_bytes: 30, evicted_files: 2, bytes_freed: 20 });
    assert_eq!(store.list("rpm/"), vec!["rpm/r/a.rpm".to_string()]);
}

#[test]
fn eviction_of_more_than_64_bits_is_refused() {
    let entries = vec![
        ("rpm/r/a.rpm".to_string(), FileMeta { size: u64::MAX, modified: 1 }),
        ("rpm/r/b.rpm".to_string(), FileMeta { size: 1, modified: 1 }),
    ];
    assert!(evict_proxy_cache(&entries, &vec![], 1).is_none());
    assert!(evict_proxy_cache(&entries, &vec![], 0).is_some());
}

fn cached(key: &str, size: u64) -> CachedFile {
    CachedFile { key: key.to_string(), size, modified: 1 }
}

#[test]
fn only_deleted_files_count_as_evicted() {
    let entries: Vec<(String, FileMeta)> = [("a", 10), ("b", 20), ("c", 30)]
        .iter()
        .map(|(k, size)| (format!("rpm/r/{k}.rpm"), FileMeta { size: *size, modified: *size }))
        .collect();
    let (total, files) = evict_proxy_cache(&entries, &vec![], 35).unwrap();
    assert_eq!(total, 60);
    let plan: Vec<(&str, u64)> = files.iter().map(|f| (f.key.as_str(), f.size)).collect();
    assert_eq!(plan, vec![("rpm/r/a.rpm", 10), ("rpm/r/b.rpm", 20)]);

    let nothing = ProxyCacheEviction { total_bytes: 60, evicted_files: 0, bytes_freed: 0 };
    let failed = vec![(cached("a", 10), false), (cached("b", 20), false)];
    assert_eq!(tally_eviction(60, &failed, false), Some(nothing));
    let all = ProxyCacheEviction { total_bytes: 60, evicted_files: 2, bytes_freed: 30 };
    assert_eq!(tally_eviction(60, &failed, true), Some(all));
    let half = vec![(cached("a", 10), false), (cached("b", 20), true)];
    let one = ProxyCacheEviction { total_bytes: 60, evicted_files: 1, bytes_freed: 20 };
    assert_eq!(tally_eviction(60, &half, false), Some(one));
    let whole = vec![(cached("a", 10), true), (cached("b", 20), true)];
    assert_eq!(tally_eviction(60, &whole, false), Some(all));
    let much = vec![(cached("a", u64::MAX), true), (cached("b", 1), true)];
    assert_eq!(tally_eviction(0, &much, false), None);
}

#[test]
fn only_rewritten_metadata_counts_as_cleaned() {
    let seen = vec![(2, true), (3, false), (0, false)];
    assert_eq!(tally_phantoms(&seen, false), Some(2));
    assert_eq!(tally_phantoms(&seen, true), Some(5));
    assert_eq!(tally_phantoms(&vec![(usize::MAX, true), (1, true)], false), None);
}

#[test]
fn short_crates_are_indexed_in_one_directory() {
    let keys = |list: &[&str]| list.iter().map(|k| k.to_string()).collect::<Vec<String>>();
    let found = detect_cargo_orphans(&keys(&[
        "cargo/a/1.0.0/a-1.0.0.crate",
        "cargo/index/1/a",
        "cargo/ab/1.0.0/ab-1.0.0.crate",
        "cargo/index/2/ab",
        "cargo/foo/1.0.0/foo-1.0.0.crate",
        "cargo/index/3/f/foo",
        "cargo/serde/1.0.0/serde-1.0.0.crate",
        "cargo/index/se/rd/serde",
    ]));
    assert_eq!(found.total, 8);
    assert!(found.orphans.is_empty());

    let found = detect_cargo_orphans(&keys(&[
        "cargo/index/config.json",
        "cargo/index/se/foo",
        "cargo/index/1/foo",
        "cargo/index/2/a",
    ]));
    assert_eq!(found.total, 0);
    assert!(found.orphans.is_empty());

    let found = detect_cargo_orphans(&keys(&[
        "cargo/index/se/rd/serde/extra",
        "cargo/serde/1.0.0/serde-1.0.0.crate",
    ]));
    assert_eq!(found.total, 2);
    assert!(found.orphans.is_empty());

    let found = detect_cargo_orphans(&keys(&[
        "cargo/index/config.json",
        "cargo/index/1/b",
        "cargo/index-entries/1/b/1.0.0.json",
        "cargo/c/1.0.0/c-1.0.0.crate",
    ]));
    assert_eq!(found.total, 2);
    assert_eq!(
        found.orphans,
        keys(&[
            "cargo/index/1/b",
            "cargo/index-entries/1/b/1.0.0.json",
            "cargo/c/1.0.0/c-1.0.0.crate",
        ])
    );
}

#[test]
fn index_files_go_by_directory_or_name() {
    assert!(is_index_file("rpm/r/repodata/abc-primary.xml.gz"));
    assert!(is_index_file("deb/r/Packages.xz"));
    assert!(is_index_file("Release.gpg"));
    assert!(!is_index_file("deb/r/Packages/pkg.deb"));
    assert!(!is_index_file("deb/r/packages"));
}

#[test]
fn sidecars_and_their_artifacts() {
    assert!(is_meta_sidecar("npm/lodash/metadata.json.meta"));
    assert!(!is_meta_sidecar("maven/com/x/1.0/thing.meta"));
    assert!(is_orphanable_sidecar("maven/a.jar.SHA1"));
    assert!(!is_orphanable_sidecar("maven/com/x/1.0/thing.meta"));
    assert_eq!(
        primary_key_for_sidecar("npm/lodash/metadata.json.meta"),
        Some("npm/lodash/metadata.json")
    );
    assert_eq!(primary_key_for_sidecar("maven/a.jar.sha1"), Some("maven/a.jar"));
    assert_eq!(primary_key_for_sidecar("maven/com/x/1.0/thing.meta"), None);
}

#[test]
fn digests_are_told_from_tags() {
    assert!(is_digest_ref("sha256:abc"));
    assert!(is_digest_ref("sha512:abc"));
    assert!(!is_digest_ref("latest"));
    assert!(!is_digest_ref("SHA256:abc"));
}

#[test]
fn manifests_are_swept_last() {
    let keys: Vec<String> = ["docker/a/manifests/sha256:1.json", "docker/a/blobs/1", "maven/x.md5"]
        .iter()
        .map(|k| k.to_string())
        .collect();
    let swept = order_for_sweep(&keys);
    assert_eq!(
        swept,
        vec![keys[1].clone(), keys[2].clone(), keys[0].clone()]
    );
}

#[test]
fn verdicts_on_orphans() {
    let meta = Some(FileMeta { size: 1, modified: 100 });
    assert_eq!(judge_orphan(None, 200, 0, false), Verdict::KeepUnknown);
    assert_eq!(judge_orphan(meta, 199, 100, false), Verdict::KeepRecent);
    assert_eq!(judge_orphan(meta, 200, 100, false), Verdict::Delete);
    assert_eq!(judge_orphan(meta, 200, 100, true), Verdict::Report);
    assert_eq!(judge_orphan(meta, 0, 0, false), Verdict::Delete);
}

#[test]
fn failed_deletions_are_not_counted() {
    let meta = Some(FileMeta { size: 5, modified: 0 });
    let seen = vec![
        Sighting { meta, deleted: true },
        Sighting { meta, deleted: false },
        Sighting { meta: None, deleted: false },
    ];
    let tally = tally_sweep(&seen, 100, 10, false).unwrap();
    assert_eq!((tally.deleted, tally.bytes_freed), (1, 5));
    assert_eq!((tally.skipped_recent, tally.stat_failures), (0, 1));
    let huge = Some(FileMeta { size: u64::MAX, modified: 0 });
    let seen = vec![Sighting { meta: huge, deleted: true }, Sighting { meta, deleted: true }];
    assert!(tally_sweep(&seen, 100, 10, false).is_none());
}

#[test]
fn scoped_tarballs_go_by_the_name_behind_the_scope() {
    let mut store = Store::new();
    store.put("npm/@s/pkg/metadata.json", br#"{"versions": {"1.0.0": {}, "2.0.0": {}}}"#);
    store.put("npm/@s/pkg/tarballs/pkg-1.0.0.tgz", b"tarball");
    let result = run_gc(&mut store, false, 0, false, 0);
    assert_eq!(result.metadata_phantoms_removed, 1);
    let json = document(&store, "npm/@s/pkg/metadata.json");
    assert!(json["versions"]["1.0.0"].is_object());
    assert!(json["versions"]["2.0.0"].is_null());
}

#[test]
fn releases_without_a_list_of_files_are_phantoms() {
    let mut store = Store::new();
    let meta = br#"{"releases": {"1": [], "2": "none", "3": [{"size": 1}]}}"#;
    store.put("pypi/flask/metadata.json", meta);
    let result = run_gc(&mut store, false, 0, false, 0);
    assert_eq!(result.metadata_phantoms_removed, 2);
    let json = document(&store, "pypi/flask/metadata.json");
    assert!(json["releases"]["1"].is_array(), "an empty release is kept");
    assert!(json["releases"]["2"].is_null());
    assert!(json["releases"]["3"].is_null());
}

#[test]
fn metadata_that_cannot_be_read_is_left_alone() {
    let mut store = Store::new();
    store.put("npm/a/metadata.json", b"not json");
    store.put("npm/b/metadata.json", br#"{"versions": []}"#);
    store.put("pypi/a/metadata.json", br#"{"info": {}}"#);
    let result = run_gc(&mut store, false, 0, false, 0);
    assert_eq!(result.metadata_phantoms_removed, 0);
    assert_eq!(store.get("npm/a/metadata.json"), Some(&b"not json"[..]));
}

#[test]
fn a_second_sweep_finds_nothing() {
    let mut store = Store::new();
    store.put("docker/a/manifests/v1.json", br#"{"config": {"digest": "sha256:c"}}"#);
    store.put("docker/a/manifests/sha256:old.json", br#"{"config": {"digest": "sha256:o"}}"#);
    store.put("docker/a/blobs/sha256:c", b"c");
    store.put("docker/a/blobs/sha256:o", b"o");
    store.put("go/m/@v/v1.zip", b"zip");
    store.put("go/m/@v/v2.zip", b"zip");
    store.put("go/m/@v/v2.info", b"info");
    store.put("cargo/a/1.0.0/a-1.0.0.crate", b"crate");
    store.put("cargo/index/b_/cc/b", b"index");
    store.put("cargo/index-entries/b_/cc/b/1.0.0.json", b"{}");
    store.put("cargo/d/1.0.0/d-1.0.0.crate", b"crate");
    store.put("cargo/index/dd/dd/d", b"index");

    let first = run_gc(&mut store, false, 0, false, 0);
    assert_eq!(first.deleted, first.orphaned);
    assert_eq!(first.orphaned, 6);
    let second = run_gc(&mut store, false, 0, false, 0);
    assert_eq!(second.orphaned, 0);
    assert!(store.get("go/m/@v/v2.zip").is_some());
    assert!(store.get("cargo/d/1.0.0/d-1.0.0.crate").is_some());
}

#[test]
fn the_checksum_of_a_swept_checksum_goes_next() {
    let mut store = Store::new();
    store.put("maven/a.jar.sha256", b"x");
    store.put("maven/a.jar.sha256.md5", b"y");
    assert_eq!(run_gc(&mut store, false, 0, false, 0).deleted, 1);
    assert_eq!(run_gc(&mut store, false, 0, false, 0).deleted, 1);
    assert!(store.files.is_empty());
}
