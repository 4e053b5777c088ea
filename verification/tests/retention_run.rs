use std::collections::BTreeMap;

use nora_upkeep::collect::{
    aggregate_meta, collect_cargo_versions, collect_npm_versions, collect_pypi_versions,
    collect_raw_versions, place_key, Registry,
};
use nora_upkeep::retention::RetentionRule;
use nora_upkeep::retention_run::{
    rebuild_lock_key, retention_result, run_retention, snapshot_fits, RetentionResult,
    RetentionSnapshot, RetentionWork,
};
use nora_upkeep::sidecar::{collect_deb_versions, collect_rpm_versions, sidecar_keys, Format};
use nora_upkeep::table::{FileMeta, FileTable, StatTable};

const NOW: u64 = 1_776_000_000;
const DAY: u64 = 86400;

/// Storage in memory: content and modification time by key.
struct Store {
    files: BTreeMap<String, (Vec<u8>, u64)>,
}

impl Store {
    fn new() -> Store {
        Store { files: BTreeMap::new() }
    }

    fn put(&mut self, key: &str, data: &[u8]) {
        self.files.insert(key.to_string(), (data.to_vec(), NOW));
    }

    fn get(&self, key: &str) -> Option<&[u8]> {
        self.files.get(key).map(|f| f.0.as_slice())
    }

    fn list(&self, prefix: &str) -> Vec<String> {
        self.files.keys().filter(|k| k.starts_with(prefix)).cloned().collect()
    }

    fn stats(&self) -> StatTable {
        let mut stats = StatTable::new();
        for (key, (data, modified)) in &self.files {
            stats.insert(
                key.clone(),
                FileMeta { size: data.len() as u64, modified: *modified },
            );
        }
        stats
    }

    fn contents(&self) -> FileTable {
        let mut files = FileTable::new();
        for (key, (data, _)) in &self.files {
            files.insert(key.clone(), data.clone());
        }
        files
    }

    fn snapshot(&self) -> RetentionSnapshot {
        RetentionSnapshot {
            maven: self.list("maven/"),
            docker: self.list("docker/"),
            npm: self.list("npm/"),
            pypi: self.list("pypi/"),
            cargo: self.list("cargo/"),
            go: self.list("go/"),
            rpm: self.list("rpm/"),
            deb: self.list("deb/"),
            raw: self.list("raw/"),
            stats: self.stats(),
            files: self.contents(),
        }
    }
}

fn run(store: &mut Store, rules: &[RetentionRule], dry_run: bool) -> (RetentionResult, RetentionWork) {
    let snapshot = store.snapshot();
    assert!(snapshot_fits(&snapshot));
    let (plans, work) = run_retention(&snapshot, rules, NOW, dry_run).unwrap();
    let mut deleted = 0;
    for key in &work.deletions {
        if store.files.remove(key).is_some() {
            deleted += 1;
        }
    }
    (retention_result(plans, deleted).unwrap(), work)
}

fn rule(
    registry: &str,
    glob: Option<&str>,
    keep: Option<u32>,
    days: Option<u32>,
) -> RetentionRule {
    RetentionRule {
        registry: registry.into(),
        name_glob: glob.map(String::from),
        keep_last: keep,
        older_than_days: days,
        exclude_tags: vec![],
    }
}

#[test]
fn test_retention_maven_keep_last() {
    let mut store = Store::new();
    store.put("maven/com/example/lib/1.0/lib-1.0.jar", b"v1");
    store.put("maven/com/example/lib/2.0/lib-2.0.jar", b"v2");
    store.put("maven/com/example/lib/3.0/lib-3.0.jar", b"v3");

    let (result, _) = run(&mut store, &[rule("maven", None, Some(1), None)], false);
    assert_eq!(result.planned, 2);
    assert!(store.get("maven/com/example/lib/3.0/lib-3.0.jar").is_some());
}

#[test]
fn test_retention_dry_run_preserves() {
    let mut store = Store::new();
    store.put("maven/com/test/a/1.0/a.jar", b"data");
    store.put("maven/com/test/a/2.0/a.jar", b"data");

    let (result, work) = run(&mut store, &[rule("maven", None, Some(1), None)], true);
    assert_eq!(result.planned, 1);
    assert_eq!(result.deleted_keys, 0);
    assert_eq!(result.bytes_freed, 4);
    assert!(work.deletions.is_empty());
    assert!(store.get("maven/com/test/a/1.0/a.jar").is_some());
    assert!(store.get("maven/com/test/a/2.0/a.jar").is_some());
}

#[test]
fn test_retention_no_matching_rule() {
    let mut store = Store::new();
    store.put("maven/com/test/a/1.0/a.jar", b"data");

    let (result, _) = run(&mut store, &[rule("docker", None, Some(1), None)], false);
    assert_eq!(result.planned, 0);
}

#[test]
fn test_retention_wildcard_rule() {
    let mut store = Store::new();
    store.put("maven/com/test/a/1.0/a.jar", b"data");
    store.put("maven/com/test/a/2.0/a.jar", b"data");

    let (result, _) = run(&mut store, &[rule("*", None, Some(1), None)], false);
    assert!(result.planned >= 1);
}

#[test]
fn test_retention_go_keep_last() {
    let mut store = Store::new();
    for ver in ["v1.0.0", "v2.0.0", "v3.0.0"] {
        store.put(&format!("go/github.com/user/repo/@v/{}.info", ver), b"{}");
        store.put(&format!("go/github.com/user/repo/@v/{}.mod", ver), b"module");
        store.put(&format!("go/github.com/user/repo/@v/{}.zip", ver), b"zipdata");
    }

    let (result, _) = run(&mut store, &[rule("go", None, Some(1), None)], false);
    assert_eq!(result.planned, 2);
    assert_eq!(result.deleted_keys, 6);
    assert!(store.get("go/github.com/user/repo/@v/v3.0.0.zip").is_some());
    assert!(store.get("go/github.com/user/repo/@v/v1.0.0.zip").is_none());
}

fn rpm_sidecar(name: &str, version: &str, arch: &str, href: &str, file_time: u64) -> String {
    format!(
        "{{\"name\":\"{name}\",\"version\":\"{version}\",\"release\":\"1\",\"arch\":\"{arch}\",\
         \"href\":\"{href}\",\"size_package\":7,\"file_time\":{file_time}}}"
    )
}

fn put_rpm(store: &mut Store, repo: &str, file: &str, version: &str, arch: &str, time: u64) {
    store.put(&format!("rpm/{repo}/{file}"), b"package");
    store.put(
        &format!("rpm/{repo}/.nora-meta/{file}.json"),
        rpm_sidecar("pkg", version, arch, file, time).as_bytes(),
    );
}

#[test]
fn test_rpm_retention_deletes_and_regenerates() {
    let mut store = Store::new();
    for v in ["1.0", "2.0", "3.0"] {
        put_rpm(&mut store, "prod", &format!("pkg-{v}.rpm"), v, "x86_64", NOW);
    }

    let (result, work) = run(&mut store, &[rule("rpm", None, Some(1), None)], false);
    assert_eq!(result.planned, 2, "two of three versions dominated");

    let keys = store.list("rpm/prod/");
    let rpms: Vec<_> = keys.iter().filter(|k| k.ends_with(".rpm")).collect();
    assert_eq!(rpms.len(), 1, "{rpms:?}");
    let sidecars: Vec<_> = keys.iter().filter(|k| k.ends_with(".json")).collect();
    assert_eq!(sidecars.len(), 1, "{sidecars:?}");
    assert!(store.get("rpm/prod/pkg-3.0.rpm").is_some());

    assert_eq!(work.rebuild_rpm, vec!["prod".to_string()]);
    assert!(work.rebuild_deb.is_empty());
}

#[test]
fn test_rpm_age_only_rule_and_dry_run() {
    let mut store = Store::new();
    put_rpm(&mut store, "dev1", "pkg-1.0.rpm", "1.0", "x86_64", NOW - 8 * DAY);

    let rules = vec![rule("rpm", None, None, Some(7))];
    let before = store.list("rpm/dev1/").len();
    let (result, work) = run(&mut store, &rules, true);
    assert_eq!(result.planned, 1);
    assert_eq!(result.deleted_keys, 0);
    assert_eq!(store.list("rpm/dev1/").len(), before);
    assert!(work.rebuild_rpm.is_empty());

    let (result, _) = run(&mut store, &rules, false);
    assert_eq!(result.planned, 1);
    let keys = store.list("rpm/dev1/");
    assert!(!keys.iter().any(|k| k.ends_with(".rpm")), "{keys:?}");
}

fn put_deb(store: &mut Store, repo: &str, version: &str, arch: &str, dist: Option<&str>) {
    let file = format!("pool/tree_{version}_{arch}.deb");
    let placement = match dist {
        Some(d) => format!(",\"placement\":{{\"distribution\":\"{d}\",\"component\":\"main\"}}"),
        None => String::new(),
    };
    store.put(&format!("deb/{repo}/{file}"), b"package");
    store.put(
        &format!("deb/{repo}/.nora-meta/{file}.json"),
        format!(
            "{{\"package\":\"tree\",\"version\":\"{version}\",\"arch\":\"{arch}\",\
             \"filename\":\"{file}\",\"size\":7{placement}}}"
        )
        .as_bytes(),
    );
}

#[test]
fn test_deb_retention_deletes_and_regenerates() {
    let mut store = Store::new();
    for v in ["1.0", "2.0"] {
        put_deb(&mut store, "prod", v, "amd64", None);
    }

    let (_, work) = run(&mut store, &[rule("deb", None, Some(1), None)], false);
    let left = store.list("deb/prod/pool/");
    assert_eq!(left, vec!["deb/prod/pool/tree_2.0_amd64.deb".to_string()]);
    assert_eq!(work.rebuild_deb, vec!["prod".to_string()]);
    assert!(work.rebuild_rpm.is_empty());
}

#[test]
fn test_deb_keep_last_counts_per_architecture() {
    let mut store = Store::new();
    for arch in ["amd64", "arm64"] {
        put_deb(&mut store, "myrepo", "1.8", arch, Some("jammy"));
    }

    let (result, _) = run(&mut store, &[rule("deb", None, Some(1), None)], false);
    assert_eq!(
        result.planned, 0,
        "one version per arch — nothing exceeds keep_last"
    );
    for arch in ["amd64", "arm64"] {
        assert!(store.get(&format!("deb/myrepo/pool/tree_1.8_{arch}.deb")).is_some());
    }
}

#[test]
fn test_rpm_keep_last_counts_per_architecture() {
    let mut store = Store::new();
    for arch in ["x86_64", "aarch64"] {
        put_rpm(&mut store, "prod", &format!("pkg-1.0.{arch}.rpm"), "1.0", arch, NOW);
    }

    let (result, _) = run(&mut store, &[rule("rpm", None, Some(1), None)], false);
    assert_eq!(
        result.planned, 0,
        "one version per arch — nothing exceeds keep_last"
    );
    let keys = store.list("rpm/prod/");
    assert_eq!(keys.iter().filter(|k| k.ends_with(".rpm")).count(), 2);
}

#[test]
fn test_deb_keep_last_counts_per_distribution() {
    let mut store = Store::new();
    for (v, dist) in [("1.5", "jammy"), ("1.8", "jammy"), ("2.0", "focal")] {
        put_deb(&mut store, "myrepo", v, "amd64", Some(dist));
    }

    let (result, _) = run(&mut store, &[rule("deb", Some("myrepo/*"), Some(1), None)], false);
    assert_eq!(result.planned, 1, "only jammy exceeds keep_last");
    assert!(store.get("deb/myrepo/pool/tree_1.8_amd64.deb").is_some());
    assert!(store.get("deb/myrepo/pool/tree_1.5_amd64.deb").is_none());
    assert!(store.get("deb/myrepo/pool/tree_2.0_amd64.deb").is_some());
}

#[test]
fn test_raw_prefix_grouping_and_deletion() {
    let mut store = Store::new();
    for k in [
        "raw/stream/v1/image.bin",
        "raw/stream/v1/image.bin.sha256",
        "raw/stream/v2/image.bin",
        "raw/rootfile.bin",
    ] {
        store.put(k, b"data");
    }

    let groups = collect_raw_versions(&store.list("raw/"), &store.stats()).unwrap();
    let stream = groups.iter().find(|(g, _)| g == "raw:stream").unwrap();
    assert_eq!(stream.1.len(), 2, "two prefix versions");
    assert!(
        !groups.iter().any(|(g, _)| g.contains("rootfile")),
        "root-level files are never a version"
    );

    let (result, _) = run(&mut store, &[rule("raw", Some("stream"), Some(1), None)], false);
    assert_eq!(result.planned, 1);
    let keys = store.list("raw/");
    assert!(keys.contains(&"raw/rootfile.bin".to_string()));
    assert_eq!(
        keys.iter().filter(|k| k.starts_with("raw/stream/")).count(),
        1,
        "one prefix version survives: {keys:?}"
    );
}

#[test]
fn sidecars_give_groups_versions_and_times() {
    let mut store = Store::new();
    put_rpm(&mut store, "prod", "Packages/pkg-1.0.rpm", "1.0", "x86_64", 77);
    put_deb(&mut store, "main", "1.8", "arm64", Some("jammy"));

    let rpm = collect_rpm_versions(&store.list("rpm/"), &store.contents(), &store.stats());
    assert_eq!(rpm.len(), 1);
    assert_eq!(rpm[0].0, "rpm:prod/x86_64/pkg");
    assert_eq!(rpm[0].1.len(), 1);
    assert_eq!(rpm[0].1[0].name, "1.0-1.x86_64");
    assert_eq!(rpm[0].1[0].modified, 77);
    assert_eq!(rpm[0].1[0].size, 7);
    assert_eq!(
        rpm[0].1[0].keys,
        vec![
            "rpm/prod/Packages/pkg-1.0.rpm".to_string(),
            "rpm/prod/.nora-meta/Packages/pkg-1.0.rpm.json".to_string(),
        ]
    );

    let deb = collect_deb_versions(&store.list("deb/"), &store.contents(), &store.stats());
    assert_eq!(deb.len(), 1);
    assert_eq!(deb[0].0, "deb:main/jammy/main/arm64/tree");
}

#[test]
fn sidecar_of_another_file_yields_no_version() {
    let mut store = Store::new();
    store.put("rpm/prod/a.rpm", b"package");
    store.put(
        "rpm/prod/.nora-meta/a.rpm.json",
        rpm_sidecar("pkg", "1.0", "x86_64", "b.rpm", 0).as_bytes(),
    );
    store.put("rpm/prod/.nora-meta/c.rpm.json", b"not json");
    let keys = store.list("rpm/");
    assert_eq!(sidecar_keys(Format::Rpm, &keys).len(), 2);
    assert!(collect_rpm_versions(&keys, &store.contents(), &store.stats()).is_empty());
}

#[test]
fn rebuilds_are_locked_by_the_index_they_write() {
    assert_eq!(rebuild_lock_key(Format::Rpm, "prod"), "rpm/prod/repodata/repomd.xml");
    assert_eq!(rebuild_lock_key(Format::Deb, "prod"), "deb/prod/Release");
}

#[test]
fn touched_repositories_are_rebuilt_once_and_in_order() {
    let mut store = Store::new();
    for repo in ["b", "a"] {
        for v in ["1.0", "2.0"] {
            put_rpm(&mut store, repo, &format!("x-{v}.rpm"), v, "x86_64", NOW);
            put_rpm(&mut store, repo, &format!("y-{v}.rpm"), v, "aarch64", NOW);
        }
    }
    let (_, work) = run(&mut store, &[rule("rpm", None, Some(1), None)], false);
    assert_eq!(work.rebuild_rpm, vec!["a".to_string(), "b".to_string()]);
}

fn raw_snapshot(sizes: &[(&str, u64)]) -> RetentionSnapshot {
    let mut stats = StatTable::new();
    for (key, size) in sizes {
        stats.insert(key.to_string(), FileMeta { size: *size, modified: 1 });
    }
    RetentionSnapshot {
        maven: vec![],
        docker: vec![],
        npm: vec![],
        pypi: vec![],
        cargo: vec![],
        go: vec![],
        rpm: vec![],
        deb: vec![],
        raw: sizes.iter().map(|(key, _)| key.to_string()).collect(),
        stats,
        files: FileTable::new(),
    }
}

#[test]
fn a_version_of_more_than_64_bits_is_refused() {
    let rules = vec![rule("raw", None, Some(0), None)];
    let two_versions = raw_snapshot(&[("raw/a/1/x", u64::MAX), ("raw/a/2/x", 1)]);
    let (plans, _) = run_retention(&two_versions, &rules, NOW, true).unwrap();
    assert_eq!(plans[0].1.len(), 2);
    assert!(retention_result(plans, 0).is_none(), "the total does not fit");

    let one_version = raw_snapshot(&[("raw/a/1/x", u64::MAX), ("raw/a/1/y", 1)]);
    assert!(run_retention(&one_version, &rules, NOW, true).is_none());
}

#[test]
fn go_keys_need_a_module() {
    let mut store = Store::new();
    store.put("go/@v/v1.0.0.mod", b"module");
    assert!(!snapshot_fits(&store.snapshot()));
    store.files.clear();
    store.put("go/m/@v/v1.0.0.mod", b"module");
    assert!(snapshot_fits(&store.snapshot()));
}

#[test]
fn keys_are_grouped_by_registry() {
    let place = |registry, key: &str| {
        place_key(registry, key).map(|(group, version)| format!("{group} {version}"))
    };
    assert_eq!(
        place(Registry::Maven, "maven/com/example/lib/1.0/lib-1.0.jar").as_deref(),
        Some("maven:com/example/lib 1.0")
    );
    assert_eq!(
        place(Registry::Docker, "docker/team/app/manifests/latest.json").as_deref(),
        Some("docker:team/app latest")
    );
    assert_eq!(place(Registry::Docker, "docker/app/manifests/latest.meta.json"), None);
    assert_eq!(place(Registry::Docker, "docker/app/blobs/sha256:1"), None);
    assert_eq!(
        place(Registry::Npm, "npm/@s/lodash/tarballs/lodash-1.tgz").as_deref(),
        Some("npm:@s/lodash lodash-1.tgz")
    );
    assert_eq!(place(Registry::Npm, "npm/lodash/metadata.json"), None);
    assert_eq!(
        place(Registry::Pypi, "pypi/flask/flask-1.0.tar.gz").as_deref(),
        Some("pypi:flask flask-1.0.tar.gz")
    );
    assert_eq!(place(Registry::Pypi, "pypi/flask/flask-1.0.tar.gz.sha256"), None);
    assert_eq!(place(Registry::Pypi, "pypi/flask/metadata.json"), None);
    assert_eq!(
        place(Registry::Cargo, "cargo/serde/1.0.0/serde-1.0.0.crate").as_deref(),
        Some("cargo:serde 1.0.0")
    );
    assert_eq!(place(Registry::Cargo, "cargo/index/se/rd/serde"), None);
    assert_eq!(place(Registry::Cargo, "cargo/serde/metadata.json"), None);
    assert_eq!(
        place(Registry::Go, "go/github.com/u/r/@v/v1.0.0.zip").as_deref(),
        Some("go:github.com/u/r v1.0.0")
    );
    assert_eq!(place(Registry::Go, "go/github.com/u/r/@v/list"), None);
    assert_eq!(
        place(Registry::Raw, "raw/stream/v1/sub/image.bin").as_deref(),
        Some("raw:stream v1")
    );
    assert_eq!(place(Registry::Raw, "raw/rootfile.bin"), None);
}

#[test]
fn tarballs_bring_their_checksum_along() {
    let mut store = Store::new();
    store.put("npm/lodash/tarballs/lodash-1.tgz", b"1234");
    store.put("npm/lodash/tarballs/lodash-1.tgz.sha256", b"12");
    store.put("npm/lodash/tarballs/lodash-2.tgz", b"123456");
    let groups = collect_npm_versions(&store.list("npm/"), &store.stats()).unwrap();
    assert_eq!(groups.len(), 1);
    assert_eq!(groups[0].0, "npm:lodash");
    let first = &groups[0].1[0];
    assert_eq!(first.name, "lodash-1.tgz");
    assert_eq!(first.size, 6, "tarball and checksum");
    assert_eq!(
        first.keys,
        vec![
            "npm/lodash/tarballs/lodash-1.tgz".to_string(),
            "npm/lodash/tarballs/lodash-1.tgz.sha256".to_string(),
        ]
    );
    assert_eq!(groups[0].1[1].keys.len(), 1);
    assert_eq!(groups[0].1[1].size, 6);
}

#[test]
fn a_version_is_as_young_as_its_youngest_key() {
    let keys = vec!["pypi/p/p-1.whl".to_string(), "pypi/p/p-1.whl.sha256".to_string()];
    let mut stats = StatTable::new();
    stats.insert(keys[0].clone(), FileMeta { size: 7, modified: 10 });
    stats.insert(keys[1].clone(), FileMeta { size: 4, modified: 20 });
    let groups = collect_pypi_versions(&keys, &stats).unwrap();
    assert_eq!(groups.len(), 1);
    assert_eq!(groups[0].0, "pypi:p");
    assert_eq!(groups[0].1.len(), 1);
    assert_eq!((groups[0].1[0].size, groups[0].1[0].modified), (11, 20));
    assert_eq!(groups[0].1[0].keys, keys);
    stats.insert(keys[0].clone(), FileMeta { size: u64::MAX, modified: 10 });
    assert!(collect_pypi_versions(&keys, &stats).is_none());
}

#[test]
fn index_data_is_no_crate_version() {
    let mut store = Store::new();
    store.put("cargo/serde/1.0.0/serde-1.0.0.crate", b"crate");
    store.put("cargo/index/se/rd/serde", b"index");
    store.put("cargo/index-entries/se/rd/serde/1.0.0.json", b"{}");
    let groups = collect_cargo_versions(&store.list("cargo/"), &store.stats()).unwrap();
    assert_eq!(groups.len(), 1);
    assert_eq!(groups[0].0, "cargo:serde");
    assert_eq!(groups[0].1.len(), 1);
    assert_eq!(groups[0].1[0].name, "1.0.0");
    assert_eq!(groups[0].1[0].keys, vec!["cargo/serde/1.0.0/serde-1.0.0.crate".to_string()]);
    assert_eq!(groups[0].1[0].size, 5);
}

#[test]
fn versions_of_several_keys_add_up() {
    let mut stats = StatTable::new();
    stats.insert("a".to_string(), FileMeta { size: 3, modified: 10 });
    stats.insert("b".to_string(), FileMeta { size: 4, modified: 7 });
    let keys = vec!["a".to_string(), "b".to_string(), "gone".to_string()];
    assert_eq!(aggregate_meta(&stats, &keys), Some((10, 7)));
    assert_eq!(aggregate_meta(&stats, &[]), Some((0, 0)));
    stats.insert("gone".to_string(), FileMeta { size: u64::MAX, modified: 7 });
    assert_eq!(aggregate_meta(&stats, &keys), None);
}
