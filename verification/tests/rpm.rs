use std::collections::BTreeMap;
use std::io::Read;

use nora_upkeep::digest::sha256_hex;
use nora_upkeep::reindex::{
    index_stored, next_rebuild_step, next_reindex_step, plan_reindex, record_stored,
    refuse_reindex, summarize_reindex, RebuildStep, ReindexStep, ReindexSummary,
};
use nora_upkeep::repodata::{
    dep_entry_xml, generate_filelists_xml, generate_other_xml, generate_primary_xml,
    is_primary_file,
};
use nora_upkeep::repomd::{
    build_repodata, build_repodata_file, generate_repomd_xml, lay_out_update, repomd_key,
    sort_packages, stale_repodata,
};
use nora_upkeep::rpm_package::{
    index_in_bounds, parse_package, PackageError, RpmChange, RpmDependency, RpmFile, RpmHeader,
};
use nora_upkeep::rpm_record::{
    dep_records, extract_record, flags_str, parse_evr, ChangelogRecord, DepRecord, FileRecord,
    PkgRecord,
};
use nora_upkeep::rpm_repo::{
    accept_upload, check_exists, content_type, nevra, next_step, package_key, read_failure,
    record_upload, refuse_deletion, refuse_upload, route_download, sidecar_key,
    validate_package_path, Access, ChangeStep, DownloadRoute, Reply, StepOutcome,
};
use nora_upkeep::xml::xml_escape;
use rpm::DependencyFlags as F;

const OPEN: Access = Access { enabled: true, proxied: false, in_scope: true };
const MAX_SIZE: u64 = 1 << 30;
const FILE_TIME: u64 = 1_776_000_000;

/// A package in memory with a dependency, a config file, a binary and a
/// changelog.
fn build_test_rpm(name: &str, version: &str) -> Vec<u8> {
    let pkg = rpm::PackageBuilder::new(name, version, "MIT", "x86_64", "A test package")
        .release("1")
        .description("Test package for the NORA rpm registry")
        .requires(rpm::Dependency::greater_eq("bash", "4.0"))
        .add_changelog_entry(
            "Test Author <test@example.com> - 1.0-1",
            "- initial release",
            1_700_000_000u32,
        )
        .with_file_contents(
            b"#!/bin/sh\necho hi\n".to_vec(),
            rpm::FileOptions::new(format!("/usr/bin/{name}")),
        )
        .unwrap()
        .with_file_contents(
            b"key=value\n".to_vec(),
            rpm::FileOptions::new(format!("/etc/{name}.conf")).config(),
        )
        .unwrap()
        .build()
        .unwrap();
    let mut buf = Vec::new();
    pkg.write(&mut buf).unwrap();
    buf
}

fn build_rpm(name: &str) -> Vec<u8> {
    let pkg = rpm::PackageBuilder::new(name, "1.0", "MIT", "x86_64", "t")
        .release("1")
        .build()
        .unwrap();
    let mut buf = Vec::new();
    pkg.write(&mut buf).unwrap();
    buf
}

fn gunzip(data: &[u8]) -> String {
    let mut out = String::new();
    flate2::read::GzDecoder::new(data).read_to_string(&mut out).unwrap();
    out
}

/// Extract the `href` of a repomd `<data type="{kind}">` entry.
fn repomd_href(repomd: &str, kind: &str) -> String {
    let start = repomd
        .find(&format!("<data type=\"{kind}\">"))
        .unwrap_or_else(|| panic!("repomd missing data type {kind}: {repomd}"));
    let rest = &repomd[start..];
    let href_start = rest.find("href=\"").unwrap() + 6;
    let href_end = rest[href_start..].find('"').unwrap() + href_start;
    rest[href_start..href_end].to_string()
}

/// A repository in memory: storage, and the records that sidecars hold.
struct Registry {
    storage: BTreeMap<String, Vec<u8>>,
    sidecars: BTreeMap<String, PkgRecord>,
    signed: bool,
    generation: u64,
}

impl Registry {
    fn new() -> Registry {
        Registry { storage: BTreeMap::new(), sidecars: BTreeMap::new(), signed: true, generation: 0 }
    }

    fn list(&self, prefix: &str) -> Vec<String> {
        self.storage
            .keys()
            .chain(self.sidecars.keys())
            .filter(|k| k.starts_with(prefix))
            .cloned()
            .collect()
    }

    fn delete(&mut self, key: &str) -> StepOutcome {
        if self.storage.remove(key).is_some() || self.sidecars.remove(key).is_some() {
            StepOutcome::Done
        } else {
            StepOutcome::NotFound
        }
    }

    fn regenerate(&mut self, repo: &str) {
        let prefix = format!("rpm/{repo}/.nora-meta/");
        let records: Vec<PkgRecord> = self
            .sidecars
            .iter()
            .filter(|(k, _)| k.starts_with(&prefix))
            .map(|(_, r)| r.clone())
            .collect();
        let files = build_repodata(records).unwrap();
        self.generation += 1;
        let update = lay_out_update(repo, &files, self.generation);
        let mut step = RebuildStep::Write(0);
        loop {
            let outcome = match step {
                RebuildStep::Write(i) => {
                    let (key, data) = &update.writes[i];
                    self.storage.insert(key.clone(), data.clone());
                    StepOutcome::Done
                }
                RebuildStep::WriteSignature => {
                    let signature = format!("signature of {}", update.repomd);
                    self.storage.insert(update.signature_key.clone(), signature.into_bytes());
                    StepOutcome::Done
                }
                RebuildStep::FindSignature => {
                    if self.storage.contains_key(&update.signature_key) {
                        StepOutcome::Done
                    } else {
                        StepOutcome::NotFound
                    }
                }
                RebuildStep::DeleteSignature => self.delete(&update.signature_key),
                RebuildStep::Prune => {
                    let existing = self.list(&format!("rpm/{repo}/repodata/"));
                    for key in stale_repodata(&existing, repo, &files) {
                        self.delete(&key);
                    }
                    StepOutcome::Done
                }
                RebuildStep::Finished => return,
                RebuildStep::Aborted => panic!("rebuild aborted"),
            };
            step = next_rebuild_step(step, outcome, update.writes.len(), self.signed);
        }
    }

    fn change(&mut self, first: ChangeStep, repo: &str, path: &str, upload: Option<(&[u8], PkgRecord)>) -> Reply {
        let mut step = first;
        loop {
            let outcome = match &step {
                ChangeStep::StorePackage => {
                    let data = upload.as_ref().unwrap().0;
                    self.storage.insert(package_key(repo, path), data.to_vec());
                    StepOutcome::Done
                }
                ChangeStep::StoreSidecar => {
                    let record = upload.as_ref().unwrap().1.clone();
                    self.sidecars.insert(sidecar_key(repo, path), record);
                    StepOutcome::Done
                }
                ChangeStep::DeletePackage => self.delete(&package_key(repo, path)),
                ChangeStep::DeleteSidecar => self.delete(&sidecar_key(repo, path)),
                ChangeStep::RebuildStored | ChangeStep::RebuildDeleted => {
                    self.regenerate(repo);
                    StepOutcome::Done
                }
                ChangeStep::Done(_) => StepOutcome::Done,
            };
            if let ChangeStep::Done(reply) = step {
                return reply;
            }
            step = next_step(step, outcome);
        }
    }

    fn upload_as(&mut self, access: Access, repo: &str, path: &str, body: &[u8], max: u64) -> Reply {
        match accept_upload(access, repo, path, body, max, FILE_TIME, 10, true) {
            Err(reply) => reply,
            Ok(record) => self.change(ChangeStep::StorePackage, repo, path, Some((body, record))),
        }
    }

    fn upload(&mut self, repo: &str, path: &str, body: &[u8]) -> Reply {
        self.upload_as(OPEN, repo, path, body, MAX_SIZE)
    }

    fn delete_package(&mut self, access: Access, repo: &str, path: &str) -> Reply {
        match refuse_deletion(access, repo, path, true) {
            Some(reply) => reply,
            None => self.change(ChangeStep::DeletePackage, repo, path, None),
        }
    }

    fn download(&self, repo: &str, path: &str) -> Result<Vec<u8>, Reply> {
        match route_download(true, None, repo, path, true, self.signed) {
            DownloadRoute::Answer(reply) => Err(reply),
            DownloadRoute::Stored { key, .. } => match self.storage.get(&key) {
                Some(data) => Ok(data.clone()),
                None => Err(read_failure(StepOutcome::NotFound).unwrap()),
            },
            DownloadRoute::SigningKey => Ok(b"key".to_vec()),
            DownloadRoute::Upstream { .. } => panic!("no proxy"),
        }
    }

    fn repomd(&self, repo: &str) -> String {
        String::from_utf8(self.download(repo, "repodata/repomd.xml").unwrap()).unwrap()
    }

    fn document(&self, repo: &str, kind: &str) -> String {
        let href = repomd_href(&self.repomd(repo), kind);
        gunzip(&self.download(repo, &href).unwrap())
    }

    fn reindex(&mut self, access: Access, repo: &str) -> Result<ReindexSummary, Reply> {
        if let Some(reply) = refuse_reindex(access, repo) {
            return Err(reply);
        }
        let plan = plan_reindex(repo, &self.list(&format!("rpm/{repo}/")))?;
        let mut record = None;
        let mut step = ReindexStep::List;
        loop {
            let outcome = match step {
                ReindexStep::List => StepOutcome::Done,
                ReindexStep::DeleteSidecar(i) => self.delete(&sidecar_key(repo, &plan.stale[i])),
                ReindexStep::ReadPackage(i) => {
                    let name = &plan.missing[i];
                    let body = self.storage[&package_key(repo, name)].clone();
                    record = Some(index_stored(&body, name, FILE_TIME, 10)?);
                    StepOutcome::Done
                }
                ReindexStep::StoreSidecar(i) => {
                    self.sidecars
                        .insert(sidecar_key(repo, &plan.missing[i]), record.take().unwrap());
                    StepOutcome::Done
                }
                ReindexStep::Rebuild => {
                    self.regenerate(repo);
                    StepOutcome::Done
                }
                ReindexStep::Finished => return Ok(summarize_reindex(&plan, self.signed)),
                ReindexStep::Aborted => return Err(Reply::ServerError),
            };
            step = next_reindex_step(step, outcome, plan.stale.len(), plan.missing.len());
        }
    }
}

#[test]
fn test_parse_evr() {
    assert_eq!(
        parse_evr("1:2.3-4.el9"),
        ("1".into(), "2.3".into(), Some("4.el9".into()))
    );
    assert_eq!(
        parse_evr("2.3-4"),
        ("0".into(), "2.3".into(), Some("4".into()))
    );
    assert_eq!(parse_evr("2.3"), ("0".into(), "2.3".into(), None));
    assert_eq!(parse_evr("a:b"), ("0".into(), "a:b".into(), None));
}

#[test]
fn evr_edges() {
    assert_eq!(parse_evr(":1"), ("0".into(), ":1".into(), None));
    assert_eq!(parse_evr("1:"), ("1".into(), "".into(), None));
    assert_eq!(
        parse_evr("1-2-3"),
        ("0".into(), "1-2".into(), Some("3".into()))
    );
}

#[test]
fn test_flags_str() {
    assert_eq!(flags_str(F::EQUAL.bits()).as_deref(), Some("EQ"));
    assert_eq!(flags_str(F::LESS.bits()).as_deref(), Some("LT"));
    assert_eq!(flags_str(F::GREATER.bits()).as_deref(), Some("GT"));
    assert_eq!(flags_str((F::LESS | F::EQUAL).bits()).as_deref(), Some("LE"));
    assert_eq!(flags_str((F::GREATER | F::EQUAL).bits()).as_deref(), Some("GE"));
    assert_eq!(flags_str(F::ANY.bits()), None);
    assert_eq!(
        flags_str((F::GREATER | F::EQUAL | F::PREREQ).bits()).as_deref(),
        Some("GE")
    );
}

#[test]
fn flags_that_compare_both_ways_are_none() {
    assert_eq!(flags_str((F::LESS | F::GREATER).bits()), None);
    assert_eq!(flags_str((F::LESS | F::GREATER | F::EQUAL).bits()), None);
}

#[test]
fn test_is_primary_file() {
    assert!(is_primary_file("/etc/foo.conf"));
    assert!(is_primary_file("/usr/bin/foo"));
    assert!(is_primary_file("/usr/sbin/foo"));
    assert!(is_primary_file("/usr/lib/sendmail"));
    assert!(!is_primary_file("/usr/share/doc/foo/README"));
    assert!(!is_primary_file("/var/lib/foo/state"));
}

#[test]
fn test_validate_package_path() {
    assert!(validate_package_path("myrepo", "Packages/foo-1.0-1.x86_64.rpm").is_ok());
    assert!(validate_package_path("myrepo", "foo.rpm").is_ok());
    assert!(validate_package_path("a/b", "foo.rpm").is_err());
    assert!(validate_package_path("", "foo.rpm").is_err());
    assert!(validate_package_path(".hidden", "foo.rpm").is_err());
    assert!(validate_package_path("myrepo", "foo.txt").is_err());
    assert!(validate_package_path("myrepo", "repodata/foo.rpm").is_err());
    assert!(validate_package_path("myrepo", ".nora-meta/foo.rpm").is_err());
    assert!(validate_package_path("myrepo", "a/../b.rpm").is_err());
    assert!(validate_package_path("myrepo", "/abs.rpm").is_err());
}

#[test]
fn path_refusals_say_why() {
    assert_eq!(validate_package_path("a/b", "x.rpm"), Err("Invalid repository name"));
    assert_eq!(validate_package_path("é", "x.rpm"), Err("Invalid repository name"));
    assert_eq!(validate_package_path("r", "a//b.rpm"), Err("Invalid path"));
    assert_eq!(validate_package_path("r", "a\0.rpm"), Err("Invalid path"));
    assert_eq!(validate_package_path("r", "x.deb"), Err("Only .rpm files can be published"));
    assert_eq!(
        validate_package_path("r", "repodata/x.rpm"),
        Err("repodata/ is server-generated")
    );
    assert_eq!(validate_package_path("r", "X.RPM"), Ok(()));
}

#[test]
fn test_xml_escape() {
    assert_eq!(xml_escape("a<b>&\"c"), "a&lt;b&gt;&amp;&quot;c");
}

#[test]
fn test_xml_escape_drops_illegal_chars() {
    assert_eq!(xml_escape("a\u{01}b"), "ab");
    assert_eq!(xml_escape("a\u{08}\u{0b}\u{0c}\u{0e}\u{1f}b"), "ab");
    assert_eq!(xml_escape("a\u{fffe}\u{ffff}b"), "ab");
    assert_eq!(xml_escape("a\tb\nc\rd"), "a\tb\nc\rd");
    assert_eq!(xml_escape("héllo — 包"), "héllo — 包");
}

fn plain_record(name: &str) -> PkgRecord {
    PkgRecord {
        name: name.into(),
        epoch: 0,
        version: "1.0".into(),
        release: "1".into(),
        arch: "x86_64".into(),
        summary: String::new(),
        description: String::new(),
        packager: String::new(),
        url: String::new(),
        license: String::new(),
        vendor: String::new(),
        group: String::new(),
        buildhost: String::new(),
        sourcerpm: String::new(),
        build_time: 3,
        file_time: 4,
        size_package: 5,
        size_installed: 6,
        header_start: 7,
        header_end: 8,
        href: format!("{name}.rpm"),
        pkgid: "deadbeef".into(),
        provides: vec![],
        requires: vec![],
        conflicts: vec![],
        obsoletes: vec![],
        files: vec![],
        changelogs: vec![],
    }
}

#[test]
fn test_generated_xml_contains_no_illegal_chars() {
    let hostile = "x\u{01}\u{02}\u{1f}y";
    let pkg = PkgRecord {
        name: hostile.into(),
        epoch: 0,
        version: "1.0".into(),
        release: "1".into(),
        arch: "x86_64".into(),
        summary: hostile.into(),
        description: format!("desc {hostile}"),
        packager: hostile.into(),
        url: hostile.into(),
        license: hostile.into(),
        vendor: hostile.into(),
        group: hostile.into(),
        buildhost: hostile.into(),
        sourcerpm: hostile.into(),
        build_time: 0,
        file_time: 0,
        size_package: 1,
        size_installed: 1,
        header_start: 0,
        header_end: 1,
        href: "Packages/x.rpm".into(),
        pkgid: "deadbeef".into(),
        provides: vec![DepRecord {
            name: hostile.into(),
            flags: Some("EQ".into()),
            epoch: Some("0".into()),
            ver: Some(hostile.into()),
            rel: None,
            pre: false,
        }],
        requires: vec![],
        conflicts: vec![],
        obsoletes: vec![],
        files: vec![FileRecord {
            path: format!("/usr/bin/{hostile}"),
            kind: String::new(),
        }],
        changelogs: vec![ChangelogRecord {
            author: hostile.into(),
            date: 1,
            text: hostile.into(),
        }],
    };
    let pkgs = [pkg];
    for xml in [
        generate_primary_xml(&pkgs),
        generate_filelists_xml(&pkgs),
        generate_other_xml(&pkgs),
    ] {
        let bad = xml.chars().find(|&c| {
            !matches!(c, '\t' | '\n' | '\r' | '\u{20}'..='\u{D7FF}' | '\u{E000}'..='\u{FFFD}' | '\u{10000}'..='\u{10FFFF}')
        });
        assert_eq!(bad, None, "illegal char {bad:?} in generated XML");
        assert!(xml.contains("xy"), "escaped fields must keep legal chars");
    }
}

#[test]
fn primary_document_in_full() {
    let mut pkg = plain_record("a&b");
    pkg.provides = vec![DepRecord {
        name: "cap".into(),
        flags: Some("GE".into()),
        epoch: None,
        ver: Some("2".into()),
        rel: Some("3".into()),
        pre: true,
    }];
    pkg.files = vec![
        FileRecord { path: "/etc/a".into(), kind: "dir".into() },
        FileRecord { path: "/usr/share/a".into(), kind: String::new() },
    ];
    assert_eq!(
        generate_primary_xml(&[pkg]),
        "<?xml version=\"1.0\" encoding=\"UTF-8\"?>\n\
         <metadata xmlns=\"http://linux.duke.edu/metadata/common\" \
         xmlns:rpm=\"http://linux.duke.edu/metadata/rpm\" packages=\"1\">\n\
         <package type=\"rpm\">\n\
         \x20 <name>a&amp;b</name>\n\
         \x20 <arch>x86_64</arch>\n\
         \x20 <version epoch=\"0\" ver=\"1.0\" rel=\"1\"/>\n\
         \x20 <checksum type=\"sha256\" pkgid=\"YES\">deadbeef</checksum>\n\
         \x20 <summary></summary>\n\
         \x20 <description></description>\n\
         \x20 <packager></packager>\n\
         \x20 <url></url>\n\
         \x20 <time file=\"4\" build=\"3\"/>\n\
         \x20 <size package=\"5\" installed=\"6\" archive=\"6\"/>\n\
         \x20 <location href=\"a&amp;b.rpm\"/>\n\
         \x20 <format>\n\
         \x20   <rpm:license></rpm:license>\n\
         \x20   <rpm:vendor></rpm:vendor>\n\
         \x20   <rpm:group></rpm:group>\n\
         \x20   <rpm:buildhost></rpm:buildhost>\n\
         \x20   <rpm:sourcerpm></rpm:sourcerpm>\n\
         \x20   <rpm:header-range start=\"7\" end=\"8\"/>\n\
         \x20   <rpm:provides>\n\
         \x20     <rpm:entry name=\"cap\" flags=\"GE\" epoch=\"0\" ver=\"2\" rel=\"3\" pre=\"1\"/>\n\
         \x20   </rpm:provides>\n\
         \x20   <file type=\"dir\">/etc/a</file>\n\
         \x20 </format>\n\
         </package>\n\
         </metadata>\n"
    );
}

#[test]
fn filelists_and_other_documents_in_full() {
    let mut pkg = plain_record("a");
    pkg.files = vec![FileRecord { path: "/usr/share/a".into(), kind: "ghost".into() }];
    pkg.changelogs = vec![ChangelogRecord { author: "me".into(), date: 9, text: "- x".into() }];
    let pkgs = [pkg];
    assert_eq!(
        generate_filelists_xml(&pkgs),
        "<?xml version=\"1.0\" encoding=\"UTF-8\"?>\n\
         <filelists xmlns=\"http://linux.duke.edu/metadata/filelists\" packages=\"1\">\n\
         <package pkgid=\"deadbeef\" name=\"a\" arch=\"x86_64\">\n\
         \x20 <version epoch=\"0\" ver=\"1.0\" rel=\"1\"/>\n\
         \x20 <file type=\"ghost\">/usr/share/a</file>\n\
         </package>\n\
         </filelists>\n"
    );
    assert_eq!(
        generate_other_xml(&pkgs),
        "<?xml version=\"1.0\" encoding=\"UTF-8\"?>\n\
         <otherdata xmlns=\"http://linux.duke.edu/metadata/other\" packages=\"1\">\n\
         <package pkgid=\"deadbeef\" name=\"a\" arch=\"x86_64\">\n\
         \x20 <version epoch=\"0\" ver=\"1.0\" rel=\"1\"/>\n\
         \x20 <changelog author=\"me\" date=\"9\">- x</changelog>\n\
         </package>\n\
         </otherdata>\n"
    );
}

#[test]
fn no_dependencies_give_no_element() {
    let mut out = "x".to_string();
    dep_entry_xml(&mut out, "requires", &[]);
    assert_eq!(out, "x");
}

#[test]
fn repomd_document_in_full() {
    let file = build_repodata_file("primary", "abc").unwrap();
    assert_eq!(gunzip(&file.gz), "abc");
    assert_eq!(
        file.checksum,
        hex::encode(<sha2::Sha256 as sha2::Digest>::digest(&file.gz))
    );
    assert_eq!(
        file.open_checksum,
        "ba7816bf8f01cfea414140de5dae2223b00361a396177a9cb410ff61f20015ad"
    );
    assert_eq!(file.href, format!("repodata/{}-primary.xml.gz", file.checksum));
    assert_eq!((file.size, file.open_size), (file.gz.len(), 3));
    let (checksum, open, href, size) =
        (&file.checksum, &file.open_checksum, &file.href, file.size);
    let want = format!(
        "<?xml version=\"1.0\" encoding=\"UTF-8\"?>\n\
         <repomd xmlns=\"http://linux.duke.edu/metadata/repo\" \
         xmlns:rpm=\"http://linux.duke.edu/metadata/rpm\">\n\
         \x20 <revision>42</revision>\n\
         \x20 <data type=\"primary\">\n\
         \x20   <checksum type=\"sha256\">{checksum}</checksum>\n\
         \x20   <open-checksum type=\"sha256\">{open}</open-checksum>\n\
         \x20   <location href=\"{href}\"/>\n\
         \x20   <timestamp>42</timestamp>\n\
         \x20   <size>{size}</size>\n\
         \x20   <open-size>3</open-size>\n\
         \x20 </data>\n\
         </repomd>\n"
    );
    assert_eq!(generate_repomd_xml(&[file], 42), want);
}

#[test]
fn packages_are_sorted_by_name_epoch_version_release_and_arch() {
    let mut b = plain_record("b");
    b.epoch = 1;
    let mut b_old = plain_record("b");
    b_old.version = "9.0".into();
    let sorted = sort_packages(vec![b, plain_record("c"), b_old, plain_record("a")]);
    let names: Vec<(String, u32)> = sorted.iter().map(|p| (p.name.clone(), p.epoch)).collect();
    assert_eq!(
        names,
        vec![("a".into(), 0), ("b".into(), 0), ("b".into(), 1), ("c".into(), 0)]
    );
}

#[test]
fn repodata_does_not_depend_on_the_order_of_the_records() {
    let one = build_repodata(vec![plain_record("a"), plain_record("b")]).unwrap();
    let two = build_repodata(vec![plain_record("b"), plain_record("a")]).unwrap();
    let hrefs = |v: &[nora_upkeep::repomd::RepodataFile]| -> Vec<String> {
        v.iter().map(|f| f.href.clone()).collect()
    };
    assert_eq!(hrefs(&one), hrefs(&two));
    assert_eq!(one[0].gz, two[0].gz);
}

#[test]
fn repomd_is_the_last_write() {
    let files = build_repodata(vec![plain_record("a")]).unwrap();
    let update = lay_out_update("r", &files, 1);
    assert_eq!(update.writes.len(), 4);
    assert_eq!(update.writes[3].0, repomd_key("r"));
    assert_eq!(update.writes[3].1, update.repomd.as_bytes());
    assert_eq!(update.signature_key, "rpm/r/repodata/repomd.xml.asc");
    let existing: Vec<String> = update
        .writes
        .iter()
        .map(|w| w.0.clone())
        .chain(vec!["rpm/r/repodata/old-primary.xml.gz".to_string(), update.signature_key.clone()])
        .collect();
    assert_eq!(
        stale_repodata(&existing, "r", &files),
        vec!["rpm/r/repodata/old-primary.xml.gz".to_string()]
    );
}

#[test]
fn header_of_a_package() {
    let body = build_test_rpm("hello", "1.0");
    assert!(index_in_bounds(&body));
    let header = parse_package(&body).unwrap();
    assert_eq!(header.name.as_deref(), Ok("hello"));
    assert_eq!(header.version.as_deref(), Ok("1.0"));
    assert_eq!(header.release.as_deref(), Ok("1"));
    assert_eq!(header.arch.as_deref(), Some("x86_64"));
    assert_eq!(header.license.as_deref(), Some("MIT"));
    assert_eq!(header.summary.as_deref(), Some("A test package"));
    assert_eq!(
        header.description.as_deref(),
        Some("Test package for the NORA rpm registry")
    );
    assert_eq!(header.installed_size, Some(28));
    let requires = header.requires.as_ref().unwrap();
    assert!(requires.iter().any(|d| d.name == "bash" && d.version == "4.0" && d.flags & 14 == 12));
    let provides = header.provides.as_ref().unwrap();
    assert!(provides.iter().any(|d| d.name == "hello"));
    let files = header.files.as_ref().unwrap();
    assert!(files.iter().any(|f| f.path == "/usr/bin/hello" && !f.is_dir && f.flags & 64 == 0));
    let changelog = header.changelog.as_ref().unwrap();
    assert_eq!(changelog.len(), 1);
    assert_eq!(changelog[0].date, 1_700_000_000);
    let (start, end) = header.header_range;
    assert!(96 < start && start < end && end as usize <= body.len());
    let offsets = rpm::PackageMetadata::parse(&mut &body[..]).unwrap().get_package_segment_offsets();
    assert_eq!((start, end), (offsets.header, offsets.payload));
    let be32 = |at: usize| u32::from_be_bytes(body[at..at + 4].try_into().unwrap()) as u64;
    let (entries, data) = (be32(96 + 8), be32(96 + 12));
    assert_eq!(start, 96 + 16 + 16 * entries + data.div_ceil(8) * 8);
    let at = start as usize;
    assert_eq!(end, start + 16 + 16 * be32(at + 8) + be32(at + 12));
    assert_eq!(&body[start as usize..start as usize + 3], &[0x8e, 0xad, 0xe8]);
}

#[test]
fn optional_tags_of_a_package() {
    let pkg = rpm::PackageBuilder::new("full", "2.0", "GPL", "noarch", "s")
        .release("3")
        .epoch(7)
        .url("https://example.com")
        .vendor("Vendor")
        .packager("Packager")
        .group("Group")
        .build_host("host")
        .conflicts(rpm::Dependency::less("old", "1:2-3"))
        .obsoletes(rpm::Dependency::any("older"))
        .build()
        .unwrap();
    let mut body = Vec::new();
    pkg.write(&mut body).unwrap();
    let header = parse_package(&body).unwrap();
    assert_eq!(header.epoch, Some(7));
    assert_eq!(header.url.as_deref(), Some("https://example.com"));
    assert_eq!(header.vendor.as_deref(), Some("Vendor"));
    assert_eq!(header.packager.as_deref(), Some("Packager"));
    assert_eq!(header.group.as_deref(), Some("Group"));
    assert_eq!(header.buildhost.as_deref(), Some("host"));
    assert_eq!(
        header.build_time,
        pkg.metadata.get_build_time().ok()
    );
    assert_eq!(
        header.sourcerpm.as_deref(),
        pkg.metadata.get_source_rpm().ok()
    );
    let record = extract_record(&header, &body, "x/full.rpm", 5, 10).unwrap();
    assert_eq!((record.name.as_str(), record.epoch), ("full", 7));
    assert_eq!(record.href, "x/full.rpm");
    assert_eq!(record.file_time, 5);
    assert_eq!(record.size_package, body.len() as u64);
    assert_eq!(
        record.pkgid,
        hex::encode(<sha2::Sha256 as sha2::Digest>::digest(&body))
    );
    assert_eq!(record.conflicts.len(), 1);
    assert_eq!(record.conflicts[0].flags.as_deref(), Some("LT"));
    assert_eq!(record.conflicts[0].epoch.as_deref(), Some("1"));
    assert_eq!(record.conflicts[0].ver.as_deref(), Some("2"));
    assert_eq!(record.conflicts[0].rel.as_deref(), Some("3"));
    assert_eq!(record.obsoletes.len(), 1);
    assert_eq!(record.obsoletes[0].flags, None);
    assert_eq!(nevra(&record), "full-2.0-3.noarch");
}

fn empty_header() -> RpmHeader {
    RpmHeader {
        files: Ok(vec![]),
        changelog: None,
        name: Ok("n".into()),
        version: Ok("1".into()),
        release: Ok("2".into()),
        arch: None,
        summary: None,
        description: None,
        packager: None,
        url: None,
        license: None,
        vendor: None,
        group: None,
        buildhost: None,
        sourcerpm: None,
        epoch: None,
        build_time: None,
        installed_size: None,
        header_range: (1, 2),
        provides: None,
        requires: None,
        conflicts: None,
        obsoletes: None,
    }
}

#[test]
fn missing_tags_have_defaults() {
    let record = extract_record(&empty_header(), b"body", "n.rpm", 0, 10).unwrap();
    assert_eq!(record.arch, "noarch");
    assert_eq!(record.epoch, 0);
    assert_eq!((record.build_time, record.size_installed), (0, 0));
    assert_eq!((record.header_start, record.header_end), (1, 2));
    assert!(record.summary.is_empty() && record.provides.is_empty());
    assert!(record.changelogs.is_empty());
}

#[test]
fn required_tags_fail_in_order() {
    let broken = |what: &str| -> Result<String, String> { Err(what.to_string()) };
    let mut header = empty_header();
    header.release = broken("release");
    assert_eq!(extract_record(&header, b"", "n.rpm", 0, 1).unwrap_err(), "release");
    header.version = broken("version");
    assert_eq!(extract_record(&header, b"", "n.rpm", 0, 1).unwrap_err(), "version");
    header.name = broken("name");
    assert_eq!(extract_record(&header, b"", "n.rpm", 0, 1).unwrap_err(), "name");
    header.files = Err("files".to_string());
    assert_eq!(extract_record(&header, b"", "n.rpm", 0, 1).unwrap_err(), "files");
}

#[test]
fn the_latest_changes_are_kept() {
    let change = |date: u64| RpmChange { author: format!("a{date}"), date, text: "t".into() };
    let mut header = empty_header();
    header.changelog = Some(vec![change(3), change(1), change(2)]);
    let record = extract_record(&header, b"", "n.rpm", 0, 2).unwrap();
    let dates: Vec<u64> = record.changelogs.iter().map(|c| c.date).collect();
    assert_eq!(dates, vec![2, 3]);
}

#[test]
fn file_kinds() {
    let file = |path: &str, flags, is_dir| RpmFile { path: path.into(), flags, is_dir };
    let mut header = empty_header();
    header.files = Ok(vec![
        file("/a", 64, true),
        file("/b", 0, true),
        file("/c", 1, false),
    ]);
    let record = extract_record(&header, b"", "n.rpm", 0, 2).unwrap();
    let kinds: Vec<&str> = record.files.iter().map(|f| f.kind.as_str()).collect();
    assert_eq!(kinds, vec!["ghost", "dir", ""]);
}

#[test]
fn dependencies_are_recorded_once_without_internal_ones() {
    let dep = |name: &str, flags, version: &str| RpmDependency {
        name: name.into(),
        flags,
        version: version.into(),
    };
    let deps = vec![
        dep("rpmlib(X)", 0, ""),
        dep("a", 8, "1-2"),
        dep("a", 8, "1-2"),
        dep("a", 8, "1-3"),
        dep("b", 64, ""),
        dep("c", 512, ""),
        dep("d", 1024, ""),
    ];
    let kept = dep_records(&deps, true);
    let names: Vec<&str> = kept.iter().map(|d| d.name.as_str()).collect();
    assert_eq!(names, vec!["a", "a", "b", "c", "d"]);
    assert_eq!(kept[0].rel.as_deref(), Some("2"));
    assert_eq!(kept[1].rel.as_deref(), Some("3"));
    assert!(!kept[0].pre && kept[2].pre && kept[3].pre && kept[4].pre);
    assert_eq!(dep_records(&deps, false).len(), 6);
}

#[test]
fn test_rpm_upload_generates_repodata() {
    let mut registry = Registry::new();
    let body = build_test_rpm("hello", "1.0");
    let reply = registry.upload("myrepo", "Packages/hello-1.0-1.x86_64.rpm", &body);
    assert!(matches!(reply, Reply::Created));

    assert!(matches!(
        route_download(true, None, "myrepo", "repodata/repomd.xml", true, true),
        DownloadRoute::Stored { no_cache: true, .. }
    ));

    let primary = registry.document("myrepo", "primary");
    assert!(primary.contains("packages=\"1\""), "{primary}");
    assert!(primary.contains("<name>hello</name>"));
    assert!(primary.contains("ver=\"1.0\" rel=\"1\""));
    assert!(primary.contains("<location href=\"Packages/hello-1.0-1.x86_64.rpm\"/>"));
    assert!(
        primary.contains("<rpm:entry name=\"bash\" flags=\"GE\" epoch=\"0\" ver=\"4.0\"/>"),
        "{primary}"
    );
    assert!(primary.contains("<file>/etc/hello.conf</file>"));
    assert!(primary.contains("<file>/usr/bin/hello</file>"));
    assert!(
        !primary.contains("rpmlib("),
        "rpmlib deps must be dropped: {primary}"
    );
    let pkgid = hex::encode(<sha2::Sha256 as sha2::Digest>::digest(&body));
    assert!(primary.contains(&pkgid));

    let filelists = registry.document("myrepo", "filelists");
    assert!(filelists.contains("<file>/usr/bin/hello</file>"));
    assert!(filelists.contains("<file>/etc/hello.conf</file>"));

    let other = registry.document("myrepo", "other");
    assert!(other.contains("Test Author"), "{other}");
    assert!(other.contains("initial release"));

    assert_eq!(content_type("Packages/hello-1.0-1.x86_64.rpm"), "application/x-rpm");
    let back = registry.download("myrepo", "Packages/hello-1.0-1.x86_64.rpm").unwrap();
    assert_eq!(back, body);
}

#[test]
fn test_rpm_delete_regenerates_empty_repodata() {
    let mut registry = Registry::new();
    registry.upload("myrepo", "hello.rpm", &build_test_rpm("hello", "1.0"));

    let reply = registry.delete_package(OPEN, "myrepo", "hello.rpm");
    assert!(matches!(reply, Reply::NoContent));
    assert!(matches!(registry.download("myrepo", "hello.rpm"), Err(Reply::NotFound)));

    let primary = registry.document("myrepo", "primary");
    assert!(primary.contains("packages=\"0\""), "{primary}");

    let reply = registry.delete_package(OPEN, "myrepo", "hello.rpm");
    assert!(matches!(reply, Reply::NotFound));
}

#[test]
fn test_rpm_stale_repodata_pruned_on_republish() {
    let mut registry = Registry::new();
    registry.upload("myrepo", "a.rpm", &build_test_rpm("aaa", "1.0"));
    let primary_v1 = repomd_href(&registry.repomd("myrepo"), "primary");

    registry.upload("myrepo", "b.rpm", &build_test_rpm("bbb", "2.0"));

    assert!(matches!(registry.download("myrepo", &primary_v1), Err(Reply::NotFound)));
    let keys = registry.list("rpm/myrepo/repodata/");
    assert_eq!(keys.len(), 5, "stale repodata not pruned: {keys:?}");

    let primary = registry.document("myrepo", "primary");
    assert!(primary.contains("packages=\"2\""));
    let a = primary.find("<name>aaa</name>").unwrap();
    let b = primary.find("<name>bbb</name>").unwrap();
    assert!(a < b, "packages must be sorted by name");
}

#[test]
fn only_packages_are_served_by_parts() {
    assert!(matches!(
        route_download(true, None, "myrepo", "Packages/rng-1.0-1.x86_64.rpm", true, true),
        DownloadRoute::Stored { ranged: true, no_cache: false, .. }
    ));
    assert!(matches!(
        route_download(true, None, "myrepo", "repodata/repomd.xml", true, true),
        DownloadRoute::Stored { ranged: false, .. }
    ));
}

#[test]
fn test_rpm_upload_rejects_invalid() {
    let mut registry = Registry::new();
    assert!(matches!(registry.upload("myrepo", "x.rpm", b"not an rpm"), Reply::Rejected(_)));
    assert!(matches!(registry.upload("myrepo", "x.txt", b"data"), Reply::Rejected(_)));
    let evil = build_test_rpm("evil", "1.0");
    assert!(matches!(registry.upload("myrepo", "repodata/evil.rpm", &evil), Reply::Rejected(_)));

    let keys = registry.list("rpm/");
    assert!(keys.is_empty(), "rejected uploads must not write: {keys:?}");
}

#[test]
fn test_rpm_max_file_size_enforced() {
    let mut registry = Registry::new();
    let body = build_test_rpm("big", "1.0");
    match registry.upload_as(OPEN, "myrepo", "big.rpm", &body, 16) {
        Reply::TooLarge(text) => assert_eq!(text, "File too large. Max size: 16 bytes"),
        other => panic!("{other:?}"),
    }
}

#[test]
fn a_body_of_the_limit_is_let_pass() {
    assert!(refuse_upload(OPEN, "r", "x.rpm", 16, 16).is_none());
    assert!(matches!(refuse_upload(OPEN, "r", "x.rpm", 17, 16), Some(Reply::TooLarge(_))));
}

#[test]
fn test_rpm_namespace_scope_enforced() {
    let mut registry = Registry::new();
    let scoped = |repo: &str| Access { in_scope: repo == "myrepo", ..OPEN };
    let body = build_test_rpm("x", "1.0");

    let reply = registry.upload_as(scoped("otherrepo"), "otherrepo", "x.rpm", &body, MAX_SIZE);
    assert!(matches!(reply, Reply::Forbidden));
    assert!(registry.list("rpm/").is_empty());

    let reply = registry.upload_as(scoped("myrepo"), "myrepo", "x.rpm", &body, MAX_SIZE);
    assert!(matches!(reply, Reply::Created));

    let reply = registry.delete_package(scoped("otherrepo"), "otherrepo", "x.rpm");
    assert!(matches!(reply, Reply::Forbidden));
}

#[test]
fn test_rpm_head_and_sidecars_not_served() {
    let mut registry = Registry::new();
    let body = build_test_rpm("hello", "1.0");
    registry.upload("myrepo", "hello.rpm", &body);

    let size = registry.storage.get("rpm/myrepo/hello.rpm").map(|d| d.len() as u64);
    let (length, _) = check_exists(true, "hello.rpm", true, size).unwrap();
    assert_eq!(length, body.len() as u64);

    assert!(matches!(
        registry.download("myrepo", ".nora-meta/hello.rpm.json"),
        Err(Reply::BadRequest)
    ));
}

#[test]
fn test_rpm_disabled_returns_404() {
    let disabled = Access { enabled: false, ..OPEN };
    assert!(matches!(
        route_download(false, None, "myrepo", "repodata/repomd.xml", true, true),
        DownloadRoute::Answer(Reply::NotFound)
    ));
    assert!(matches!(
        accept_upload(disabled, "myrepo", "x.rpm", b"x", MAX_SIZE, FILE_TIME, 10, true),
        Err(Reply::NotFound)
    ));
}

#[test]
fn test_rpm_signature_tracks_regeneration() {
    let mut registry = Registry::new();
    registry.upload("myrepo", "a.rpm", &build_rpm("sig"));
    let asc_v1 = registry.download("myrepo", "repodata/repomd.xml.asc").unwrap();
    registry.upload("myrepo", "b.rpm", &build_rpm("sig"));
    let asc_v2 = registry.download("myrepo", "repodata/repomd.xml.asc").unwrap();
    assert_ne!(asc_v1, asc_v2);
    assert_eq!(
        asc_v2,
        format!("signature of {}", registry.repomd("myrepo")).into_bytes()
    );
}

#[test]
fn test_rpm_unsigned_mode_removes_stale_signature() {
    let mut registry = Registry::new();
    registry.signed = false;
    registry
        .storage
        .insert("rpm/myrepo/repodata/repomd.xml.asc".to_string(), b"stale signature".to_vec());

    registry.upload("myrepo", "sig.rpm", &build_rpm("sig"));

    assert!(
        matches!(registry.download("myrepo", "repodata/repomd.xml.asc"), Err(Reply::NotFound)),
        "stale .asc must be pruned"
    );
    assert!(matches!(
        registry.download("myrepo", "repodata/repomd.xml.key"),
        Err(Reply::NotFound)
    ));
}

#[test]
fn test_reindex_heals_out_of_band_delete() {
    let mut registry = Registry::new();
    registry.upload("myrepo", "aaa.rpm", &build_rpm("aaa"));
    registry.upload("myrepo", "bbb.rpm", &build_rpm("bbb"));

    registry.storage.remove("rpm/myrepo/aaa.rpm");
    assert!(
        registry.document("myrepo", "primary").contains("<name>aaa</name>"),
        "stale before reindex"
    );

    let summary = registry.reindex(OPEN, "myrepo").unwrap();
    assert_eq!(summary.packages, 1);
    assert_eq!(summary.orphans_removed, 1);
    assert!(summary.signed);

    let p = registry.document("myrepo", "primary");
    assert!(
        !p.contains("<name>aaa</name>"),
        "reindex must drop the deleted package"
    );
    assert!(p.contains("<name>bbb</name>"));
    assert!(registry.download("myrepo", "repodata/repomd.xml.asc").is_ok());
}

#[test]
fn test_reindex_adopts_out_of_band_add() {
    let mut registry = Registry::new();
    registry.upload("myrepo", "aaa.rpm", &build_rpm("aaa"));
    registry.storage.insert("rpm/myrepo/ccc.rpm".to_string(), build_rpm("ccc"));

    let summary = registry.reindex(OPEN, "myrepo").unwrap();
    assert_eq!(summary.packages, 2);
    assert_eq!(summary.sidecars_created, 1);

    let p = registry.document("myrepo", "primary");
    assert!(
        p.contains("<name>ccc</name>"),
        "adopted package must be served"
    );
}

#[test]
fn test_reindex_rejects_invalid_out_of_band_package() {
    let mut registry = Registry::new();
    registry.upload("myrepo", "aaa.rpm", &build_rpm("aaa"));
    registry.storage.insert("rpm/myrepo/junk.rpm".to_string(), b"not an rpm".to_vec());
    match registry.reindex(OPEN, "myrepo") {
        Err(Reply::Unprocessable(text)) => {
            assert!(text.starts_with("junk.rpm is not a valid RPM: "), "{text}")
        }
        other => panic!("{other:?}"),
    }
}

#[test]
fn test_reindex_unknown_repo_404s_and_scope_enforced() {
    let mut registry = Registry::new();
    assert!(matches!(
        registry.reindex(OPEN, "nosuch"),
        Err(Reply::Missing("No such repository"))
    ));
    let scoped = Access { in_scope: false, ..OPEN };
    assert!(matches!(registry.reindex(scoped, "myrepo"), Err(Reply::Forbidden)));
}

#[test]
fn reindex_keeps_what_was_uploaded() {
    let mut registry = Registry::new();
    registry.signed = false;
    let path = "repodata-tools-1.0.rpm";
    let reply = registry.upload("r", path, &build_rpm("repodata-tools"));
    assert!(matches!(reply, Reply::Created));
    let summary = registry.reindex(OPEN, "r").unwrap();
    assert_eq!(
        summary,
        ReindexSummary { packages: 1, sidecars_created: 0, orphans_removed: 0, signed: false }
    );
    assert!(registry.sidecars.contains_key(&sidecar_key("r", path)));
    assert!(registry.document("r", "primary").contains("<name>repodata-tools</name>"));
}

#[test]
fn reindex_steps_follow_the_plan() {
    let done = StepOutcome::Done;
    let mut step = ReindexStep::List;
    let mut taken = Vec::new();
    while step != ReindexStep::Finished {
        taken.push(step);
        step = next_reindex_step(step, done, 2, 2);
    }
    assert_eq!(
        taken,
        vec![
            ReindexStep::List,
            ReindexStep::DeleteSidecar(0),
            ReindexStep::DeleteSidecar(1),
            ReindexStep::ReadPackage(0),
            ReindexStep::StoreSidecar(0),
            ReindexStep::ReadPackage(1),
            ReindexStep::StoreSidecar(1),
            ReindexStep::Rebuild,
        ]
    );
    for step in taken {
        for outcome in [StepOutcome::Failed, StepOutcome::NotFound] {
            assert_eq!(next_reindex_step(step, outcome, 2, 2), ReindexStep::Aborted);
        }
    }
    assert_eq!(next_reindex_step(ReindexStep::List, done, 0, 0), ReindexStep::Rebuild);
    assert_eq!(next_reindex_step(ReindexStep::List, done, 0, 1), ReindexStep::ReadPackage(0));
    let end = ReindexStep::Finished;
    assert_eq!(next_reindex_step(end, StepOutcome::Failed, 0, 0), end);
}

#[test]
fn an_uploaded_package_is_served_as_it_came() {
    let mut registry = Registry::new();
    registry.upload("r", "other.rpm", &build_rpm("other"));
    let body = build_rpm("mine");
    assert!(matches!(registry.upload("r", "sub/mine.rpm", &body), Reply::Created));
    assert_eq!(registry.download("r", "sub/mine.rpm").unwrap(), body);
    let record = &registry.sidecars[&sidecar_key("r", "sub/mine.rpm")];
    assert_eq!(record.href, "sub/mine.rpm");
    assert_eq!(record.pkgid, sha256_hex(&body));
    for kind in ["primary", "filelists", "other"] {
        let doc = registry.document("r", kind);
        assert!(doc.contains("packages=\"2\"") && doc.contains(&record.pkgid), "{kind}");
    }
}

#[test]
fn a_package_is_deleted_only_once() {
    let mut registry = Registry::new();
    registry.upload("r", "a.rpm", &build_rpm("a"));
    assert!(matches!(registry.delete_package(OPEN, "r", "a.rpm"), Reply::NoContent));
    assert!(!registry.storage.contains_key("rpm/r/a.rpm"));
    assert!(registry.sidecars.is_empty());
    assert!(registry.document("r", "primary").contains("packages=\"0\""));
    let before = registry.storage.clone();
    assert!(matches!(registry.delete_package(OPEN, "r", "a.rpm"), Reply::NotFound));
    assert_eq!(registry.storage, before);
}

#[test]
fn reindex_ignores_metadata_and_other_files() {
    let keys: Vec<String> = [
        "rpm/r/repodata/x.rpm",
        "rpm/r/notes.txt",
        "rpm/r/A.RPM",
        "rpm/r/.nora-meta/A.RPM.json",
        "rpm/r/.nora-meta/junk",
        "rpm/other/b.rpm",
    ]
    .iter()
    .map(|k| k.to_string())
    .collect();
    let plan = plan_reindex("r", &keys).unwrap();
    assert_eq!(plan.packages, 1);
    assert!(plan.stale.is_empty());
    assert!(plan.missing.is_empty());
}

#[test]
fn test_rpm_proxied_repo_rejects_writes() {
    let proxied = Access { proxied: true, ..OPEN };
    let mut registry = Registry::new();
    let reply = registry.upload_as(proxied, "fedora", "foo-1.0-1.x86_64.rpm", b"x", MAX_SIZE);
    assert!(matches!(reply, Reply::ProxiedConflict));
    let reply = registry.delete_package(proxied, "fedora", "foo-1.0-1.x86_64.rpm");
    assert!(matches!(reply, Reply::ProxiedConflict));
    assert!(matches!(registry.reindex(proxied, "fedora"), Err(Reply::ProxiedConflict)));

    let reply = registry.upload("hosted", "not-an-rpm.txt", b"x");
    assert!(matches!(reply, Reply::Rejected(_)));
}

#[test]
fn proxied_downloads_go_upstream() {
    match route_download(true, Some("http://up/base//"), "fedora", "Packages/foo.DRPM", true, true) {
        DownloadRoute::Upstream { key, url, immutable, content_type } => {
            assert_eq!(key, "rpm/fedora/Packages/foo.DRPM");
            assert_eq!(url, "http://up/base/Packages/foo.DRPM");
            assert!(immutable);
            assert_eq!(content_type, "application/octet-stream");
        }
        other => panic!("{other:?}"),
    }
    match route_download(true, Some("http://up"), "fedora", "repodata/repomd.xml.key", true, true) {
        DownloadRoute::Upstream { immutable, .. } => assert!(!immutable),
        other => panic!("{other:?}"),
    }
    assert!(matches!(
        route_download(true, Some("http://up"), "fedora", "x", false, true),
        DownloadRoute::Answer(Reply::BadRequest)
    ));
}

#[test]
fn keys_that_storage_refuses() {
    let body = build_rpm("a");
    assert!(matches!(
        accept_upload(OPEN, "r", "a.rpm", &body, MAX_SIZE, FILE_TIME, 10, false),
        Err(Reply::BadRequest)
    ));
    assert!(matches!(refuse_deletion(OPEN, "r", "a.rpm", false), Some(Reply::BadRequest)));
    assert!(matches!(check_exists(true, "a.rpm", false, Some(1)), Err(Reply::BadRequest)));
    assert!(matches!(check_exists(false, "a.rpm", true, Some(1)), Err(Reply::NotFound)));
    assert!(matches!(check_exists(true, "a.rpm", true, None), Err(Reply::NotFound)));
}

#[test]
fn media_types() {
    assert_eq!(content_type("a.rpm"), "application/x-rpm");
    assert_eq!(content_type("repomd.xml"), "application/xml");
    assert_eq!(content_type("x-primary.xml.gz"), "application/gzip");
    assert_eq!(content_type("repomd.xml.asc"), "application/octet-stream");
}

#[test]
fn failed_steps_are_answered() {
    let failed = StepOutcome::Failed;
    assert!(matches!(
        next_step(ChangeStep::StorePackage, failed),
        ChangeStep::Done(Reply::ServerError)
    ));
    assert!(matches!(
        next_step(ChangeStep::StoreSidecar, failed),
        ChangeStep::Done(Reply::ServerError)
    ));
    assert!(matches!(
        next_step(ChangeStep::RebuildStored, failed),
        ChangeStep::Done(Reply::Failed("Package stored but repodata regeneration failed"))
    ));
    assert!(matches!(
        next_step(ChangeStep::DeletePackage, failed),
        ChangeStep::Done(Reply::ServerError)
    ));
    assert!(matches!(
        next_step(ChangeStep::DeleteSidecar, failed),
        ChangeStep::RebuildDeleted
    ));
    assert!(matches!(
        next_step(ChangeStep::RebuildDeleted, failed),
        ChangeStep::Done(Reply::Failed("Package deleted but repodata regeneration failed"))
    ));
    assert!(matches!(read_failure(failed), Some(Reply::ServerError)));
    assert!(read_failure(StepOutcome::Done).is_none());
}

#[test]
fn rebuilds_stop_at_a_failure() {
    let failed = StepOutcome::Failed;
    let done = StepOutcome::Done;
    assert_eq!(next_rebuild_step(RebuildStep::Write(0), done, 4, true), RebuildStep::Write(1));
    assert_eq!(next_rebuild_step(RebuildStep::Write(3), done, 4, true), RebuildStep::WriteSignature);
    assert_eq!(next_rebuild_step(RebuildStep::Write(3), done, 4, false), RebuildStep::FindSignature);
    assert_eq!(next_rebuild_step(RebuildStep::Write(1), failed, 4, true), RebuildStep::Aborted);
    assert_eq!(next_rebuild_step(RebuildStep::WriteSignature, failed, 4, true), RebuildStep::Aborted);
    assert_eq!(next_rebuild_step(RebuildStep::Prune, failed, 4, true), RebuildStep::Finished);
}

#[test]
fn refused_packages_say_why() {
    let reject = |header| record_upload(header, b"", "x.rpm", 0, 1).unwrap_err();
    match reject(Err(PackageError::Invalid("bad magic".to_string()))) {
        Reply::Rejected(text) => assert_eq!(text, "Not a valid RPM: bad magic"),
        other => panic!("{other:?}"),
    }
    match reject(Err(PackageError::OutOfBounds)) {
        Reply::Rejected(text) => assert_eq!(text, "Not a valid RPM: header index out of bounds"),
        other => panic!("{other:?}"),
    }
    let mut header = empty_header();
    header.name = Err("no name".to_string());
    match reject(Ok(header)) {
        Reply::Rejected(text) => assert_eq!(text, "RPM header missing required tags: no name"),
        other => panic!("{other:?}"),
    }
    let mut header = empty_header();
    header.name = Err("no name".to_string());
    match record_stored(Ok(header), b"", "x.rpm", 0, 1).unwrap_err() {
        Reply::Unprocessable(text) => {
            assert_eq!(text, "x.rpm: RPM header missing required tags: no name")
        }
        other => panic!("{other:?}"),
    }
}

#[test]
fn truncated_and_broken_packages_are_refused() {
    let body = build_test_rpm("hello", "1.0");
    for end in [0, 4, 96, 100, 112, 200, 400] {
        assert!(parse_package(&body[..end]).is_err(), "{end} bytes");
    }
    let mut broken = body.clone();
    for b in &mut broken[96 + 16 + 8..96 + 16 + 12] {
        *b = 0xff;
    }
    assert!(!index_in_bounds(&broken));
    assert!(matches!(parse_package(&broken), Err(PackageError::OutOfBounds)));

    let mut greedy = body.clone();
    greedy[96 + 16 + 12..96 + 16 + 16].copy_from_slice(&[0, 1, 0, 0]);
    // The parser finds out that so many numbers and strings are not there.
    for kind in [3, 4, 5, 8] {
        greedy[96 + 16 + 7] = kind;
        assert!(index_in_bounds(&greedy));
        assert!(matches!(parse_package(&greedy), Err(PackageError::Invalid(_))), "{kind}");
    }
    greedy[96 + 16 + 7] = 5;
    match accept_upload(OPEN, "r", "x.rpm", &greedy, MAX_SIZE, FILE_TIME, 10, true) {
        Err(Reply::Rejected(text)) => {
            let error = rpm::PackageMetadata::parse(&mut &greedy[..]).unwrap_err();
            assert_eq!(text, format!("Not a valid RPM: {error}"));
        }
        other => panic!("{other:?}"),
    }

    let mut huge = body[..200].to_vec();
    for b in &mut huge[96 + 12..96 + 16] {
        *b = 0xff;
    }
    assert!(matches!(parse_package(&huge), Err(PackageError::OutOfBounds)));
}

#[test]
fn repositories_of_a_reindex_have_a_valid_name() {
    match refuse_reindex(OPEN, ".hidden") {
        Some(Reply::Rejected(text)) => assert_eq!(text, "Invalid repository name"),
        other => panic!("{other:?}"),
    }
    assert!(matches!(
        refuse_reindex(Access { enabled: false, ..OPEN }, ".hidden"),
        Some(Reply::NotFound)
    ));
}

#[test]
fn repositories_are_independent() {
    let mut registry = Registry::new();
    registry.upload("a", "x.rpm", &build_rpm("x"));
    let before = registry.list("rpm/a/");
    assert_eq!(registry.list("rpm/").len(), before.len());
    registry.upload("ab", "y.rpm", &build_rpm("y"));
    registry.delete_package(OPEN, "ab", "y.rpm");
    assert_eq!(registry.list("rpm/a/"), before);
    assert!(registry.document("a", "primary").contains("<name>x</name>"));
}
