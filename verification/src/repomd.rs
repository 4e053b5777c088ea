//! Rebuilding the metadata of an rpm repository from the records of its
//! packages: the compressed documents, `repomd.xml` over them, what is written
//! in which order, and what of an earlier generation goes.

use vstd::prelude::*;

use crate::digest;
use crate::order;
use crate::repodata::{self, Document};
use crate::rpm_record::{self, Pkg, PkgRecord};
use crate::rpm_repo;
use crate::table::KeySet;
use crate::text;
use crate::xml;

verus! {

/// One of the compressed documents.
#[derive(Debug)]
pub struct RepodataFile {
    pub kind: &'static str,
    /// Path in the repository.
    pub href: String,
    /// SHA-256 of the compressed document.
    pub checksum: String,
    /// SHA-256 of the document.
    pub open_checksum: String,
    pub size: usize,
    pub open_size: usize,
    pub gz: Vec<u8>,
}

/// What a [`RepodataFile`] holds.
pub struct MetaFile {
    pub kind: Seq<char>,
    pub href: Seq<char>,
    pub checksum: Seq<char>,
    pub open_checksum: Seq<char>,
    pub size: nat,
    pub open_size: nat,
    pub gz: Seq<u8>,
}

impl View for RepodataFile {
    type V = MetaFile;

    open spec fn view(&self) -> MetaFile {
        MetaFile {
            kind: self.kind@,
            href: self.href@,
            checksum: self.checksum@,
            open_checksum: self.open_checksum@,
            size: self.size as nat,
            open_size: self.open_size as nat,
            gz: self.gz@,
        }
    }
}

/// What a list of documents holds.
pub open spec fn meta_files(v: Seq<RepodataFile>) -> Seq<MetaFile> {
    v.map_values(|f: RepodataFile| f@)
}

/// The bytes of a text.
pub open spec fn utf8(s: Seq<char>) -> Seq<u8> {
    vstd::utf8::encode_utf8(s)
}

/// The document of the kind, given its compressed bytes.
pub open spec fn meta_file(kind: Seq<char>, doc: Seq<char>, gz: Seq<u8>) -> MetaFile {
    let checksum = digest::sha256_text(gz);
    MetaFile {
        kind,
        href: "repodata/"@ + checksum + "-"@ + kind + ".xml.gz"@,
        checksum,
        open_checksum: digest::sha256_text(utf8(doc)),
        size: gz.len(),
        open_size: utf8(doc).len(),
        gz,
    }
}

/// The document of the kind, compressed.
pub open spec fn compressed(kind: Seq<char>, doc: Seq<char>) -> MetaFile {
    meta_file(kind, doc, digest::gzipped(utf8(doc)))
}

/// An entry of `repomd.xml`.
pub open spec fn repomd_entry(f: MetaFile, revision: u64) -> Seq<char> {
    "  <data type=\""@ + f.kind + "\">\n    <checksum type=\"sha256\">"@ + f.checksum
        + "</checksum>\n    <open-checksum type=\"sha256\">"@ + f.open_checksum
        + "</open-checksum>\n    <location href=\""@ + f.href + "\"/>\n    <timestamp>"@
        + text::decimal(revision as nat) + "</timestamp>\n    <size>"@ + text::decimal(f.size)
        + "</size>\n    <open-size>"@ + text::decimal(f.open_size)
        + "</open-size>\n  </data>\n"@
}

/// The entries of `repomd.xml`.
pub open spec fn repomd_entries(files: Seq<MetaFile>, revision: u64) -> Seq<char>
    decreases files.len(),
{
    if files.len() == 0 {
        Seq::empty()
    } else {
        repomd_entries(files.drop_last(), revision) + repomd_entry(files.last(), revision)
    }
}

/// `repomd.xml` over the documents.
pub open spec fn repomd(files: Seq<MetaFile>, revision: u64) -> Seq<char> {
    "<?xml version=\"1.0\" encoding=\"UTF-8\"?>\n<repomd xmlns=\"http://linux.duke.edu/metadata/repo\" xmlns:rpm=\"http://linux.duke.edu/metadata/rpm\">\n  <revision>"@
        + text::decimal(revision as nat) + "</revision>\n"@ + repomd_entries(files, revision)
        + "</repomd>\n"@
}

/// One package does not come after the other: by name, epoch, version, release
/// and architecture.
pub open spec fn pkg_le(a: Pkg, b: Pkg) -> bool {
    if a.name != b.name {
        text::text_le(a.name, b.name)
    } else if a.epoch != b.epoch {
        a.epoch < b.epoch
    } else if a.version != b.version {
        text::text_le(a.version, b.version)
    } else if a.release != b.release {
        text::text_le(a.release, b.release)
    } else {
        text::text_le(a.arch, b.arch)
    }
}

/// [`pkg_le`] as a value.
pub open spec fn pkg_order() -> spec_fn(Pkg, Pkg) -> bool {
    |a: Pkg, b: Pkg| pkg_le(a, b)
}

/// The packages in the order of the metadata.
pub open spec fn sorted_pkgs(pkgs: Seq<Pkg>) -> Seq<Pkg> {
    order::sorted_by(pkgs, pkg_order())
}

/// The name of a document.
pub open spec fn document_name(doc: Document) -> Seq<char> {
    match doc {
        Document::Primary => "primary"@,
        Document::Filelists => "filelists"@,
        Document::Other => "other"@,
    }
}

/// A document over the sorted packages, compressed.
#[verifier::opaque]
pub open spec fn repodata_file(doc: Document, sorted: Seq<Pkg>) -> MetaFile {
    compressed(document_name(doc), repodata::document(doc, sorted))
}

/// The three documents over the packages.
pub open spec fn repodata_files(pkgs: Seq<Pkg>) -> Seq<MetaFile> {
    let sorted = sorted_pkgs(pkgs);
    seq![
        repodata_file(Document::Primary, sorted),
        repodata_file(Document::Filelists, sorted),
        repodata_file(Document::Other, sorted),
    ]
}

/// The key of `repomd.xml`.
pub open spec fn repomd_path(repo: Seq<char>) -> Seq<char> {
    "rpm/"@ + repo + "/repodata/repomd.xml"@
}

/// The key of a document.
pub open spec fn file_path(repo: Seq<char>, f: MetaFile) -> Seq<char> {
    "rpm/"@ + repo + "/"@ + f.href
}

/// The keys of the documents.
pub open spec fn file_paths(repo: Seq<char>, files: Seq<MetaFile>) -> Seq<Seq<char>> {
    files.map_values(|f: MetaFile| file_path(repo, f))
}

/// The document of the kind, given its compressed bytes.
pub fn describe_repodata(kind: &'static str, doc: &str, gz: Vec<u8>) -> (r: RepodataFile)
    ensures
        r@ == meta_file(kind@, doc@, gz@),
{
    let open = doc.as_bytes();
    let checksum = digest::sha256_hex(gz.as_slice());
    let mut href = text::concat4("repodata/", checksum.as_str(), "-", kind);
    href.append(".xml.gz");
    RepodataFile {
        kind,
        href,
        checksum,
        open_checksum: digest::sha256_hex(open),
        size: gz.len(),
        open_size: open.len(),
        gz,
    }
}

/// Compresses a document and describes it. The compression never fails.
pub fn build_repodata_file(kind: &'static str, doc: &str) -> (r: Result<RepodataFile, String>)
    ensures
        match r {
            Ok(f) => f@ == compressed(kind@, doc@),
            Err(_) => false,
        },
{
    match digest::gzip(doc.as_bytes()) {
        Ok(gz) => Ok(describe_repodata(kind, doc, gz)),
        Err(e) => Err(e),
    }
}

fn repomd_entry_text(f: &RepodataFile, revision: u64) -> (r: String)
    ensures
        r@ == repomd_entry(f@, revision),
{
    let when = text::decimal_text(revision);
    let mut r = "  <data type=\"".to_owned();
    r.append(f.kind);
    r.append("\">\n    <checksum type=\"sha256\">");
    r.append(f.checksum.as_str());
    r.append("</checksum>\n    <open-checksum type=\"sha256\">");
    r.append(f.open_checksum.as_str());
    r.append("</open-checksum>\n    <location href=\"");
    r.append(f.href.as_str());
    r.append("\"/>\n    <timestamp>");
    r.append(when.as_str());
    r.append("</timestamp>\n    <size>");
    r.append(text::decimal_text(f.size as u64).as_str());
    r.append("</size>\n    <open-size>");
    r.append(text::decimal_text(f.open_size as u64).as_str());
    r.append("</open-size>\n  </data>\n");
    r
}

/// `repomd.xml` over the documents, with the revision as the time of each.
pub fn generate_repomd_xml(files: &[RepodataFile], revision: u64) -> (r: String)
    ensures
        r@ == repomd(meta_files(files@), revision),
{
    let ghost all = meta_files(files@);
    let mut body = String::new();
    let mut i: usize = 0;
    proof {
        assert(body@ =~= repomd_entries(all.take(0), revision));
    }
    while i < files.len()
        invariant
            i <= files@.len(),
            all == meta_files(files@),
            body@ == repomd_entries(all.take(i as int), revision),
        decreases files@.len() - i,
    {
        proof {
            assert(all.take(i + 1).drop_last() =~= all.take(i as int));
            assert(all.take(i + 1).last() == files@[i as int]@);
        }
        body.append(repomd_entry_text(&files[i], revision).as_str());
        i = i + 1;
    }
    proof {
        assert(all.take(i as int) =~= all);
    }
    let mut r =
        "<?xml version=\"1.0\" encoding=\"UTF-8\"?>\n<repomd xmlns=\"http://linux.duke.edu/metadata/repo\" xmlns:rpm=\"http://linux.duke.edu/metadata/rpm\">\n  <revision>".to_owned();
    r.append(text::decimal_text(revision).as_str());
    r.append("</revision>\n");
    r.append(body.as_str());
    r.append("</repomd>\n");
    r
}

/// The order of packages is one on all of them.
pub proof fn pkg_order_is_an_order()
    ensures
        order::is_preorder(pkg_order()),
{
    let le = pkg_order();
    assert forall|a: Pkg, b: Pkg| #[trigger] le(a, b) || le(b, a) by {
        text::text_le_is_total(a.name, b.name);
        text::text_le_is_total(a.version, b.version);
        text::text_le_is_total(a.release, b.release);
        text::text_le_is_total(a.arch, b.arch);
    }
    assert forall|a: Pkg, b: Pkg, c: Pkg| #[trigger] le(a, b) && #[trigger] le(b, c) implies le(
        a,
        c,
    ) by {
        lemma_pkg_le_transitive(a, b, c);
    }
}

proof fn lemma_text_le_step(a: Seq<char>, b: Seq<char>, c: Seq<char>)
    requires
        text::text_le(a, b),
        text::text_le(b, c),
    ensures
        text::text_le(a, c),
        a == c ==> a == b,
{
    text::text_le_is_transitive(a, b, c);
    if a == c {
        text::text_le_is_antisymmetric(a, b);
    }
}

proof fn lemma_text_le_refl(a: Seq<char>)
    ensures
        text::text_le(a, a),
{
    text::text_le_is_total(a, a);
}

proof fn lemma_pkg_le_transitive(a: Pkg, b: Pkg, c: Pkg)
    requires
        pkg_le(a, b),
        pkg_le(b, c),
    ensures
        pkg_le(a, c),
{
    lemma_text_le_refl(a.name);
    lemma_text_le_refl(b.name);
    lemma_text_le_step(a.name, b.name, c.name);
    if a.name == b.name && b.name == c.name && a.epoch == b.epoch && b.epoch == c.epoch {
        lemma_text_le_refl(a.version);
        lemma_text_le_refl(b.version);
        lemma_text_le_step(a.version, b.version, c.version);
        if a.version == b.version && b.version == c.version {
            lemma_text_le_refl(a.release);
            lemma_text_le_refl(b.release);
            lemma_text_le_step(a.release, b.release, c.release);
            if a.release == b.release && b.release == c.release {
                lemma_text_le_step(a.arch, b.arch, c.arch);
            }
        }
    }
}

fn pkg_at_most(a: &PkgRecord, b: &PkgRecord) -> (r: bool)
    ensures
        r == pkg_le(a@, b@),
{
    if !text::same(a.name.as_str(), b.name.as_str()) {
        text::text_at_most(a.name.as_str(), b.name.as_str())
    } else if a.epoch != b.epoch {
        a.epoch < b.epoch
    } else if !text::same(a.version.as_str(), b.version.as_str()) {
        text::text_at_most(a.version.as_str(), b.version.as_str())
    } else if !text::same(a.release.as_str(), b.release.as_str()) {
        text::text_at_most(a.release.as_str(), b.release.as_str())
    } else {
        text::text_at_most(a.arch.as_str(), b.arch.as_str())
    }
}

/// A package of which nothing is known: no texts, no numbers but zero, no lists.
pub open spec fn blank_pkg() -> Pkg {
    Pkg {
        name: Seq::empty(),
        epoch: 0,
        version: Seq::empty(),
        release: Seq::empty(),
        arch: Seq::empty(),
        summary: Seq::empty(),
        description: Seq::empty(),
        packager: Seq::empty(),
        url: Seq::empty(),
        license: Seq::empty(),
        vendor: Seq::empty(),
        group: Seq::empty(),
        buildhost: Seq::empty(),
        sourcerpm: Seq::empty(),
        build_time: 0,
        file_time: 0,
        size_package: 0,
        size_installed: 0,
        header_start: 0,
        header_end: 0,
        href: Seq::empty(),
        pkgid: Seq::empty(),
        provides: Seq::empty(),
        requires: Seq::empty(),
        conflicts: Seq::empty(),
        obsoletes: Seq::empty(),
        files: Seq::empty(),
        changelogs: Seq::empty(),
    }
}

/// A record with nothing in it.
fn blank_record() -> (r: PkgRecord)
    ensures
        r@ == blank_pkg(),
{
    let r = PkgRecord {
        name: String::new(),
        epoch: 0,
        version: String::new(),
        release: String::new(),
        arch: String::new(),
        summary: String::new(),
        description: String::new(),
        packager: String::new(),
        url: String::new(),
        license: String::new(),
        vendor: String::new(),
        group: String::new(),
        buildhost: String::new(),
        sourcerpm: String::new(),
        build_time: 0,
        file_time: 0,
        size_package: 0,
        size_installed: 0,
        header_start: 0,
        header_end: 0,
        href: String::new(),
        pkgid: String::new(),
        provides: Vec::new(),
        requires: Vec::new(),
        conflicts: Vec::new(),
        obsoletes: Vec::new(),
        files: Vec::new(),
        changelogs: Vec::new(),
    };
    proof {
        assert(rpm_record::deps_of(r.provides@) =~= Seq::empty());
        assert(rpm_record::deps_of(r.requires@) =~= Seq::empty());
        assert(rpm_record::deps_of(r.conflicts@) =~= Seq::empty());
        assert(rpm_record::deps_of(r.obsoletes@) =~= Seq::empty());
        assert(rpm_record::lines_of(r.files@) =~= Seq::empty());
        assert(rpm_record::log_of(r.changelogs@) =~= Seq::empty());
    }
    r
}

proof fn lemma_order_is_injective(order_: Seq<usize>, n: nat, rel: spec_fn(int, int) -> bool)
    requires
        order::is_preorder(rel),
        order::ints(order_) == order::sorted_by(order::positions(n), rel),
        order_.len() == n,
    ensures
        forall|i: int, j: int|
            0 <= i < j < n ==> #[trigger] order_[i] != #[trigger] order_[j],
{
    broadcast use vstd::seq_lib::group_to_multiset_ensures;

    let p = order::positions(n);
    let s = order::ints(order_);
    order::lemma_sorted_by(p, rel);
    assert(p.no_duplicates());
    p.lemma_multiset_has_no_duplicates();
    s.lemma_multiset_has_no_duplicates_conv();
    assert forall|i: int, j: int| 0 <= i < j < n implies #[trigger] order_[i]
        != #[trigger] order_[j] by {
        assert(s[i] != s[j]);
    }
}

/// Sorts the packages for the metadata: by name, epoch, version, release and
/// architecture.
pub fn sort_packages(pkgs: Vec<PkgRecord>) -> (r: Vec<PkgRecord>)
    ensures
        repodata::pkgs_of(r@) == sorted_pkgs(repodata::pkgs_of(pkgs@)),
{
    let n: usize = pkgs.len();
    let ghost all = repodata::pkgs_of(pkgs@);
    let ghost src = pkgs@;
    let ghost rel = |i: int, j: int| pkg_order()(all[i], all[j]);
    proof {
        pkg_order_is_an_order();
        let le = pkg_order();
        assert forall|a: int, b: int| #[trigger] rel(a, b) || rel(b, a) by {
            assert(le(all[a], all[b]) || le(all[b], all[a]));
        }
        assert forall|a: int, b: int, c: int| #[trigger] rel(a, b) && #[trigger] rel(
            b,
            c,
        ) implies rel(a, c) by {
            assert(le(all[a], all[b]) && le(all[b], all[c]));
        }
    }
    let le = |i: usize, j: usize| -> (r: bool)
        requires
            i < n,
            j < n,
            n == pkgs@.len(),
        ensures
            r == pkg_le(pkgs@[i as int]@, pkgs@[j as int]@),
        { pkg_at_most(&pkgs[i], &pkgs[j]) };
    let sorted = order::order_of(n, le, Ghost(rel));
    proof {
        lemma_order_is_injective(sorted@, n as nat, rel);
    }
    let mut pkgs = pkgs;
    let mut r: Vec<PkgRecord> = Vec::new();
    let mut i: usize = 0;
    while i < n
        invariant
            i <= n,
            n == src.len(),
            n == sorted@.len(),
            pkgs@.len() == n,
            forall|k: int| 0 <= k < n ==> #[trigger] sorted@[k] < n,
            forall|j: int, k: int|
                0 <= j < k < n ==> #[trigger] sorted@[j] != #[trigger] sorted@[k],
            forall|k: int|
                i <= k < n ==> pkgs@[#[trigger] sorted@[k] as int] == src[sorted@[k] as int],
            r@.len() == i,
            forall|k: int| 0 <= k < i ==> #[trigger] r@[k] == src[sorted@[k] as int],
        decreases n - i,
    {
        let mut slot = blank_record();
        std::mem::swap(&mut slot, &mut pkgs[sorted[i]]);
        r.push(slot);
        i = i + 1;
    }
    proof {
        let f = |i: int| all[i];
        order::lemma_sorted_map(order::positions(n as nat), f, pkg_order(), rel);
        assert(order::positions(n as nat).map_values(f) =~= all);
        assert(repodata::pkgs_of(r@) =~= order::ints(sorted@).map_values(f));
    }
    r
}

/// Builds one document over the sorted packages.
fn build_document(doc: Document, sorted: &Vec<PkgRecord>) -> (r: Result<RepodataFile, String>)
    ensures
        match r {
            Ok(f) => f@ == repodata_file(doc, repodata::pkgs_of(sorted@)),
            Err(_) => false,
        },
{
    let built = match doc {
        Document::Primary => {
            let content = repodata::generate_primary_xml(sorted.as_slice());
            build_repodata_file("primary", content.as_str())
        },
        Document::Filelists => {
            let content = repodata::generate_filelists_xml(sorted.as_slice());
            build_repodata_file("filelists", content.as_str())
        },
        Document::Other => {
            let content = repodata::generate_other_xml(sorted.as_slice());
            build_repodata_file("other", content.as_str())
        },
    };
    proof {
        reveal(repodata_file);
    }
    match built {
        Ok(f) => Ok(f),
        Err(e) => Err(text::concat2("gzip repodata: ", e.as_str())),
    }
}

/// Builds the three documents over the packages. Their compression never fails.
pub fn build_repodata(pkgs: Vec<PkgRecord>) -> (r: Result<Vec<RepodataFile>, String>)
    ensures
        match r {
            Ok(files) => meta_files(files@) == repodata_files(repodata::pkgs_of(pkgs@)),
            Err(_) => false,
        },
{
    let sorted = sort_packages(pkgs);
    let mut files: Vec<RepodataFile> = Vec::new();
    match build_document(Document::Primary, &sorted) {
        Ok(f) => files.push(f),
        Err(e) => {
            return Err(e);
        },
    }
    match build_document(Document::Filelists, &sorted) {
        Ok(f) => files.push(f),
        Err(e) => {
            return Err(e);
        },
    }
    match build_document(Document::Other, &sorted) {
        Ok(f) => files.push(f),
        Err(e) => {
            return Err(e);
        },
    }
    proof {
        assert(meta_files(files@) =~= repodata_files(repodata::pkgs_of(pkgs@)));
    }
    Ok(files)
}

/// The same packages give the same documents, in whatever order they come,
/// where no two different ones share name, epoch, version, release and
/// architecture.
pub proof fn repodata_is_deterministic(a: Seq<Pkg>, b: Seq<Pkg>)
    requires
        a.to_multiset() == b.to_multiset(),
        forall|x: Pkg, y: Pkg|
            a.contains(x) && a.contains(y) && x.name == y.name && x.epoch == y.epoch && x.version
                == y.version && x.release == y.release && x.arch == y.arch ==> x == y,
    ensures
        repodata_files(a) == repodata_files(b),
{
    pkg_order_is_an_order();
    let le = pkg_order();
    assert forall|x: Pkg, y: Pkg|
        a.contains(x) && a.contains(y) && #[trigger] le(x, y) && #[trigger] le(y, x) implies x
        == y by {
        if x.name != y.name {
            text::text_le_is_antisymmetric(x.name, y.name);
        } else if x.epoch == y.epoch {
            if x.version != y.version {
                text::text_le_is_antisymmetric(x.version, y.version);
            } else if x.release != y.release {
                text::text_le_is_antisymmetric(x.release, y.release);
            } else {
                text::text_le_is_antisymmetric(x.arch, y.arch);
            }
        }
    }
    order::sorting_forgets_the_order(a, b, le);
}

/// The key of `repomd.xml`: also the name of the lock under which a repository
/// is changed.
pub fn repomd_key(repo: &str) -> (r: String)
    ensures
        r@ == repomd_path(repo@),
{
    text::concat3("rpm/", repo, "/repodata/repomd.xml")
}

/// What a rebuild writes.
#[derive(Debug)]
pub struct RepodataUpdate {
    /// Keys and contents, in the order of writing: the documents, and then
    /// `repomd.xml`.
    pub writes: Vec<(String, Vec<u8>)>,
    /// The content of `repomd.xml`, to be signed.
    pub repomd: String,
    /// The key of the signature.
    pub signature_key: String,
}

/// What a list of writes holds.
pub open spec fn writes_of(v: Seq<(String, Vec<u8>)>) -> Seq<(Seq<char>, Seq<u8>)> {
    v.map_values(|w: (String, Vec<u8>)| (w.0@, w.1@))
}

/// The writes of a rebuild: the documents, and then `repomd.xml`, which refers
/// to them.
pub open spec fn update_writes(repo: Seq<char>, files: Seq<MetaFile>, revision: u64) -> Seq<
    (Seq<char>, Seq<u8>),
> {
    files.map_values(|f: MetaFile| (file_path(repo, f), f.gz)).push(
        (repomd_path(repo), utf8(repomd(files, revision))),
    )
}

/// Copies bytes.
fn copy_bytes(v: &[u8]) -> (r: Vec<u8>)
    ensures
        r@ == v@,
{
    let mut r: Vec<u8> = Vec::new();
    r.extend_from_slice(v);
    r
}

/// Lays out what a rebuild writes.
pub fn lay_out_update(repo: &str, files: &Vec<RepodataFile>, revision: u64) -> (r: RepodataUpdate)
    ensures
        writes_of(r.writes@) == update_writes(repo@, meta_files(files@), revision),
        r.repomd@ == repomd(meta_files(files@), revision),
        r.signature_key@ == repomd_path(repo@) + ".asc"@,
{
    let ghost all = meta_files(files@);
    let mut writes: Vec<(String, Vec<u8>)> = Vec::new();
    let mut i: usize = 0;
    while i < files.len()
        invariant
            i <= files@.len(),
            all == meta_files(files@),
            writes@.len() == i,
            forall|k: int|
                0 <= k < i ==> ((#[trigger] writes@[k]).0@, writes@[k].1@) == (
                    file_path(repo@, all[k]),
                    all[k].gz,
                ),
        decreases files@.len() - i,
    {
        let f = &files[i];
        proof {
            assert(all[i as int] == f@);
        }
        let key = text::concat4("rpm/", repo, "/", f.href.as_str());
        writes.push((key, copy_bytes(f.gz.as_slice())));
        i = i + 1;
    }
    let doc = generate_repomd_xml(files.as_slice(), revision);
    let key = repomd_key(repo);
    let signature_key = text::concat2(key.as_str(), ".asc");
    writes.push((key, copy_bytes(doc.as_str().as_bytes())));
    proof {
        assert(writes_of(writes@) =~= update_writes(repo@, all, revision));
    }
    RepodataUpdate { writes, repomd: doc, signature_key }
}

/// The key is of an earlier generation: neither `repomd.xml`, nor its
/// signature, nor one of the current documents.
pub open spec fn is_stale(key: Seq<char>, repo: Seq<char>, files: Seq<MetaFile>) -> bool {
    !"repomd.xml"@.is_suffix_of(key) && !"repomd.xml.asc"@.is_suffix_of(key) && !file_paths(
        repo,
        files,
    ).contains(key)
}

/// The keys of the listing that are of an earlier generation.
pub fn stale_repodata(existing: &Vec<String>, repo: &str, files: &Vec<RepodataFile>) -> (r: Vec<
    String,
>)
    ensures
        text::texts(r@) == text::texts(existing@).filter(
            |k: Seq<char>| is_stale(k, repo@, meta_files(files@)),
        ),
{
    let ghost metas = meta_files(files@);
    let ghost paths = file_paths(repo@, metas);
    let mut current = KeySet::new();
    let mut i: usize = 0;
    while i < files.len()
        invariant
            i <= files@.len(),
            metas == meta_files(files@),
            paths == file_paths(repo@, metas),
            forall|x: Seq<char>| #[trigger]
                current@.contains(x) <==> exists|k: int| 0 <= k < i && #[trigger] paths[k] == x,
        decreases files@.len() - i,
    {
        let ghost before = current@;
        let key = text::concat4("rpm/", repo, "/", files[i].href.as_str());
        proof {
            assert(metas[i as int] == files@[i as int]@);
            assert(paths[i as int] == key@);
        }
        current.insert(key);
        proof {
            assert forall|x: Seq<char>| #[trigger] current@.contains(x) <==> exists|k: int|
                0 <= k < i + 1 && #[trigger] paths[k] == x by {
                if current@.contains(x) && !before.contains(x) {
                    assert(paths[i as int] == x);
                }
                if exists|k: int| 0 <= k < i + 1 && #[trigger] paths[k] == x {
                    let k = choose|k: int| 0 <= k < i + 1 && #[trigger] paths[k] == x;
                    if k < i {
                        assert(before.contains(x));
                    }
                }
            }
        }
        i = i + 1;
    }
    proof {
        assert forall|x: Seq<char>| #[trigger] current@.contains(x) <==> paths.contains(x) by {}
    }
    let ghost all = text::texts(existing@);
    let ghost p = |k: Seq<char>| is_stale(k, repo@, metas);
    let mut r: Vec<String> = Vec::new();
    let mut i: usize = 0;
    proof {
        reveal(Seq::filter);
        assert(text::texts(r@) =~= all.take(0).filter(p));
    }
    while i < existing.len()
        invariant
            i <= existing@.len(),
            all == text::texts(existing@),
            metas == meta_files(files@),
            paths == file_paths(repo@, metas),
            p == (|k: Seq<char>| is_stale(k, repo@, metas)),
            forall|x: Seq<char>| #[trigger] current@.contains(x) <==> paths.contains(x),
            text::texts(r@) == all.take(i as int).filter(p),
        decreases existing@.len() - i,
    {
        let ghost before = r@;
        proof {
            reveal(Seq::filter);
            assert(all.take(i + 1).drop_last() =~= all.take(i as int));
            assert(all.take(i + 1).last() == existing@[i as int]@);
        }
        let key = existing[i].as_str();
        if !text::ends_with(key, "repomd.xml") && !text::ends_with(key, "repomd.xml.asc")
            && !current.contains(key) {
            r.push(existing[i].clone());
            proof {
                assert(text::texts(r@) =~= text::texts(before).push(key@));
            }
        }
        i = i + 1;
    }
    proof {
        assert(all.take(i as int) =~= all);
    }
    r
}

/// `repomd.xml` holds no character that may not stand in XML.
pub proof fn repomd_is_legal(pkgs: Seq<Pkg>, revision: u64)
    ensures
        xml::legal(repomd(repodata_files(pkgs), revision)),
{
    broadcast use {xml::lemma_legal_concat, xml::decimal_is_legal};

    let files = repodata_files(pkgs);
    let sorted = sorted_pkgs(pkgs);
    lemma_repomd_literals();
    lemma_legal_entry(Document::Primary, sorted, revision);
    lemma_legal_entry(Document::Filelists, sorted, revision);
    lemma_legal_entry(Document::Other, sorted, revision);
    let two = files.drop_last();
    let one = two.drop_last();
    let none = one.drop_last();
    assert(repomd_entries(none, revision) =~= Seq::<char>::empty());
    assert(xml::legal(repomd_entries(none, revision))) by {
        reveal(xml::legal);
    }
    assert(one.last() == files[0] && two.last() == files[1] && files.last() == files[2]);
    assert(xml::legal(repomd_entries(one, revision)));
    assert(xml::legal(repomd_entries(two, revision)));
    assert(xml::legal(repomd_entries(files, revision)));
}

proof fn lemma_repomd_literals()
    ensures
        xml::legal("primary"@),
        xml::legal("filelists"@),
        xml::legal("other"@),
        xml::legal("repodata/"@),
        xml::legal("-"@),
        xml::legal(".xml.gz"@),
        xml::legal("  <data type=\""@),
        xml::legal("\">\n    <checksum type=\"sha256\">"@),
        xml::legal("</checksum>\n    <open-checksum type=\"sha256\">"@),
        xml::legal("</open-checksum>\n    <location href=\""@),
        xml::legal("\"/>\n    <timestamp>"@),
        xml::legal("</timestamp>\n    <size>"@),
        xml::legal("</size>\n    <open-size>"@),
        xml::legal("</open-size>\n  </data>\n"@),
        xml::legal(
            "<?xml version=\"1.0\" encoding=\"UTF-8\"?>\n<repomd xmlns=\"http://linux.duke.edu/metadata/repo\" xmlns:rpm=\"http://linux.duke.edu/metadata/rpm\">\n  <revision>"@,
        ),
        xml::legal("</revision>\n"@),
        xml::legal("</repomd>\n"@),
{
    reveal(xml::legal);
    reveal_strlit("primary");
    reveal_strlit("filelists");
    reveal_strlit("other");
    reveal_strlit("repodata/");
    reveal_strlit("-");
    reveal_strlit(".xml.gz");
    reveal_strlit("  <data type=\"");
    reveal_strlit("\">\n    <checksum type=\"sha256\">");
    reveal_strlit("</checksum>\n    <open-checksum type=\"sha256\">");
    reveal_strlit("</open-checksum>\n    <location href=\"");
    reveal_strlit("\"/>\n    <timestamp>");
    reveal_strlit("</timestamp>\n    <size>");
    reveal_strlit("</size>\n    <open-size>");
    reveal_strlit("</open-size>\n  </data>\n");
    reveal_strlit(
        "<?xml version=\"1.0\" encoding=\"UTF-8\"?>\n<repomd xmlns=\"http://linux.duke.edu/metadata/repo\" xmlns:rpm=\"http://linux.duke.edu/metadata/rpm\">\n  <revision>",
    );
    reveal_strlit("</revision>\n");
    reveal_strlit("</repomd>\n");
}

proof fn lemma_legal_entry(doc: Document, sorted: Seq<Pkg>, revision: u64)
    ensures
        xml::legal(repomd_entry(repodata_file(doc, sorted), revision)),
{
    broadcast use {xml::lemma_legal_concat, xml::decimal_is_legal};

    reveal(repodata_file);
    lemma_repomd_literals();
    let content = utf8(repodata::document(doc, sorted));
    repodata::lemma_hex_is_legal(digest::sha256(content));
    repodata::lemma_hex_is_legal(digest::sha256(digest::gzipped(content)));
}

/// `repomd.xml` is the last write of a rebuild, and every document that it
/// refers to is written before it.
pub proof fn repomd_is_written_last(repo: Seq<char>, files: Seq<MetaFile>, revision: u64)
    ensures
        update_writes(repo, files, revision).len() == files.len() + 1,
        update_writes(repo, files, revision).last() == (
            repomd_path(repo),
            utf8(repomd(files, revision)),
        ),
        forall|i: int|
            0 <= i < files.len() ==> #[trigger] update_writes(repo, files, revision)[i] == (
                file_path(repo, files[i]),
                files[i].gz,
            ),
{
}

/// Pruning spares `repomd.xml`, its signature, and the current documents.
pub proof fn current_metadata_is_not_pruned(repo: Seq<char>, files: Seq<MetaFile>, i: int)
    requires
        0 <= i < files.len(),
    ensures
        !is_stale(file_path(repo, files[i]), repo, files),
        !is_stale(repomd_path(repo), repo, files),
        !is_stale(repomd_path(repo) + ".asc"@, repo, files),
{
    assert(file_paths(repo, files)[i] == file_path(repo, files[i]));
    reveal_strlit("/repodata/repomd.xml");
    reveal_strlit("repomd.xml");
    reveal_strlit("repomd.xml.asc");
    reveal_strlit(".asc");
    let key = repomd_path(repo);
    assert("repomd.xml"@ =~= key.subrange(key.len() - 10, key.len() as int));
    let asc = key + ".asc"@;
    assert("repomd.xml.asc"@ =~= asc.subrange(asc.len() - 14, asc.len() as int));
}

/// A rebuild writes to its own repository alone.
pub proof fn rebuilds_stay_in_their_repository(
    repo: Seq<char>,
    files: Seq<MetaFile>,
    revision: u64,
    k: int,
)
    requires
        0 <= k < update_writes(repo, files, revision).len(),
    ensures
        rpm_repo::repo_prefix(repo).is_prefix_of(update_writes(repo, files, revision)[k].0),
        rpm_repo::repo_prefix(repo).is_prefix_of(repomd_path(repo) + ".asc"@),
{
    reveal_strlit("/");
    reveal_strlit("/repodata/repomd.xml");
    let p = rpm_repo::repo_prefix(repo);
    let key = update_writes(repo, files, revision)[k].0;
    assert(repomd_path(repo).subrange(0, p.len() as int) =~= p);
    assert((repomd_path(repo) + ".asc"@).subrange(0, p.len() as int) =~= p);
    assert(key.subrange(0, p.len() as int) =~= p);
}

} // verus!
