//! Versions of hosted rpm and deb packages, read from metadata sidecars.
//!
//! The sidecar `{format}/{repo}/.nora-meta/{path}.json` describes the package
//! file `{format}/{repo}/{path}`. A sidecar that cannot be read, or that
//! describes another file, yields no version, so its package is kept.

use vstd::prelude::*;

use crate::collect;
use crate::grouping;
use crate::json::{self, Json, JsonTree};
use crate::order;
use crate::retention::{self, Version, VersionEntry};
use crate::table::{FileMeta, FileTable, StatTable};
use crate::text;

verus! {

/// The package formats with sidecars.
#[derive(Debug, Clone, Copy, PartialEq, Eq, Structural)]
pub enum Format {
    Rpm,
    Deb,
}

/// The name of the format's registry.
pub open spec fn format_name(format: Format) -> Seq<char> {
    match format {
        Format::Rpm => "rpm"@,
        Format::Deb => "deb"@,
    }
}

/// What a sidecar says of its package.
pub struct SidecarVersion {
    pub package: String,
    pub version: String,
    /// Architecture, an axis of grouping of its own.
    pub arch: String,
    /// Path of the package file in the repository.
    pub href: String,
    pub size: u64,
    /// Time of the upload, where the sidecar has it.
    pub modified: Option<u64>,
    /// `{distribution}/{component}` of a package in a structured layout.
    pub placement: Option<String>,
}

/// What a [`SidecarVersion`] holds.
pub struct Sidecar {
    pub package: Seq<char>,
    pub version: Seq<char>,
    pub arch: Seq<char>,
    pub href: Seq<char>,
    pub size: u64,
    pub modified: Option<u64>,
    pub placement: Option<Seq<char>>,
}

impl View for SidecarVersion {
    type V = Sidecar;

    open spec fn view(&self) -> Sidecar {
        Sidecar {
            package: self.package@,
            version: self.version@,
            arch: self.arch@,
            href: self.href@,
            size: self.size,
            modified: self.modified,
            placement: match self.placement {
                Some(p) => Some(p@),
                None => None,
            },
        }
    }
}

/// The text of a member; empty where the document has no such text.
pub open spec fn text_or_empty(doc: JsonTree, name: Seq<char>) -> Seq<char> {
    match json::text_member(doc, name) {
        Some(s) => s,
        None => Seq::empty(),
    }
}

/// The number of a member; zero where the document has no such number.
pub open spec fn number_or_zero(doc: JsonTree, name: Seq<char>) -> u64 {
    match json::as_unsigned(json::member(doc, name)) {
        Some(n) => n,
        None => 0,
    }
}

/// What an rpm sidecar says.
pub open spec fn rpm_sidecar(doc: JsonTree) -> Sidecar {
    Sidecar {
        package: text_or_empty(doc, "name"@),
        version: text_or_empty(doc, "version"@) + "-"@ + text_or_empty(doc, "release"@) + "."@
            + text_or_empty(doc, "arch"@),
        arch: text_or_empty(doc, "arch"@),
        href: text_or_empty(doc, "href"@),
        size: number_or_zero(doc, "size_package"@),
        modified: json::as_unsigned(json::member(doc, "file_time"@)),
        placement: None,
    }
}

/// The placement that a deb sidecar gives.
pub open spec fn deb_placement(doc: JsonTree) -> Option<Seq<char>> {
    match json::member(doc, "placement"@) {
        Some(p) => match (
            json::text_member(p, "distribution"@),
            json::text_member(p, "component"@),
        ) {
            (Some(d), Some(c)) => Some(d + "/"@ + c),
            _ => None,
        },
        None => None,
    }
}

/// What a deb sidecar says. It carries no time of upload.
pub open spec fn deb_sidecar(doc: JsonTree) -> Sidecar {
    Sidecar {
        package: text_or_empty(doc, "package"@),
        version: text_or_empty(doc, "version"@) + "_"@ + text_or_empty(doc, "arch"@),
        arch: text_or_empty(doc, "arch"@),
        href: text_or_empty(doc, "filename"@),
        size: number_or_zero(doc, "size"@),
        modified: None,
        placement: deb_placement(doc),
    }
}

/// What a sidecar of the format says.
pub open spec fn described(format: Format, doc: JsonTree) -> Sidecar {
    match format {
        Format::Rpm => rpm_sidecar(doc),
        Format::Deb => deb_sidecar(doc),
    }
}

/// The repository and the package path that a sidecar key is for.
pub open spec fn sidecar_target(format: Format, key: Seq<char>) -> Option<(Seq<char>, Seq<char>)> {
    match text::without_prefix(key, format_name(format) + "/"@) {
        Some(rest) => match text::halves(rest, "/.nora-meta/"@) {
            Some((repo, meta)) => match text::without_suffix(meta, ".json"@) {
                Some(path) => Some((repo, path)),
                None => None,
            },
            None => None,
        },
        None => None,
    }
}

/// The group that a package is in: per repository, placement and architecture.
pub open spec fn sidecar_group(format: Format, repo: Seq<char>, s: Sidecar) -> Seq<char> {
    let head = format_name(format) + ":"@ + repo + "/"@;
    let scope = match s.placement {
        Some(p) => head + p + "/"@,
        None => head,
    };
    scope + s.arch + "/"@ + s.package
}

/// The version that a sidecar stands for: the package file and the sidecar.
pub open spec fn sidecar_version(
    format: Format,
    key: Seq<char>,
    repo: Seq<char>,
    path: Seq<char>,
    s: Sidecar,
    stats: Map<Seq<char>, FileMeta>,
) -> Version {
    Version {
        name: s.version,
        keys: seq![format_name(format) + "/"@ + repo + "/"@ + path, key],
        modified: match s.modified {
            Some(m) => m,
            None => if stats.contains_key(key) {
                stats[key].modified
            } else {
                0
            },
        },
        size: s.size,
    }
}

/// The group and version that the document under a key stands for: none unless
/// the key is a sidecar's and the document describes its package.
pub open spec fn sidecar_entry(
    format: Format,
    key: Seq<char>,
    doc: JsonTree,
    stats: Map<Seq<char>, FileMeta>,
) -> Option<(Seq<char>, Version)> {
    match sidecar_target(format, key) {
        Some((repo, path)) => {
            let s = described(format, doc);
            if s.package.len() == 0 || s.href != path {
                None
            } else {
                Some(
                    (
                        sidecar_group(format, repo, s),
                        sidecar_version(format, key, repo, path, s, stats),
                    ),
                )
            }
        },
        None => None,
    }
}

/// The group and version of a key, given what was read from storage.
pub open spec fn sidecar_row(
    format: Format,
    key: Seq<char>,
    files: Map<Seq<char>, Vec<u8>>,
    stats: Map<Seq<char>, FileMeta>,
) -> Option<(Seq<char>, Version)> {
    if files.contains_key(key) {
        match json::parsed(files[key]@) {
            Some(doc) => sidecar_entry(format, key, doc, stats),
            None => None,
        }
    } else {
        None
    }
}

/// The groups and versions of the keys, in their order.
pub open spec fn sidecar_rows(
    format: Format,
    keys: Seq<Seq<char>>,
    files: Map<Seq<char>, Vec<u8>>,
    stats: Map<Seq<char>, FileMeta>,
) -> Seq<(Seq<char>, Version)>
    decreases keys.len(),
{
    if keys.len() == 0 {
        Seq::empty()
    } else {
        let before = sidecar_rows(format, keys.drop_last(), files, stats);
        match sidecar_row(format, keys.last(), files, stats) {
            Some(row) => before.push(row),
            None => before,
        }
    }
}

/// The groups of the rows.
pub open spec fn row_groups(rows: Seq<(Seq<char>, Version)>) -> Seq<Seq<char>> {
    rows.map_values(|r: (Seq<char>, Version)| r.0)
}

/// The versions of the rows.
pub open spec fn row_versions(rows: Seq<(Seq<char>, Version)>) -> Seq<Version> {
    rows.map_values(|r: (Seq<char>, Version)| r.1)
}

/// The rows gathered by group.
pub open spec fn gathered(rows: Seq<(Seq<char>, Version)>) -> Seq<(Seq<char>, Seq<Version>)> {
    grouping::distinct(row_groups(rows)).map_values(
        |g: Seq<char>| (g, grouping::with_name(row_versions(rows), row_groups(rows), g)),
    )
}

/// The groups of a format with their versions.
pub open spec fn collected_sidecars(
    format: Format,
    keys: Seq<Seq<char>>,
    files: Map<Seq<char>, Vec<u8>>,
    stats: Map<Seq<char>, FileMeta>,
) -> Seq<(Seq<char>, Seq<Version>)> {
    gathered(sidecar_rows(format, keys, files, stats))
}

/// The name of the format's registry.
pub fn format_text(format: Format) -> (r: &'static str)
    ensures
        r@ == format_name(format),
{
    match format {
        Format::Rpm => "rpm",
        Format::Deb => "deb",
    }
}

fn text_or(j: &Json, name: &str) -> (r: String)
    ensures
        r@ == text_or_empty(j@, name@),
{
    match json::get_text(j, name) {
        Some(s) => s.to_owned(),
        None => String::new(),
    }
}

fn number_or(j: &Json, name: &str) -> (r: u64)
    ensures
        r == number_or_zero(j@, name@),
{
    match json::get_unsigned(j, name) {
        Some(n) => n,
        None => 0,
    }
}

fn placement_text(j: &Json) -> (r: Option<String>)
    ensures
        match r {
            Some(p) => deb_placement(j@) == Some(p@),
            None => deb_placement(j@) is None,
        },
{
    let p = json::get(j, "placement")?;
    let d = json::get_text(p, "distribution")?;
    let c = json::get_text(p, "component")?;
    Some(text::concat3(d, "/", c))
}

/// What a sidecar document of the format says.
pub fn describe_sidecar(format: Format, j: &Json) -> (r: SidecarVersion)
    ensures
        r@ == described(format, j@),
{
    match format {
        Format::Rpm => {
            let release = text_or(j, "release");
            let arch = text_or(j, "arch");
            let mut version = text_or(j, "version");
            version.append("-");
            version.append(release.as_str());
            version.append(".");
            version.append(arch.as_str());
            SidecarVersion {
                package: text_or(j, "name"),
                version,
                arch,
                href: text_or(j, "href"),
                size: number_or(j, "size_package"),
                modified: json::get_unsigned(j, "file_time"),
                placement: None,
            }
        },
        Format::Deb => {
            let arch = text_or(j, "arch");
            let mut version = text_or(j, "version");
            version.append("_");
            version.append(arch.as_str());
            SidecarVersion {
                package: text_or(j, "package"),
                version,
                arch,
                href: text_or(j, "filename"),
                size: number_or(j, "size"),
                modified: None,
                placement: placement_text(j),
            }
        },
    }
}

/// The repository and the package path that a sidecar key is for.
pub fn target_of<'a>(format: Format, key: &'a str) -> (r: Option<(&'a str, &'a str)>)
    ensures
        match r {
            Some((repo, path)) => sidecar_target(format, key@) == Some((repo@, path@)),
            None => sidecar_target(format, key@) is None,
        },
{
    let prefix = text::concat2(format_text(format), "/");
    let rest = text::strip_prefix(key, prefix.as_str())?;
    let (repo, meta) = text::split_once(rest, "/.nora-meta/")?;
    let path = text::strip_suffix(meta, ".json")?;
    Some((repo, path))
}

/// The keys of the listing that are sidecars: those whose content a collection
/// needs.
pub fn sidecar_keys(format: Format, keys: &Vec<String>) -> (r: Vec<String>)
    ensures
        text::texts(r@) == text::texts(keys@).filter(
            |k: Seq<char>| sidecar_target(format, k) is Some,
        ),
{
    let ghost all = text::texts(keys@);
    let ghost is_sidecar = |k: Seq<char>| sidecar_target(format, k) is Some;
    let mut r: Vec<String> = Vec::new();
    let mut i: usize = 0;
    proof {
        reveal(Seq::filter);
        assert(text::texts(r@) =~= all.take(0).filter(is_sidecar));
    }
    while i < keys.len()
        invariant
            i <= keys@.len(),
            all == text::texts(keys@),
            is_sidecar == (|k: Seq<char>| sidecar_target(format, k) is Some),
            text::texts(r@) == all.take(i as int).filter(is_sidecar),
        decreases keys@.len() - i,
    {
        let ghost before = r@;
        proof {
            reveal(Seq::filter);
            assert(all.take(i + 1).drop_last() =~= all.take(i as int));
            assert(all.take(i + 1).last() == keys@[i as int]@);
        }
        if target_of(format, keys[i].as_str()).is_some() {
            r.push(keys[i].clone());
            proof {
                assert(text::texts(r@) =~= text::texts(before).push(keys@[i as int]@));
            }
        }
        i = i + 1;
    }
    proof {
        assert(all.take(i as int) =~= all);
    }
    r
}

fn group_text(format: Format, repo: &str, s: &SidecarVersion) -> (r: String)
    ensures
        r@ == sidecar_group(format, repo@, s@),
{
    let mut r = text::concat4(format_text(format), ":", repo, "/");
    if let Some(p) = &s.placement {
        r.append(p.as_str());
        r.append("/");
    }
    r.append(s.arch.as_str());
    r.append("/");
    r.append(s.package.as_str());
    r
}

/// The group and version that the document under a key stands for.
pub fn read_sidecar(format: Format, key: &str, doc: &Json, stats: &StatTable) -> (r: Option<
    (String, VersionEntry),
>)
    ensures
        match r {
            Some((group, entry)) => sidecar_entry(format, key@, doc@, stats@) == Some(
                (group@, entry@),
            ),
            None => sidecar_entry(format, key@, doc@, stats@) is None,
        },
{
    let (repo, path) = target_of(format, key)?;
    let s = describe_sidecar(format, doc);
    if s.package.as_str().unicode_len() == 0 || !text::same(s.href.as_str(), path) {
        return None;
    }
    let group = group_text(format, repo, &s);
    let modified = match s.modified {
        Some(m) => m,
        None => match stats.get(key) {
            Some(meta) => meta.modified,
            None => 0,
        },
    };
    let mut package_key = text::concat4(format_text(format), "/", repo, "/");
    package_key.append(path);
    let mut keys: Vec<String> = Vec::new();
    keys.push(package_key);
    keys.push(key.to_owned());
    let ghost want = sidecar_version(format, key@, repo@, path@, s@, stats@);
    let entry = VersionEntry { name: s.version, keys, modified, size: s.size };
    proof {
        assert(entry@.keys =~= want.keys);
    }
    Some((group, entry))
}

/// Copies a version.
pub fn copy_entry(e: &VersionEntry) -> (r: VersionEntry)
    ensures
        r@ == e@,
{
    VersionEntry {
        name: e.name.clone(),
        keys: retention::clone_texts(&e.keys),
        modified: e.modified,
        size: e.size,
    }
}

/// What a list of rows holds.
pub open spec fn rows_of(v: Seq<(String, VersionEntry)>) -> Seq<(Seq<char>, Version)> {
    v.map_values(|r: (String, VersionEntry)| (r.0@, r.1@))
}

/// Gathers rows by group.
pub fn gather(rows: &Vec<(String, VersionEntry)>) -> (r: Vec<(String, Vec<VersionEntry>)>)
    ensures
        collect::groups_of(r@) == gathered(rows_of(rows@)),
{
    let ghost all = rows_of(rows@);
    let ghost column = row_groups(all);
    let mut names: Vec<String> = Vec::new();
    let mut i: usize = 0;
    while i < rows.len()
        invariant
            i <= rows@.len(),
            all == rows_of(rows@),
            names@.len() == i,
            forall|q: int| 0 <= q < i ==> (#[trigger] names@[q])@ == all[q].0,
        decreases rows@.len() - i,
    {
        names.push(rows[i].0.clone());
        i = i + 1;
    }
    proof {
        assert(text::texts(names@) =~= column);
    }
    let buckets = grouping::group_names(&names);
    let mut r: Vec<(String, Vec<VersionEntry>)> = Vec::new();
    let mut b: usize = 0;
    while b < buckets.len()
        invariant
            b <= buckets@.len(),
            all == rows_of(rows@),
            column == row_groups(all),
            grouping::bucket_names(buckets@) == grouping::distinct(column),
            forall|k: int|
                0 <= k < buckets@.len() ==> order::ints((#[trigger] buckets@[k]).places@)
                    == grouping::places(column, buckets@[k].name@),
            r@.len() == b,
            forall|q: int|
                0 <= q < b ==> (#[trigger] r@[q]).0@ == buckets@[q].name@
                    && retention::versions_of(r@[q].1@) == grouping::with_name(
                    row_versions(all),
                    column,
                    buckets@[q].name@,
                ),
        decreases buckets@.len() - b,
    {
        let bucket = &buckets[b];
        let ghost at = grouping::places(column, bucket.name@);
        proof {
            grouping::lemma_places(column, bucket.name@);
            assert(at.len() == bucket.places@.len());
        }
        let mut versions: Vec<VersionEntry> = Vec::new();
        let mut k: usize = 0;
        while k < bucket.places.len()
            invariant
                k <= bucket.places@.len(),
                at == order::ints(bucket.places@),
                at.len() == bucket.places@.len(),
                all == rows_of(rows@),
                column == row_groups(all),
                forall|q: int| 0 <= q < at.len() ==> 0 <= #[trigger] at[q] < column.len(),
                versions@.len() == k,
                forall|q: int| 0 <= q < k ==> (#[trigger] versions@[q])@ == all[at[q]].1,
            decreases bucket.places@.len() - k,
        {
            proof {
                assert(at[k as int] == bucket.places@[k as int]);
            }
            versions.push(copy_entry(&rows[bucket.places[k]].1));
            k = k + 1;
        }
        proof {
            assert(retention::versions_of(versions@) =~= grouping::with_name(
                row_versions(all),
                column,
                bucket.name@,
            ));
        }
        r.push((bucket.name.clone(), versions));
        b = b + 1;
    }
    proof {
        assert(grouping::bucket_names(buckets@).len() == buckets@.len());
        assert forall|q: int| 0 <= q < r@.len() implies (
            (#[trigger] r@[q]).0@,
            retention::versions_of(r@[q].1@),
        ) == gathered(all)[q] by {
            assert(grouping::bucket_names(buckets@)[q] == buckets@[q].name@);
        }
        assert(collect::groups_of(r@) =~= gathered(all));
    }
    r
}

/// The groups of a format with their versions, from the listing of its keys,
/// the sidecars that could be read, and the times of sidecars.
pub fn collect_sidecar_versions(
    format: Format,
    keys: &Vec<String>,
    files: &FileTable,
    stats: &StatTable,
) -> (r: Vec<(String, Vec<VersionEntry>)>)
    ensures
        collect::groups_of(r@) == collected_sidecars(
            format,
            text::texts(keys@),
            files@,
            stats@,
        ),
{
    let ghost all = text::texts(keys@);
    let mut rows: Vec<(String, VersionEntry)> = Vec::new();
    let mut i: usize = 0;
    proof {
        assert(rows_of(rows@) =~= sidecar_rows(format, all.take(0), files@, stats@));
    }
    while i < keys.len()
        invariant
            i <= keys@.len(),
            all == text::texts(keys@),
            rows_of(rows@) == sidecar_rows(format, all.take(i as int), files@, stats@),
        decreases keys@.len() - i,
    {
        let ghost before = rows@;
        proof {
            assert(all.take(i + 1).drop_last() =~= all.take(i as int));
            assert(all.take(i + 1).last() == keys@[i as int]@);
        }
        if let Some(data) = files.get(keys[i].as_str()) {
            if let Some(doc) = json::parse_json(data.as_slice()) {
                if let Some(row) = read_sidecar(format, keys[i].as_str(), &doc, stats) {
                    rows.push(row);
                    proof {
                        assert(rows_of(rows@) =~= rows_of(before).push((row.0@, row.1@)));
                    }
                }
            }
        }
        i = i + 1;
    }
    proof {
        assert(all.take(i as int) =~= all);
    }
    gather(&rows)
}


/// The rpm package versions per repository, architecture and package.
pub fn collect_rpm_versions(keys: &Vec<String>, files: &FileTable, stats: &StatTable) -> (r: Vec<
    (String, Vec<VersionEntry>),
>)
    ensures
        collect::groups_of(r@) == collected_sidecars(
            Format::Rpm,
            text::texts(keys@),
            files@,
            stats@,
        ),
{
    collect_sidecar_versions(Format::Rpm, keys, files, stats)
}

/// The deb package versions per repository, placement, architecture and package.
pub fn collect_deb_versions(keys: &Vec<String>, files: &FileTable, stats: &StatTable) -> (r: Vec<
    (String, Vec<VersionEntry>),
>)
    ensures
        collect::groups_of(r@) == collected_sidecars(
            Format::Deb,
            text::texts(keys@),
            files@,
            stats@,
        ),
{
    collect_sidecar_versions(Format::Deb, keys, files, stats)
}

/// A sidecar that is no document, or that does not name its package, or that
/// describes another file, yields no version: the package is kept.
pub proof fn mismatched_sidecars_yield_nothing(
    format: Format,
    key: Seq<char>,
    files: Map<Seq<char>, Vec<u8>>,
    stats: Map<Seq<char>, FileMeta>,
)
    requires
        !files.contains_key(key) || match json::parsed(files[key]@) {
            None => true,
            Some(doc) => described(format, doc).package.len() == 0 || (sidecar_target(format, key)
                matches Some((repo, path)) ==> described(format, doc).href != path),
        },
    ensures
        sidecar_row(format, key, files, stats) is None,
{
}

} // verus!
