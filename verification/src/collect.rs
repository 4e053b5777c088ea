//! Collecting the versions of each registry from a listing of its keys.
//!
//! A key belongs to a [`Place`]: a group, as `maven:org/lib`, and a version in
//! it. Maven, Cargo, Go and raw versions are made of all the keys of a place;
//! a Docker tag, an npm tarball and a PyPI file is a version of its own, the
//! last two with their checksum file.

use vstd::prelude::*;

use crate::grouping;
use crate::order;
use crate::retention::{self, Version, VersionEntry};
use crate::table::{FileMeta, StatTable};
use crate::text;

verus! {

/// The registries whose versions are read off the keys.
#[derive(Debug, Clone, Copy, PartialEq, Eq, Structural)]
pub enum Registry {
    Maven,
    Docker,
    Npm,
    Pypi,
    Cargo,
    Go,
    Raw,
}

/// Where a key belongs.
pub struct Place {
    pub group: Seq<char>,
    pub version: Seq<char>,
}

/// A key and where it belongs.
pub struct Row {
    pub group: String,
    pub version: String,
    pub key: String,
}

/// What a [`Row`] holds.
pub struct Placed {
    pub group: Seq<char>,
    pub version: Seq<char>,
    pub key: Seq<char>,
}

impl View for Row {
    type V = Placed;

    open spec fn view(&self) -> Placed {
        Placed { group: self.group@, version: self.version@, key: self.key@ }
    }
}

/// `maven/{group...}/{artifact}/{version}/{file}`, but for the artifact's own
/// `maven-metadata` files.
pub open spec fn maven_place(key: Seq<char>) -> Option<Place> {
    match text::without_prefix(key, "maven/"@) {
        Some(rest) => {
            let parts = text::pieces(rest, '/');
            let n = parts.len() as int;
            if n < 4 || "maven-metadata"@.is_prefix_of(parts[n - 1]) {
                None
            } else {
                Some(
                    Place {
                        group: "maven:"@ + text::joined(parts.take(n - 2), "/"@),
                        version: parts[n - 2],
                    },
                )
            }
        },
        None => None,
    }
}

/// `docker/{repo}/manifests/{tag}.json`, but for `.meta.json`.
pub open spec fn docker_place(key: Seq<char>) -> Option<Place> {
    match text::without_prefix(key, "docker/"@) {
        Some(rest) => match text::halves(rest, "/manifests/"@) {
            Some((repo, file)) => if text::ends_ci(file, ".json"@) && !text::ends_ci(
                file,
                ".meta.json"@,
            ) {
                Some(
                    Place {
                        group: "docker:"@ + repo,
                        version: match text::without_suffix(file, ".json"@) {
                            Some(tag) => tag,
                            None => file,
                        },
                    },
                )
            } else {
                None
            },
            None => None,
        },
        None => None,
    }
}

/// `npm/{package}/tarballs/{file}`, but for checksums and metadata.
pub open spec fn npm_place(key: Seq<char>) -> Option<Place> {
    match text::without_prefix(key, "npm/"@) {
        Some(rest) => match text::halves(rest, "/tarballs/"@) {
            Some((package, _)) => if package.len() > 0 && !text::ends_ci(key, ".sha256"@)
                && !text::ends_ci(key, "/metadata.json"@) {
                Some(Place { group: "npm:"@ + package, version: text::tail_after(key, '/') })
            } else {
                None
            },
            None => None,
        },
        None => None,
    }
}

/// The key is a checksum of one of the four kinds.
pub open spec fn is_checksum(key: Seq<char>) -> bool {
    ||| text::ends_ci(key, ".md5"@)
    ||| text::ends_ci(key, ".sha1"@)
    ||| text::ends_ci(key, ".sha256"@)
    ||| text::ends_ci(key, ".sha512"@)
}

/// `pypi/{package}/{file}`, but for checksums and metadata.
pub open spec fn pypi_place(key: Seq<char>) -> Option<Place> {
    match text::without_prefix(key, "pypi/"@) {
        Some(rest) => {
            let package = text::pieces(rest, '/')[0];
            if package.len() > 0 && !is_checksum(key) && !text::ends_ci(key, "/metadata.json"@) {
                Some(Place { group: "pypi:"@ + package, version: text::tail_after(key, '/') })
            } else {
                None
            }
        },
        None => None,
    }
}

/// `cargo/{crate}/{version}/{file}`, but for the index, its per-version entries
/// and metadata.
pub open spec fn cargo_place(key: Seq<char>) -> Option<Place> {
    match text::without_prefix(key, "cargo/"@) {
        Some(rest) => {
            let parts = text::pieces(rest, '/');
            if "index/"@.is_prefix_of(rest) || "index-entries/"@.is_prefix_of(rest) || parts.len()
                < 3 || parts[0] == "index"@ || parts[1] == "metadata.json"@ {
                None
            } else {
                Some(Place { group: "cargo:"@ + parts[0], version: parts[1] })
            }
        },
        None => None,
    }
}

/// The version that a Go module file is of: its name without `.info`, `.mod`
/// or `.zip`.
pub open spec fn go_version(file: Seq<char>) -> Option<Seq<char>> {
    match text::without_suffix(file, ".info"@) {
        Some(v) => Some(v),
        None => match text::without_suffix(file, ".mod"@) {
            Some(v) => Some(v),
            None => text::without_suffix(file, ".zip"@),
        },
    }
}

/// `go/{module}/@v/{version}.{info|mod|zip}`.
pub open spec fn go_place(key: Seq<char>) -> Option<Place> {
    match text::halves(key, "/@v/"@) {
        Some((path, file)) => match go_version(file) {
            Some(version) => Some(
                Place { group: "go:"@ + path.subrange(3, path.len() as int), version },
            ),
            None => None,
        },
        None => None,
    }
}

/// A key with a Go version directory names a module before it.
pub open spec fn go_key_ok(key: Seq<char>) -> bool {
    text::first_of(key, "/@v/"@) matches Some(i) ==> i >= 3
}

/// `raw/{top}/{version}/…`, or a file directly under `raw/{top}/`.
pub open spec fn raw_place(key: Seq<char>) -> Option<Place> {
    match text::without_prefix(key, "raw/"@) {
        Some(rest) => {
            let parts = text::pieces(rest, '/');
            if parts.len() < 2 {
                None
            } else {
                Some(Place { group: "raw:"@ + parts[0], version: parts[1] })
            }
        },
        None => None,
    }
}

/// Where a key of the registry belongs; nowhere if it is no part of a version.
pub open spec fn place(registry: Registry, key: Seq<char>) -> Option<Place> {
    match registry {
        Registry::Maven => maven_place(key),
        Registry::Docker => docker_place(key),
        Registry::Npm => npm_place(key),
        Registry::Pypi => pypi_place(key),
        Registry::Cargo => cargo_place(key),
        Registry::Go => go_place(key),
        Registry::Raw => raw_place(key),
    }
}

/// The keys that belong somewhere, each with where.
pub open spec fn rows(registry: Registry, keys: Seq<Seq<char>>) -> Seq<Placed>
    decreases keys.len(),
{
    if keys.len() == 0 {
        Seq::empty()
    } else {
        let before = rows(registry, keys.drop_last());
        match place(registry, keys.last()) {
            Some(p) => before.push(
                Placed { group: p.group, version: p.version, key: keys.last() },
            ),
            None => before,
        }
    }
}

/// All keys of a place make up one version.
pub open spec fn merges(registry: Registry) -> bool {
    registry == Registry::Maven || registry == Registry::Cargo || registry == Registry::Go
        || registry == Registry::Raw
}

/// The checksum file of an artifact goes with it.
pub open spec fn takes_checksum(registry: Registry) -> bool {
    registry == Registry::Npm || registry == Registry::Pypi
}

/// The latest modification of the keys; zero where none could be read.
pub open spec fn latest(keys: Seq<Seq<char>>, stats: Map<Seq<char>, FileMeta>) -> u64
    decreases keys.len(),
{
    if keys.len() == 0 {
        0
    } else {
        let before = latest(keys.drop_last(), stats);
        if stats.contains_key(keys.last()) && stats[keys.last()].modified > before {
            stats[keys.last()].modified
        } else {
            before
        }
    }
}

/// The size of the keys that could be read.
pub open spec fn total_size(keys: Seq<Seq<char>>, stats: Map<Seq<char>, FileMeta>) -> nat
    decreases keys.len(),
{
    if keys.len() == 0 {
        0
    } else {
        total_size(keys.drop_last(), stats) + if stats.contains_key(keys.last()) {
            stats[keys.last()].size as nat
        } else {
            0
        }
    }
}

/// The version that is made of the keys.
pub open spec fn version_of(
    name: Seq<char>,
    keys: Seq<Seq<char>>,
    stats: Map<Seq<char>, FileMeta>,
) -> Version {
    Version {
        name,
        keys,
        modified: latest(keys, stats),
        size: total_size(keys, stats) as u64,
    }
}

/// The keys of the version that one key is: the key, and its checksum file
/// where the registry has them and one is there.
pub open spec fn keys_of_single(
    registry: Registry,
    key: Seq<char>,
    stats: Map<Seq<char>, FileMeta>,
) -> Seq<Seq<char>> {
    if takes_checksum(registry) && stats.contains_key(key + ".sha256"@) {
        seq![key, key + ".sha256"@]
    } else {
        seq![key]
    }
}

/// The version that one key is, with its checksum file.
pub open spec fn single_version(
    registry: Registry,
    row: Placed,
    stats: Map<Seq<char>, FileMeta>,
) -> Version {
    version_of(row.version, keys_of_single(registry, row.key, stats), stats)
}

/// The names of the versions that the rows are of.
pub open spec fn version_names(rows: Seq<Placed>) -> Seq<Seq<char>> {
    rows.map_values(|r: Placed| r.version)
}

/// The names of the groups that the rows are of.
pub open spec fn group_column(rows: Seq<Placed>) -> Seq<Seq<char>> {
    rows.map_values(|r: Placed| r.group)
}

/// The keys of the rows.
pub open spec fn key_column(rows: Seq<Placed>) -> Seq<Seq<char>> {
    rows.map_values(|r: Placed| r.key)
}

/// The versions of a group, given its rows.
pub open spec fn versions_in(
    registry: Registry,
    rows: Seq<Placed>,
    stats: Map<Seq<char>, FileMeta>,
) -> Seq<Version> {
    if merges(registry) {
        grouping::distinct(version_names(rows)).map_values(
            |v: Seq<char>|
                version_of(
                    v,
                    grouping::with_name(key_column(rows), version_names(rows), v),
                    stats,
                ),
        )
    } else {
        rows.map_values(|r: Placed| single_version(registry, r, stats))
    }
}

/// The groups of a registry with their versions.
pub open spec fn collected(
    registry: Registry,
    keys: Seq<Seq<char>>,
    stats: Map<Seq<char>, FileMeta>,
) -> Seq<(Seq<char>, Seq<Version>)> {
    let all = rows(registry, keys);
    grouping::distinct(group_column(all)).map_values(
        |g: Seq<char>|
            (g, versions_in(registry, grouping::with_name(all, group_column(all), g), stats)),
    )
}

/// The size of each version that the rows of a group make up fits in 64 bits.
pub open spec fn group_fits(
    registry: Registry,
    rows: Seq<Placed>,
    stats: Map<Seq<char>, FileMeta>,
) -> bool {
    if merges(registry) {
        forall|v: int|
            0 <= v < grouping::distinct(version_names(rows)).len() ==> total_size(
                grouping::with_name(
                    key_column(rows),
                    version_names(rows),
                    #[trigger] grouping::distinct(version_names(rows))[v],
                ),
                stats,
            ) <= u64::MAX
    } else {
        forall|v: int|
            0 <= v < rows.len() ==> total_size(
                keys_of_single(registry, (#[trigger] rows[v]).key, stats),
                stats,
            ) <= u64::MAX
    }
}

/// The size of each version of a registry fits in 64 bits.
pub open spec fn sizes_ok(
    registry: Registry,
    keys: Seq<Seq<char>>,
    stats: Map<Seq<char>, FileMeta>,
) -> bool {
    let all = rows(registry, keys);
    forall|g: int|
        0 <= g < grouping::distinct(group_column(all)).len() ==> group_fits(
            registry,
            grouping::with_name(
                all,
                group_column(all),
                #[trigger] grouping::distinct(group_column(all))[g],
            ),
            stats,
        )
}

/// What a list of groups holds.
pub open spec fn groups_of(v: Seq<(String, Vec<VersionEntry>)>) -> Seq<(Seq<char>, Seq<Version>)> {
    v.map_values(|g: (String, Vec<VersionEntry>)| (g.0@, retention::versions_of(g.1@)))
}

/// Latest modification and total size of the keys that could be read. There is
/// none where the size does not fit in 64 bits.
pub fn aggregate_meta(stats: &StatTable, keys: &[String]) -> (r: Option<(u64, u64)>)
    ensures
        match r {
            Some((modified, size)) => modified == latest(text::texts(keys@), stats@) && size
                == total_size(text::texts(keys@), stats@),
            None => total_size(text::texts(keys@), stats@) > u64::MAX,
        },
{
    let ghost all = text::texts(keys@);
    let mut modified: u64 = 0;
    let mut size: u64 = 0;
    let mut i: usize = 0;
    while i < keys.len()
        invariant
            i <= keys@.len(),
            all == text::texts(keys@),
            modified == latest(all.take(i as int), stats@),
            size == total_size(all.take(i as int), stats@),
        decreases keys@.len() - i,
    {
        proof {
            assert(all.take(i + 1).drop_last() =~= all.take(i as int));
            lemma_total_size_grows(all, stats@, i + 1);
        }
        if let Some(meta) = stats.get(keys[i].as_str()) {
            if meta.modified > modified {
                modified = meta.modified;
            }
            size = size.checked_add(meta.size)?;
        }
        i = i + 1;
    }
    proof {
        assert(all.take(i as int) =~= all);
    }
    Some((modified, size))
}

proof fn lemma_total_size_grows(
    keys: Seq<Seq<char>>,
    stats: Map<Seq<char>, FileMeta>,
    n: int,
)
    requires
        0 <= n <= keys.len(),
    ensures
        total_size(keys.take(n), stats) <= total_size(keys, stats),
    decreases keys.len(),
{
    if n == keys.len() {
        assert(keys.take(n) =~= keys);
    } else {
        lemma_total_size_grows(keys.drop_last(), stats, n);
        assert(keys.drop_last().take(n) =~= keys.take(n));
    }
}

/// `r` is the place `p`, where there is one.
pub open spec fn is_place(r: Option<(String, String)>, p: Option<Place>) -> bool {
    match r {
        Some((group, version)) => p == Some(Place { group: group@, version: version@ }),
        None => p is None,
    }
}

fn place_maven(key: &str) -> (r: Option<(String, String)>)
    ensures
        is_place(r, maven_place(key@)),
{
    let rest = text::strip_prefix(key, "maven/")?;
    let parts = text::split(rest, '/');
    let n: usize = parts.len();
    if n < 4 || text::starts_with(parts[n - 1].as_str(), "maven-metadata") {
        return None;
    }
    let front = vstd::slice::slice_subrange(parts.as_slice(), 0, n - 2);
    proof {
        assert(text::texts(front@) =~= text::texts(parts@).take(n - 2));
    }
    let path = text::join(front, "/");
    Some((text::concat2("maven:", path.as_str()), parts[n - 2].clone()))
}

fn place_docker(key: &str) -> (r: Option<(String, String)>)
    ensures
        is_place(r, docker_place(key@)),
{
    let rest = text::strip_prefix(key, "docker/")?;
    let (repo, file) = text::split_once(rest, "/manifests/")?;
    if !text::ends_with_ci(file, ".json") || text::ends_with_ci(file, ".meta.json") {
        return None;
    }
    let tag = match text::strip_suffix(file, ".json") {
        Some(tag) => tag,
        None => file,
    };
    Some((text::concat2("docker:", repo), tag.to_owned()))
}

fn place_npm(key: &str) -> (r: Option<(String, String)>)
    ensures
        is_place(r, npm_place(key@)),
{
    let rest = text::strip_prefix(key, "npm/")?;
    let (package, _) = text::split_once(rest, "/tarballs/")?;
    if package.unicode_len() == 0 || text::ends_with_ci(key, ".sha256") || text::ends_with_ci(
        key,
        "/metadata.json",
    ) {
        return None;
    }
    Some((text::concat2("npm:", package), text::last_piece(key, '/').to_owned()))
}

/// The key is a checksum of one of the four kinds.
pub fn has_checksum_suffix(key: &str) -> (r: bool)
    ensures
        r == is_checksum(key@),
{
    text::ends_with_ci(key, ".md5") || text::ends_with_ci(key, ".sha1") || text::ends_with_ci(
        key,
        ".sha256",
    ) || text::ends_with_ci(key, ".sha512")
}

fn place_pypi(key: &str) -> (r: Option<(String, String)>)
    ensures
        is_place(r, pypi_place(key@)),
{
    let rest = text::strip_prefix(key, "pypi/")?;
    let parts = text::split(rest, '/');
    let package = parts[0].as_str();
    proof {
        assert(text::texts(parts@)[0] == package@);
    }
    if package.unicode_len() == 0 || has_checksum_suffix(key) || text::ends_with_ci(
        key,
        "/metadata.json",
    ) {
        return None;
    }
    Some((text::concat2("pypi:", package), text::last_piece(key, '/').to_owned()))
}

fn place_cargo(key: &str) -> (r: Option<(String, String)>)
    ensures
        is_place(r, cargo_place(key@)),
{
    let rest = text::strip_prefix(key, "cargo/")?;
    if text::starts_with(rest, "index/") || text::starts_with(rest, "index-entries/") {
        return None;
    }
    let parts = text::split(rest, '/');
    proof {
        assert(text::texts(parts@).len() == parts@.len());
    }
    if parts.len() < 3 || text::same(parts[0].as_str(), "index") || text::same(
        parts[1].as_str(),
        "metadata.json",
    ) {
        return None;
    }
    Some((text::concat2("cargo:", parts[0].as_str()), parts[1].clone()))
}

/// The version that a Go module file is of.
pub fn go_file_version<'a>(file: &'a str) -> (r: Option<&'a str>)
    ensures
        match r {
            Some(v) => go_version(file@) == Some(v@),
            None => go_version(file@) is None,
        },
{
    if let Some(v) = text::strip_suffix(file, ".info") {
        return Some(v);
    }
    if let Some(v) = text::strip_suffix(file, ".mod") {
        return Some(v);
    }
    text::strip_suffix(file, ".zip")
}

fn place_go(key: &str) -> (r: Option<(String, String)>)
    requires
        go_key_ok(key@),
    ensures
        is_place(r, go_place(key@)),
{
    proof {
        text::lemma_first_of(key@, "/@v/"@);
    }
    let (path, file) = text::split_once(key, "/@v/")?;
    let version = go_file_version(file)?;
    Some((text::concat2("go:", text::from_index(path, 3)), version.to_owned()))
}

fn place_raw(key: &str) -> (r: Option<(String, String)>)
    ensures
        is_place(r, raw_place(key@)),
{
    let rest = text::strip_prefix(key, "raw/")?;
    let parts = text::split(rest, '/');
    proof {
        assert(text::texts(parts@).len() == parts@.len());
    }
    if parts.len() < 2 {
        return None;
    }
    Some((text::concat2("raw:", parts[0].as_str()), parts[1].clone()))
}

/// The keys of the registry are such as its layout has.
pub open spec fn layout_ok(registry: Registry, keys: Seq<Seq<char>>) -> bool {
    registry == Registry::Go ==> forall|i: int| 0 <= i < keys.len() ==> go_key_ok(#[trigger] keys[i])
}

/// Where a key of the registry belongs.
pub fn place_key(registry: Registry, key: &str) -> (r: Option<(String, String)>)
    requires
        registry == Registry::Go ==> go_key_ok(key@),
    ensures
        is_place(r, place(registry, key@)),
{
    match registry {
        Registry::Maven => place_maven(key),
        Registry::Docker => place_docker(key),
        Registry::Npm => place_npm(key),
        Registry::Pypi => place_pypi(key),
        Registry::Cargo => place_cargo(key),
        Registry::Go => place_go(key),
        Registry::Raw => place_raw(key),
    }
}

/// What a list of rows holds.
pub open spec fn placed_of(v: Seq<Row>) -> Seq<Placed> {
    v.map_values(|r: Row| r@)
}

/// The keys that belong somewhere, each with where.
fn place_keys(registry: Registry, keys: &Vec<String>) -> (r: Vec<Row>)
    requires
        layout_ok(registry, text::texts(keys@)),
    ensures
        placed_of(r@) == rows(registry, text::texts(keys@)),
{
    let ghost all = text::texts(keys@);
    let mut r: Vec<Row> = Vec::new();
    let mut i: usize = 0;
    proof {
        assert(placed_of(r@) =~= rows(registry, all.take(0)));
    }
    while i < keys.len()
        invariant
            i <= keys@.len(),
            all == text::texts(keys@),
            layout_ok(registry, all),
            placed_of(r@) == rows(registry, all.take(i as int)),
        decreases keys@.len() - i,
    {
        let ghost before = r@;
        proof {
            assert(all.take(i + 1).drop_last() =~= all.take(i as int));
            assert(all[i as int] == keys@[i as int]@);
        }
        if let Some((group, version)) = place_key(registry, keys[i].as_str()) {
            r.push(Row { group, version, key: keys[i].clone() });
            proof {
                assert(placed_of(r@) =~= placed_of(before).push(r@.last()@));
            }
        }
        i = i + 1;
    }
    proof {
        assert(all.take(i as int) =~= all);
    }
    r
}

/// The rows at the places.
pub open spec fn rows_at(all: Seq<Placed>, at: Seq<int>) -> Seq<Placed> {
    at.map_values(|i: int| all[i])
}

/// The versions of a group whose keys each are one.
fn single_versions(
    registry: Registry,
    rows: &Vec<Row>,
    at: &Vec<usize>,
    stats: &StatTable,
) -> (r: Option<Vec<VersionEntry>>)
    requires
        !merges(registry),
        forall|k: int| 0 <= k < at@.len() ==> #[trigger] at@[k] < rows@.len(),
    ensures
        match r {
            Some(v) => group_fits(registry, rows_at(placed_of(rows@), order::ints(at@)), stats@)
                && retention::versions_of(v@) == versions_in(
                registry,
                rows_at(placed_of(rows@), order::ints(at@)),
                stats@,
            ),
            None => !group_fits(registry, rows_at(placed_of(rows@), order::ints(at@)), stats@),
        },
{
    let ghost mine = rows_at(placed_of(rows@), order::ints(at@));
    let mut r: Vec<VersionEntry> = Vec::new();
    let mut k: usize = 0;
    while k < at.len()
        invariant
            k <= at@.len(),
            !merges(registry),
            forall|k: int| 0 <= k < at@.len() ==> #[trigger] at@[k] < rows@.len(),
            mine == rows_at(placed_of(rows@), order::ints(at@)),
            r@.len() == k,
            forall|q: int|
                0 <= q < k ==> (#[trigger] r@[q])@ == single_version(registry, mine[q], stats@),
            forall|q: int|
                0 <= q < k ==> total_size(
                    keys_of_single(registry, (#[trigger] mine[q]).key, stats@),
                    stats@,
                ) <= u64::MAX,
        decreases at@.len() - k,
    {
        let row = &rows[at[k]];
        proof {
            assert(mine[k as int] == row@);
        }
        match single_entry(registry, row, stats) {
            Some(entry) => {
                r.push(entry);
            },
            None => {
                assert(!group_fits(registry, mine, stats@));
                return None;
            },
        }
        k = k + 1;
    }
    proof {
        assert(retention::versions_of(r@) =~= versions_in(registry, mine, stats@));
    }
    Some(r)
}

/// The version that one key is, with its checksum file.
fn single_entry(registry: Registry, row: &Row, stats: &StatTable) -> (r: Option<VersionEntry>)
    ensures
        match r {
            Some(entry) => entry@ == single_version(registry, row@, stats@) && total_size(
                keys_of_single(registry, row@.key, stats@),
                stats@,
            ) <= u64::MAX,
            None => total_size(keys_of_single(registry, row@.key, stats@), stats@) > u64::MAX,
        },
{
    let mut keys: Vec<String> = Vec::new();
    keys.push(row.key.clone());
    let takes = match registry {
        Registry::Npm => true,
        Registry::Pypi => true,
        _ => false,
    };
    if takes {
        let hash_key = text::concat2(row.key.as_str(), ".sha256");
        if stats.contains(hash_key.as_str()) {
            keys.push(hash_key);
        }
    }
    proof {
        assert(text::texts(keys@) =~= keys_of_single(registry, row.key@, stats@));
    }
    let (modified, size) = aggregate_meta(stats, &keys)?;
    Some(VersionEntry { name: row.version.clone(), keys, modified, size })
}

/// The versions of a group, one for all keys of a name.
fn merged_versions(
    registry: Registry,
    rows: &Vec<Row>,
    at: &Vec<usize>,
    stats: &StatTable,
) -> (r: Option<Vec<VersionEntry>>)
    requires
        merges(registry),
        forall|k: int| 0 <= k < at@.len() ==> #[trigger] at@[k] < rows@.len(),
    ensures
        match r {
            Some(v) => group_fits(registry, rows_at(placed_of(rows@), order::ints(at@)), stats@)
                && retention::versions_of(v@) == versions_in(
                registry,
                rows_at(placed_of(rows@), order::ints(at@)),
                stats@,
            ),
            None => !group_fits(registry, rows_at(placed_of(rows@), order::ints(at@)), stats@),
        },
{
    let ghost mine = rows_at(placed_of(rows@), order::ints(at@));
    let mut names: Vec<String> = Vec::new();
    let mut k: usize = 0;
    while k < at.len()
        invariant
            k <= at@.len(),
            forall|k: int| 0 <= k < at@.len() ==> #[trigger] at@[k] < rows@.len(),
            mine == rows_at(placed_of(rows@), order::ints(at@)),
            names@.len() == k,
            forall|q: int| 0 <= q < k ==> (#[trigger] names@[q])@ == mine[q].version,
        decreases at@.len() - k,
    {
        let row = &rows[at[k]];
        proof {
            assert(mine[k as int] == row@);
        }
        names.push(row.version.clone());
        k = k + 1;
    }
    let ghost column = version_names(mine);
    proof {
        assert(text::texts(names@) =~= column);
    }
    let buckets = grouping::group_names(&names);
    let mut r: Vec<VersionEntry> = Vec::new();
    let mut b: usize = 0;
    while b < buckets.len()
        invariant
            b <= buckets@.len(),
            forall|k: int| 0 <= k < at@.len() ==> #[trigger] at@[k] < rows@.len(),
            mine == rows_at(placed_of(rows@), order::ints(at@)),
            column == version_names(mine),
            merges(registry),
            grouping::bucket_names(buckets@) == grouping::distinct(column),
            forall|k: int|
                0 <= k < buckets@.len() ==> order::ints((#[trigger] buckets@[k]).places@)
                    == grouping::places(column, buckets@[k].name@),
            r@.len() == b,
            forall|q: int|
                0 <= q < b ==> (#[trigger] r@[q])@ == version_of(
                    buckets@[q].name@,
                    grouping::with_name(key_column(mine), column, buckets@[q].name@),
                    stats@,
                ),
            forall|q: int|
                0 <= q < b ==> total_size(
                    grouping::with_name(
                        key_column(mine),
                        column,
                        #[trigger] grouping::distinct(column)[q],
                    ),
                    stats@,
                ) <= u64::MAX,
        decreases buckets@.len() - b,
    {
        let bucket = &buckets[b];
        proof {
            assert(grouping::bucket_names(buckets@)[b as int] == bucket.name@);
            assert(grouping::distinct(column)[b as int] == bucket.name@);
        }
        let keys = bucket_keys(rows, at, &bucket.places, Ghost(column), Ghost(bucket.name@));
        let (modified, size) = match aggregate_meta(stats, &keys) {
            Some(m) => m,
            None => {
                assert(!group_fits(registry, mine, stats@));
                return None;
            },
        };
        r.push(VersionEntry { name: bucket.name.clone(), keys, modified, size });
        b = b + 1;
    }
    proof {
        assert forall|q: int| 0 <= q < r@.len() implies (#[trigger] r@[q])@ == versions_in(
            registry,
            mine,
            stats@,
        )[q] by {
            assert(grouping::bucket_names(buckets@)[q] == buckets@[q].name@);
        }
        assert(grouping::bucket_names(buckets@).len() == buckets@.len());
        assert(retention::versions_of(r@) =~= versions_in(registry, mine, stats@));
    }
    Some(r)
}

/// The keys of the rows that a bucket picks from those at `at`.
fn bucket_keys(
    rows: &Vec<Row>,
    at: &Vec<usize>,
    picked: &Vec<usize>,
    Ghost(column): Ghost<Seq<Seq<char>>>,
    Ghost(name): Ghost<Seq<char>>,
) -> (r: Vec<String>)
    requires
        forall|k: int| 0 <= k < at@.len() ==> #[trigger] at@[k] < rows@.len(),
        column.len() == at@.len(),
        order::ints(picked@) == grouping::places(column, name),
    ensures
        text::texts(r@) == grouping::with_name(
            key_column(rows_at(placed_of(rows@), order::ints(at@))),
            column,
            name,
        ),
{
    let ghost keys = key_column(rows_at(placed_of(rows@), order::ints(at@)));
    let ghost at_name = grouping::places(column, name);
    proof {
        grouping::lemma_places(column, name);
        assert(order::ints(picked@).len() == picked@.len());
    }
    let mut r: Vec<String> = Vec::new();
    let mut k: usize = 0;
    while k < picked.len()
        invariant
            k <= picked@.len(),
            picked@.len() == at_name.len(),
            at_name == order::ints(picked@),
            forall|q: int| 0 <= q < at_name.len() ==> 0 <= #[trigger] at_name[q] < at@.len(),
            forall|k: int| 0 <= k < at@.len() ==> #[trigger] at@[k] < rows@.len(),
            keys == key_column(rows_at(placed_of(rows@), order::ints(at@))),
            r@.len() == k,
            forall|q: int| 0 <= q < k ==> (#[trigger] r@[q])@ == keys[at_name[q]],
        decreases picked@.len() - k,
    {
        proof {
            assert(at_name[k as int] == picked@[k as int]);
        }
        let row = &rows[at[picked[k]]];
        r.push(row.key.clone());
        k = k + 1;
    }
    proof {
        assert(text::texts(r@) =~= grouping::with_name(keys, column, name));
    }
    r
}

/// The result is the versions of the registry; none where a size does not fit.
pub open spec fn is_collection(
    r: Option<Vec<(String, Vec<VersionEntry>)>>,
    registry: Registry,
    keys: Seq<Seq<char>>,
    stats: Map<Seq<char>, FileMeta>,
) -> bool {
    match r {
        Some(v) => sizes_ok(registry, keys, stats) && groups_of(v@) == collected(
            registry,
            keys,
            stats,
        ),
        None => !sizes_ok(registry, keys, stats),
    }
}

/// The groups of a registry with their versions, from the listing of its keys
/// and what is known of them. There are none where the size of a version does
/// not fit in 64 bits.
pub fn collect_versions(registry: Registry, keys: &Vec<String>, stats: &StatTable) -> (r: Option<
    Vec<(String, Vec<VersionEntry>)>,
>)
    requires
        layout_ok(registry, text::texts(keys@)),
    ensures
        is_collection(r, registry, text::texts(keys@), stats@),
{
    let placed = place_keys(registry, keys);
    let ghost all = rows(registry, text::texts(keys@));
    let mut names: Vec<String> = Vec::new();
    let mut i: usize = 0;
    while i < placed.len()
        invariant
            i <= placed@.len(),
            names@.len() == i,
            all == placed_of(placed@),
            forall|q: int| 0 <= q < i ==> (#[trigger] names@[q])@ == all[q].group,
        decreases placed@.len() - i,
    {
        names.push(placed[i].group.clone());
        i = i + 1;
    }
    let ghost column = group_column(all);
    proof {
        assert(text::texts(names@) =~= column);
    }
    let buckets = grouping::group_names(&names);
    let merge = match registry {
        Registry::Maven => true,
        Registry::Cargo => true,
        Registry::Go => true,
        Registry::Raw => true,
        _ => false,
    };
    let mut r: Vec<(String, Vec<VersionEntry>)> = Vec::new();
    let mut b: usize = 0;
    while b < buckets.len()
        invariant
            b <= buckets@.len(),
            all == placed_of(placed@),
            column == group_column(all),
            merge == merges(registry),
            all == rows(registry, text::texts(keys@)),
            forall|q: int|
                0 <= q < b ==> group_fits(
                    registry,
                    grouping::with_name(all, column, #[trigger] grouping::distinct(column)[q]),
                    stats@,
                ),
            grouping::bucket_names(buckets@) == grouping::distinct(column),
            forall|k: int|
                0 <= k < buckets@.len() ==> order::ints((#[trigger] buckets@[k]).places@)
                    == grouping::places(column, buckets@[k].name@),
            r@.len() == b,
            forall|q: int|
                0 <= q < b ==> (#[trigger] r@[q]).0@ == buckets@[q].name@
                    && retention::versions_of(r@[q].1@) == versions_in(
                    registry,
                    grouping::with_name(all, column, buckets@[q].name@),
                    stats@,
                ),
        decreases buckets@.len() - b,
    {
        let bucket = &buckets[b];
        let ghost mine = grouping::with_name(all, column, bucket.name@);
        proof {
            grouping::lemma_places(column, bucket.name@);
            let at = order::ints(bucket.places@);
            assert forall|k: int| 0 <= k < bucket.places@.len() implies #[trigger] bucket.places@[k]
                < placed@.len() by {
                assert(at[k] == bucket.places@[k]);
            }
            assert(mine == rows_at(all, at));
            assert(grouping::bucket_names(buckets@)[b as int] == bucket.name@);
            assert(grouping::distinct(column)[b as int] == bucket.name@);
        }
        let made = if merge {
            merged_versions(registry, &placed, &bucket.places, stats)
        } else {
            single_versions(registry, &placed, &bucket.places, stats)
        };
        let versions = match made {
            Some(v) => v,
            None => {
                assert(!sizes_ok(registry, text::texts(keys@), stats@));
                return None;
            },
        };
        r.push((bucket.name.clone(), versions));
        b = b + 1;
    }
    proof {
        let want = collected(registry, text::texts(keys@), stats@);
        assert(grouping::bucket_names(buckets@).len() == buckets@.len());
        assert forall|q: int| 0 <= q < r@.len() implies (
            (#[trigger] r@[q]).0@,
            retention::versions_of(r@[q].1@),
        ) == want[q] by {
            assert(grouping::bucket_names(buckets@)[q] == buckets@[q].name@);
        }
        assert(groups_of(r@) =~= want);
    }
    Some(r)
}

/// Every key of the registry's layout is such as the collection accepts.
pub fn layout_fits(registry: Registry, keys: &Vec<String>) -> (r: bool)
    ensures
        r == layout_ok(registry, text::texts(keys@)),
{
    let ghost all = text::texts(keys@);
    match registry {
        Registry::Go => {},
        _ => {
            return true;
        },
    }
    let mut i: usize = 0;
    while i < keys.len()
        invariant
            i <= keys@.len(),
            all == text::texts(keys@),
            registry == Registry::Go,
            forall|k: int| 0 <= k < i ==> go_key_ok(#[trigger] all[k]),
        decreases keys@.len() - i,
    {
        match text::find(keys[i].as_str(), "/@v/") {
            Some(at) => {
                if at < 3 {
                    assert(!go_key_ok(all[i as int]));
                    return false;
                }
            },
            None => {},
        }
        i = i + 1;
    }
    true
}

/// The Maven versions per group and artifact.
pub fn collect_maven_versions(keys: &Vec<String>, stats: &StatTable) -> (r: Option<
    Vec<(String, Vec<VersionEntry>)>,
>)
    ensures
        is_collection(r, Registry::Maven, text::texts(keys@), stats@),
{
    collect_versions(Registry::Maven, keys, stats)
}

/// The size of a tag, which is one key, always fits.
proof fn lemma_docker_sizes(keys: Seq<Seq<char>>, stats: Map<Seq<char>, FileMeta>)
    ensures
        sizes_ok(Registry::Docker, keys, stats),
{
    assert forall|key: Seq<char>| total_size(
        #[trigger] keys_of_single(Registry::Docker, key, stats),
        stats,
    ) <= u64::MAX by {
        assert(seq![key].drop_last() =~= Seq::<Seq<char>>::empty());
        assert(total_size(Seq::<Seq<char>>::empty(), stats) == 0);
    }
}

/// The Docker tags per repository. Blobs may be shared by tags and are left to
/// garbage collection.
pub fn collect_docker_versions(keys: &Vec<String>, stats: &StatTable) -> (r: Vec<
    (String, Vec<VersionEntry>),
>)
    ensures
        groups_of(r@) == collected(Registry::Docker, text::texts(keys@), stats@),
{
    proof {
        lemma_docker_sizes(text::texts(keys@), stats@);
    }
    match collect_versions(Registry::Docker, keys, stats) {
        Some(r) => r,
        None => Vec::new(),
    }
}

/// The npm tarballs per package, each with its checksum file.
pub fn collect_npm_versions(keys: &Vec<String>, stats: &StatTable) -> (r: Option<
    Vec<(String, Vec<VersionEntry>)>,
>)
    ensures
        is_collection(r, Registry::Npm, text::texts(keys@), stats@),
{
    collect_versions(Registry::Npm, keys, stats)
}

/// The PyPI files per package, each with its checksum file.
pub fn collect_pypi_versions(keys: &Vec<String>, stats: &StatTable) -> (r: Option<
    Vec<(String, Vec<VersionEntry>)>,
>)
    ensures
        is_collection(r, Registry::Pypi, text::texts(keys@), stats@),
{
    collect_versions(Registry::Pypi, keys, stats)
}

/// The Cargo versions per crate.
pub fn collect_cargo_versions(keys: &Vec<String>, stats: &StatTable) -> (r: Option<
    Vec<(String, Vec<VersionEntry>)>,
>)
    ensures
        is_collection(r, Registry::Cargo, text::texts(keys@), stats@),
{
    collect_versions(Registry::Cargo, keys, stats)
}

/// The raw versions per top directory: a directory below it, with all that it
/// holds, or a file. Files at the root belong to no version.
pub fn collect_raw_versions(keys: &Vec<String>, stats: &StatTable) -> (r: Option<
    Vec<(String, Vec<VersionEntry>)>,
>)
    ensures
        is_collection(r, Registry::Raw, text::texts(keys@), stats@),
{
    collect_versions(Registry::Raw, keys, stats)
}

/// The Go versions per module.
pub fn collect_go_versions(keys: &Vec<String>, stats: &StatTable) -> (r: Option<
    Vec<(String, Vec<VersionEntry>)>,
>)
    requires
        layout_ok(Registry::Go, text::texts(keys@)),
    ensures
        is_collection(r, Registry::Go, text::texts(keys@), stats@),
{
    collect_versions(Registry::Go, keys, stats)
}

/// A metadata file is the index of its package, never a version of it.
pub proof fn metadata_is_no_version(key: Seq<char>)
    requires
        text::ends_ci(key, "/metadata.json"@),
    ensures
        npm_place(key) is None,
        pypi_place(key) is None,
{
}

/// Nothing in the index of the Cargo registry is a version of a crate.
pub proof fn cargo_index_data_is_no_version(key: Seq<char>)
    requires
        "cargo/index/"@.is_prefix_of(key) || "cargo/index-entries/"@.is_prefix_of(key),
    ensures
        cargo_place(key) is None,
{
    reveal_strlit("cargo/");
    reveal_strlit("cargo/index/");
    reveal_strlit("index/");
    reveal_strlit("cargo/index-entries/");
    reveal_strlit("index-entries/");
    let rest = key.subrange(6, key.len() as int);
    if "cargo/index/"@.is_prefix_of(key) {
        let head = key.subrange(0, 12);
        assert(key.subrange(0, 6) =~= head.subrange(0, 6));
        assert("cargo/"@ =~= head.subrange(0, 6));
        assert(rest.subrange(0, 6) =~= head.subrange(6, 12));
        assert("index/"@ =~= head.subrange(6, 12));
    } else {
        let head = key.subrange(0, 20);
        assert(key.subrange(0, 6) =~= head.subrange(0, 6));
        assert("cargo/"@ =~= head.subrange(0, 6));
        assert(rest.subrange(0, 14) =~= head.subrange(6, 20));
        assert("index-entries/"@ =~= head.subrange(6, 20));
    }
}

/// A file at the root of the raw registry is never a version.
pub proof fn raw_root_files_are_no_versions(name: Seq<char>)
    requires
        !name.contains('/'),
    ensures
        raw_place("raw/"@ + name) is None,
{
    let key = "raw/"@ + name;
    assert(text::without_prefix(key, "raw/"@) == Some(name)) by {
        assert(key.subrange(0, "raw/"@.len() as int) =~= "raw/"@);
        assert(key.subrange("raw/"@.len() as int, key.len() as int) =~= name);
    }
    lemma_one_piece(name, '/');
}

proof fn lemma_one_piece(s: Seq<char>, c: char)
    requires
        !s.contains(c),
    ensures
        text::pieces(s, c).len() == 1,
    decreases s.len(),
{
    if s.len() > 0 {
        let front = s.drop_last();
        assert(s[s.len() - 1] == s.last());
        assert(!front.contains(c)) by {
            if front.contains(c) {
                let i = choose|i: int| 0 <= i < front.len() && front[i] == c;
                assert(s[i] == c);
            }
        }
        lemma_one_piece(front, c);
    }
}

/// A version is as young as the youngest of its keys, and as large as all of
/// them.
pub proof fn versions_measure_all_their_keys(
    registry: Registry,
    keys: Seq<Seq<char>>,
    stats: Map<Seq<char>, FileMeta>,
    g: int,
    v: int,
)
    requires
        sizes_ok(registry, keys, stats),
        0 <= g < collected(registry, keys, stats).len(),
        0 <= v < collected(registry, keys, stats)[g].1.len(),
    ensures
        ({
            let version = collected(registry, keys, stats)[g].1[v];
            version.modified == latest(version.keys, stats) && version.size == total_size(
                version.keys,
                stats,
            )
        }),
{
    let all = rows(registry, keys);
    let column = group_column(all);
    let group = grouping::distinct(column)[g];
    let mine = grouping::with_name(all, column, group);
    assert(group_fits(registry, mine, stats));
    if merges(registry) {
        assert(collected(registry, keys, stats)[g].1[v].name == grouping::distinct(
            version_names(mine),
        )[v]);
    } else {
        assert(collected(registry, keys, stats)[g].1[v] == single_version(
            registry,
            mine[v],
            stats,
        ));
    }
}

/// Every row is that of a listed key, at the place of the key.
pub proof fn lemma_rows(registry: Registry, keys: Seq<Seq<char>>)
    ensures
        forall|k: int|
            0 <= k < rows(registry, keys).len() ==> keys.contains(
                (#[trigger] rows(registry, keys)[k]).key,
            ) && place(registry, rows(registry, keys)[k].key) == Some(
                Place {
                    group: rows(registry, keys)[k].group,
                    version: rows(registry, keys)[k].version,
                },
            ),
    decreases keys.len(),
{
    if keys.len() > 0 {
        let front = keys.drop_last();
        lemma_rows(registry, front);
        let before = rows(registry, front);
        let all = rows(registry, keys);
        assert forall|k: int| 0 <= k < all.len() implies keys.contains((#[trigger] all[k]).key)
            && place(registry, all[k].key) == Some(
            Place { group: all[k].group, version: all[k].version },
        ) by {
            if k < before.len() {
                assert(all[k] == before[k]);
                let i = choose|i: int| 0 <= i < front.len() && front[i] == before[k].key;
                assert(keys[i] == before[k].key);
            } else {
                assert(keys[keys.len() - 1] == all[k].key);
            }
        }
    }
}

/// A version is made of listed keys that belong to its group and to it. (The
/// versions of registries whose keys each are one may bring a checksum file
/// along.)
pub proof fn merged_versions_hold_their_keys(
    registry: Registry,
    keys: Seq<Seq<char>>,
    stats: Map<Seq<char>, FileMeta>,
    g: int,
    v: int,
    k: int,
)
    requires
        merges(registry),
        0 <= g < collected(registry, keys, stats).len(),
        0 <= v < collected(registry, keys, stats)[g].1.len(),
        0 <= k < collected(registry, keys, stats)[g].1[v].keys.len(),
    ensures
        keys.contains(collected(registry, keys, stats)[g].1[v].keys[k]),
        place(registry, collected(registry, keys, stats)[g].1[v].keys[k]) == Some(
            Place {
                group: collected(registry, keys, stats)[g].0,
                version: collected(registry, keys, stats)[g].1[v].name,
            },
        ),
{
    let all = rows(registry, keys);
    let column = group_column(all);
    let group = grouping::distinct(column)[g];
    let mine = grouping::with_name(all, column, group);
    let names = version_names(mine);
    let version = grouping::distinct(names)[v];
    lemma_rows(registry, keys);
    grouping::lemma_places(column, group);
    grouping::lemma_places(names, version);
    let at = grouping::places(names, version)[k];
    assert(names[at] == version);
    assert(mine[at] == all[grouping::places(column, group)[at]]);
    assert(column[grouping::places(column, group)[at]] == group);
    assert(collected(registry, keys, stats)[g].1[v].keys[k] == mine[at].key);
}

} // verus!
