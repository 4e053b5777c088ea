//! Orphans of the registries without a reference graph: checksum sidecars
//! without their artifact, incomplete Go versions, and Cargo index entries and
//! crates without each other.

use vstd::prelude::*;

use crate::collect;
use crate::docker_gc::DetectionResult;
use crate::table::{FileMeta, KeySet, StatTable};
use crate::text;

verus! {

/// The key without its checksum suffix.
pub open spec fn checksum_primary(key: Seq<char>) -> Option<Seq<char>> {
    match text::without_suffix(key, ".md5"@) {
        Some(p) => Some(p),
        None => match text::without_suffix(key, ".sha1"@) {
            Some(p) => Some(p),
            None => match text::without_suffix(key, ".sha256"@) {
                Some(p) => Some(p),
                None => text::without_suffix(key, ".sha512"@),
            },
        },
    }
}

/// The key is the validator sidecar of npm metadata.
pub open spec fn meta_sidecar(key: Seq<char>) -> bool {
    "npm/"@.is_prefix_of(key) && text::ends_ci(key, ".meta"@)
}

/// The key is a sidecar that is an orphan without its artifact.
pub open spec fn orphanable(key: Seq<char>) -> bool {
    collect::is_checksum(key) || meta_sidecar(key)
}

/// The artifact that a sidecar belongs to.
pub open spec fn sidecar_primary(key: Seq<char>) -> Option<Seq<char>> {
    if meta_sidecar(key) {
        text::without_suffix(key, ".meta"@)
    } else {
        checksum_primary(key)
    }
}

/// The key is a sidecar whose artifact is not in storage.
pub open spec fn is_checksum_orphan(key: Seq<char>, stats: Map<Seq<char>, FileMeta>) -> bool {
    orphanable(key) && (sidecar_primary(key) matches Some(p) && !stats.contains_key(p))
}

/// The key is a checksum sidecar.
pub fn is_checksum_sidecar(key: &str) -> (r: bool)
    ensures
        r == collect::is_checksum(key@),
{
    collect::has_checksum_suffix(key)
}

/// The artifact that a checksum sidecar belongs to.
pub fn primary_key_for_checksum<'a>(key: &'a str) -> (r: Option<&'a str>)
    ensures
        match r {
            Some(p) => checksum_primary(key@) == Some(p@),
            None => checksum_primary(key@) is None,
        },
{
    if let Some(p) = text::strip_suffix(key, ".md5") {
        return Some(p);
    }
    if let Some(p) = text::strip_suffix(key, ".sha1") {
        return Some(p);
    }
    if let Some(p) = text::strip_suffix(key, ".sha256") {
        return Some(p);
    }
    text::strip_suffix(key, ".sha512")
}

/// The key is the validator sidecar of npm metadata. Other registries may have
/// artifacts that end in `.meta`.
pub fn is_meta_sidecar(key: &str) -> (r: bool)
    ensures
        r == meta_sidecar(key@),
{
    text::starts_with(key, "npm/") && text::ends_with_ci(key, ".meta")
}

/// The key is a sidecar that is an orphan without its artifact.
pub fn is_orphanable_sidecar(key: &str) -> (r: bool)
    ensures
        r == orphanable(key@),
{
    is_checksum_sidecar(key) || is_meta_sidecar(key)
}

/// The artifact that a sidecar belongs to.
pub fn primary_key_for_sidecar<'a>(key: &'a str) -> (r: Option<&'a str>)
    ensures
        match r {
            Some(p) => sidecar_primary(key@) == Some(p@),
            None => sidecar_primary(key@) is None,
        },
{
    if is_meta_sidecar(key) {
        return text::strip_suffix(key, ".meta");
    }
    primary_key_for_checksum(key)
}

/// How many of the keys are sidecars.
pub open spec fn sidecar_count(keys: Seq<Seq<char>>) -> nat
    decreases keys.len(),
{
    if keys.len() == 0 {
        0
    } else {
        sidecar_count(keys.drop_last()) + if orphanable(keys.last()) {
            1nat
        } else {
            0
        }
    }
}

/// The sidecars among the keys whose artifact is not in storage.
pub open spec fn checksum_orphans(
    keys: Seq<Seq<char>>,
    stats: Map<Seq<char>, FileMeta>,
) -> Seq<Seq<char>>
    decreases keys.len(),
{
    if keys.len() == 0 {
        Seq::empty()
    } else {
        let before = checksum_orphans(keys.drop_last(), stats);
        if is_checksum_orphan(keys.last(), stats) {
            before.push(keys.last())
        } else {
            before
        }
    }
}

/// The artifacts that the sidecars among the keys belong to: those whose
/// presence a detection needs.
pub open spec fn primaries(keys: Seq<Seq<char>>) -> Seq<Seq<char>>
    decreases keys.len(),
{
    if keys.len() == 0 {
        Seq::empty()
    } else {
        let before = primaries(keys.drop_last());
        match sidecar_primary(keys.last()) {
            Some(p) => if orphanable(keys.last()) {
                before.push(p)
            } else {
                before
            },
            None => before,
        }
    }
}

/// The artifacts that the sidecars among the keys belong to.
pub fn primary_keys(keys: &Vec<String>) -> (r: Vec<String>)
    ensures
        text::texts(r@) == primaries(text::texts(keys@)),
{
    let ghost all = text::texts(keys@);
    let mut r: Vec<String> = Vec::new();
    let mut i: usize = 0;
    proof {
        assert(text::texts(r@) =~= primaries(all.take(0)));
    }
    while i < keys.len()
        invariant
            i <= keys@.len(),
            all == text::texts(keys@),
            text::texts(r@) == primaries(all.take(i as int)),
        decreases keys@.len() - i,
    {
        let ghost before = r@;
        proof {
            assert(all.take(i + 1).drop_last() =~= all.take(i as int));
            assert(all.take(i + 1).last() == keys@[i as int]@);
        }
        let key = keys[i].as_str();
        if is_orphanable_sidecar(key) {
            if let Some(p) = primary_key_for_sidecar(key) {
                r.push(p.to_owned());
                proof {
                    assert(text::texts(r@) =~= text::texts(before).push(p@));
                }
            }
        }
        i = i + 1;
    }
    proof {
        assert(all.take(i as int) =~= all);
    }
    r
}

/// The sidecars without their artifact, from the listing of the maven, npm and
/// pypi keys and what is known of the artifacts.
pub fn detect_checksum_orphans(keys: &Vec<String>, stats: &StatTable) -> (r: DetectionResult)
    ensures
        r.total == sidecar_count(text::texts(keys@)),
        text::texts(r.orphans@) == checksum_orphans(text::texts(keys@), stats@),
{
    let ghost all = text::texts(keys@);
    let mut total: usize = 0;
    let mut orphans: Vec<String> = Vec::new();
    let mut i: usize = 0;
    proof {
        assert(text::texts(orphans@) =~= checksum_orphans(all.take(0), stats@));
    }
    while i < keys.len()
        invariant
            i <= keys@.len(),
            total <= i,
            all == text::texts(keys@),
            total == sidecar_count(all.take(i as int)),
            text::texts(orphans@) == checksum_orphans(all.take(i as int), stats@),
        decreases keys@.len() - i,
    {
        let ghost before = orphans@;
        proof {
            assert(all.take(i + 1).drop_last() =~= all.take(i as int));
            assert(all.take(i + 1).last() == keys@[i as int]@);
        }
        let key = keys[i].as_str();
        if is_orphanable_sidecar(key) {
            total = total + 1;
            if let Some(p) = primary_key_for_sidecar(key) {
                if !stats.contains(p) {
                    orphans.push(keys[i].clone());
                    proof {
                        assert(text::texts(orphans@) =~= text::texts(before).push(key@));
                    }
                }
            }
        }
        i = i + 1;
    }
    proof {
        assert(all.take(i as int) =~= all);
    }
    DetectionResult { total, orphans }
}

/// The module version that a key is a file of.
pub open spec fn go_unit(key: Seq<char>) -> Option<Seq<char>> {
    match text::halves(key, "/@v/"@) {
        Some((path, file)) => match collect::go_version(file) {
            Some(v) => Some(path + "/@v/"@ + v),
            None => None,
        },
        None => None,
    }
}

/// The versions with a file of that suffix among the keys.
pub open spec fn units_with(keys: Seq<Seq<char>>, suffix: Seq<char>) -> Set<Seq<char>>
    decreases keys.len(),
{
    if keys.len() == 0 {
        Set::empty()
    } else {
        let before = units_with(keys.drop_last(), suffix);
        match go_unit(keys.last()) {
            Some(u) => if text::ends_ci(keys.last(), suffix) {
                before.insert(u)
            } else {
                before
            },
            None => before,
        }
    }
}

/// The key is a file of a version that lacks its `.info` or its `.zip`.
pub open spec fn is_go_orphan(key: Seq<char>, all: Seq<Seq<char>>) -> bool {
    go_unit(key) matches Some(u) && !(units_with(all, ".info"@).contains(u) && units_with(
        all,
        ".zip"@,
    ).contains(u))
}

/// How many of the keys are files of a version.
pub open spec fn go_count(keys: Seq<Seq<char>>) -> nat
    decreases keys.len(),
{
    if keys.len() == 0 {
        0
    } else {
        go_count(keys.drop_last()) + if go_unit(keys.last()) is Some {
            1nat
        } else {
            0
        }
    }
}

/// The files among the keys whose version is incomplete in `all`.
pub open spec fn go_orphans(keys: Seq<Seq<char>>, all: Seq<Seq<char>>) -> Seq<Seq<char>>
    decreases keys.len(),
{
    if keys.len() == 0 {
        Seq::empty()
    } else {
        let before = go_orphans(keys.drop_last(), all);
        if is_go_orphan(keys.last(), all) {
            before.push(keys.last())
        } else {
            before
        }
    }
}

fn go_unit_text(key: &str) -> (r: Option<String>)
    ensures
        match r {
            Some(u) => go_unit(key@) == Some(u@),
            None => go_unit(key@) is None,
        },
{
    let (path, file) = text::split_once(key, "/@v/")?;
    let v = collect::go_file_version(file)?;
    Some(text::concat3(path, "/@v/", v))
}

/// The files of incomplete Go versions. A version is complete with at least an
/// `.info` and a `.zip`; the `.mod` is optional.
pub fn detect_go_incomplete_versions(keys: &Vec<String>) -> (r: DetectionResult)
    ensures
        r.total == go_count(text::texts(keys@)),
        text::texts(r.orphans@) == go_orphans(text::texts(keys@), text::texts(keys@)),
{
    let ghost all = text::texts(keys@);
    let mut info = KeySet::new();
    let mut zip = KeySet::new();
    let mut total: usize = 0;
    let mut i: usize = 0;
    proof {
        assert(info@ =~= units_with(all.take(0), ".info"@));
        assert(zip@ =~= units_with(all.take(0), ".zip"@));
    }
    while i < keys.len()
        invariant
            i <= keys@.len(),
            total <= i,
            all == text::texts(keys@),
            total == go_count(all.take(i as int)),
            info@ == units_with(all.take(i as int), ".info"@),
            zip@ == units_with(all.take(i as int), ".zip"@),
        decreases keys@.len() - i,
    {
        proof {
            assert(all.take(i + 1).drop_last() =~= all.take(i as int));
            assert(all.take(i + 1).last() == keys@[i as int]@);
        }
        let key = keys[i].as_str();
        if let Some(unit) = go_unit_text(key) {
            total = total + 1;
            if text::ends_with_ci(key, ".info") {
                info.insert(unit.clone());
            }
            if text::ends_with_ci(key, ".zip") {
                zip.insert(unit);
            }
        }
        i = i + 1;
    }
    proof {
        assert(all.take(i as int) =~= all);
    }
    let mut orphans: Vec<String> = Vec::new();
    let mut i: usize = 0;
    proof {
        assert(text::texts(orphans@) =~= go_orphans(all.take(0), all));
    }
    while i < keys.len()
        invariant
            i <= keys@.len(),
            all == text::texts(keys@),
            info@ == units_with(all, ".info"@),
            zip@ == units_with(all, ".zip"@),
            text::texts(orphans@) == go_orphans(all.take(i as int), all),
        decreases keys@.len() - i,
    {
        let ghost before = orphans@;
        proof {
            assert(all.take(i + 1).drop_last() =~= all.take(i as int));
            assert(all.take(i + 1).last() == keys@[i as int]@);
        }
        let key = keys[i].as_str();
        if let Some(unit) = go_unit_text(key) {
            if !info.contains(unit.as_str()) || !zip.contains(unit.as_str()) {
                orphans.push(keys[i].clone());
                proof {
                    assert(text::texts(orphans@) =~= text::texts(before).push(key@));
                }
            }
        }
        i = i + 1;
    }
    proof {
        assert(all.take(i as int) =~= all);
    }
    DetectionResult { total, orphans }
}

/// The key is an entry of the per-version index.
pub open spec fn is_index_entry(key: Seq<char>) -> bool {
    "cargo/index-entries/"@.is_prefix_of(key)
}

/// The segment of an index path that names the crate: the third, as in
/// `se/rd/serde` and `3/f/foo`, or, for a name of one or two letters, the second,
/// as in `1/a` and `2/ab`.
pub open spec fn named_in(parts: Seq<Seq<char>>) -> Option<Seq<char>> {
    if parts.len() >= 3 {
        Some(parts[2])
    } else if parts.len() == 2 && (parts[0] == "1"@ && parts[1].len() == 1 || parts[0] == "2"@
        && parts[1].len() == 2) {
        Some(parts[1])
    } else {
        None
    }
}

/// The crate that an index key is for: `cargo/index/XX/XX/name`, `1/n` or `2/na`.
pub open spec fn index_crate(key: Seq<char>) -> Option<Seq<char>> {
    if is_index_entry(key) {
        None
    } else {
        match text::without_prefix(key, "cargo/index/"@) {
            Some(rest) => named_in(text::pieces(rest, '/')),
            None => None,
        }
    }
}

/// The crate that a crate file is of: `cargo/name/version/name-version.crate`.
pub open spec fn file_crate(key: Seq<char>) -> Option<Seq<char>> {
    if is_index_entry(key) || "cargo/index/"@.is_prefix_of(key) || !text::ends_ci(
        key,
        ".crate"@,
    ) {
        None
    } else {
        let rest = match text::without_prefix(key, "cargo/"@) {
            Some(rest) => rest,
            None => key,
        };
        let parts = text::pieces(rest, '/');
        if parts.len() >= 2 {
            Some(parts[0])
        } else {
            None
        }
    }
}

/// The crates with an index key among the keys.
pub open spec fn indexed(keys: Seq<Seq<char>>) -> Set<Seq<char>>
    decreases keys.len(),
{
    if keys.len() == 0 {
        Set::empty()
    } else {
        let before = indexed(keys.drop_last());
        match index_crate(keys.last()) {
            Some(name) => before.insert(name),
            None => before,
        }
    }
}

/// The crates with a crate file among the keys.
pub open spec fn stored(keys: Seq<Seq<char>>) -> Set<Seq<char>>
    decreases keys.len(),
{
    if keys.len() == 0 {
        Set::empty()
    } else {
        let before = stored(keys.drop_last());
        match file_crate(keys.last()) {
            Some(name) => before.insert(name),
            None => before,
        }
    }
}

/// How many of the keys are index keys or crate files.
pub open spec fn cargo_count(keys: Seq<Seq<char>>) -> nat
    decreases keys.len(),
{
    if keys.len() == 0 {
        0
    } else {
        cargo_count(keys.drop_last()) + if index_crate(keys.last()) is Some || file_crate(
            keys.last(),
        ) is Some {
            1nat
        } else {
            0
        }
    }
}

/// Where the per-version entries of an index key are.
pub open spec fn entries_prefix(key: Seq<char>) -> Seq<char> {
    "cargo/index-entries/"@ + text::without_prefix(key, "cargo/index/"@)->0 + "/"@
}

/// The per-version entries among the keys that start with the prefix.
pub open spec fn entries_under(keys: Seq<Seq<char>>, prefix: Seq<char>) -> Seq<Seq<char>>
    decreases keys.len(),
{
    if keys.len() == 0 {
        Seq::empty()
    } else {
        let before = entries_under(keys.drop_last(), prefix);
        if is_index_entry(keys.last()) && prefix.is_prefix_of(keys.last()) {
            before.push(keys.last())
        } else {
            before
        }
    }
}

/// The index keys among the keys whose crate has no file in `all`, each with
/// its per-version entries.
pub open spec fn orphan_indexes(keys: Seq<Seq<char>>, all: Seq<Seq<char>>) -> Seq<Seq<char>>
    decreases keys.len(),
{
    if keys.len() == 0 {
        Seq::empty()
    } else {
        let before = orphan_indexes(keys.drop_last(), all);
        match index_crate(keys.last()) {
            Some(name) => if stored(all).contains(name) {
                before
            } else {
                before.push(keys.last()) + entries_under(all, entries_prefix(keys.last()))
            },
            None => before,
        }
    }
}

/// The crate files among the keys whose crate has no index key in `all`.
pub open spec fn orphan_crates(keys: Seq<Seq<char>>, all: Seq<Seq<char>>) -> Seq<Seq<char>>
    decreases keys.len(),
{
    if keys.len() == 0 {
        Seq::empty()
    } else {
        let before = orphan_crates(keys.drop_last(), all);
        match file_crate(keys.last()) {
            Some(name) => if indexed(all).contains(name) {
                before
            } else {
                before.push(keys.last())
            },
            None => before,
        }
    }
}

/// The orphans of the Cargo registry.
pub open spec fn cargo_orphans(keys: Seq<Seq<char>>) -> Seq<Seq<char>> {
    orphan_indexes(keys, keys) + orphan_crates(keys, keys)
}

fn index_crate_text(key: &str) -> (r: Option<String>)
    ensures
        match r {
            Some(n) => index_crate(key@) == Some(n@),
            None => index_crate(key@) is None,
        },
{
    if text::starts_with(key, "cargo/index-entries/") {
        return None;
    }
    let rest = text::strip_prefix(key, "cargo/index/")?;
    let parts = text::split(rest, '/');
    proof {
        assert(text::texts(parts@).len() == parts@.len());
    }
    let n: usize = parts.len();
    if n >= 3 {
        Some(parts[2].clone())
    } else if n == 2 && (text::same(parts[0].as_str(), "1") && parts[1].as_str().unicode_len() == 1
        || text::same(parts[0].as_str(), "2") && parts[1].as_str().unicode_len() == 2) {
        Some(parts[1].clone())
    } else {
        None
    }
}

fn file_crate_text(key: &str) -> (r: Option<String>)
    ensures
        match r {
            Some(n) => file_crate(key@) == Some(n@),
            None => file_crate(key@) is None,
        },
{
    if text::starts_with(key, "cargo/index-entries/") || text::starts_with(key, "cargo/index/")
        || !text::ends_with_ci(key, ".crate") {
        return None;
    }
    let rest = match text::strip_prefix(key, "cargo/") {
        Some(rest) => rest,
        None => key,
    };
    let parts = text::split(rest, '/');
    proof {
        assert(text::texts(parts@).len() == parts@.len());
    }
    if parts.len() >= 2 {
        Some(parts[0].clone())
    } else {
        None
    }
}

/// Puts the per-version entries under the prefix behind what is there.
fn push_entries(keys: &Vec<String>, prefix: &str, out: &mut Vec<String>)
    ensures
        text::texts(final(out)@) == text::texts(old(out)@) + entries_under(
            text::texts(keys@),
            prefix@,
        ),
{
    let ghost all = text::texts(keys@);
    let ghost start = text::texts(out@);
    let mut i: usize = 0;
    proof {
        assert(start + entries_under(all.take(0), prefix@) =~= start);
    }
    while i < keys.len()
        invariant
            i <= keys@.len(),
            all == text::texts(keys@),
            text::texts(out@) == start + entries_under(all.take(i as int), prefix@),
        decreases keys@.len() - i,
    {
        let ghost before = out@;
        proof {
            assert(all.take(i + 1).drop_last() =~= all.take(i as int));
            assert(all.take(i + 1).last() == keys@[i as int]@);
        }
        let key = keys[i].as_str();
        if text::starts_with(key, "cargo/index-entries/") && text::starts_with(key, prefix) {
            out.push(keys[i].clone());
            proof {
                assert(text::texts(out@) =~= text::texts(before).push(key@));
                assert(start + entries_under(all.take(i as int), prefix@).push(key@) =~= (start
                    + entries_under(all.take(i as int), prefix@)).push(key@));
            }
        }
        i = i + 1;
    }
    proof {
        assert(all.take(i as int) =~= all);
    }
}

/// The orphans of the Cargo registry: index keys without crate files, with
/// their per-version entries, then crate files without an index key.
pub fn detect_cargo_orphans(keys: &Vec<String>) -> (r: DetectionResult)
    ensures
        r.total == cargo_count(text::texts(keys@)),
        text::texts(r.orphans@) == cargo_orphans(text::texts(keys@)),
{
    let ghost all = text::texts(keys@);
    let mut with_file = KeySet::new();
    let mut with_index = KeySet::new();
    let mut total: usize = 0;
    let mut i: usize = 0;
    proof {
        assert(with_file@ =~= stored(all.take(0)));
        assert(with_index@ =~= indexed(all.take(0)));
    }
    while i < keys.len()
        invariant
            i <= keys@.len(),
            total <= i,
            all == text::texts(keys@),
            total == cargo_count(all.take(i as int)),
            with_file@ == stored(all.take(i as int)),
            with_index@ == indexed(all.take(i as int)),
        decreases keys@.len() - i,
    {
        proof {
            assert(all.take(i + 1).drop_last() =~= all.take(i as int));
            assert(all.take(i + 1).last() == keys@[i as int]@);
        }
        let key = keys[i].as_str();
        match index_crate_text(key) {
            Some(name) => {
                total = total + 1;
                with_index.insert(name);
            },
            None => match file_crate_text(key) {
                Some(name) => {
                    total = total + 1;
                    with_file.insert(name);
                },
                None => {},
            },
        }
        i = i + 1;
    }
    proof {
        assert(all.take(i as int) =~= all);
    }
    let mut orphans: Vec<String> = Vec::new();
    let mut i: usize = 0;
    proof {
        assert(text::texts(orphans@) =~= orphan_indexes(all.take(0), all));
    }
    while i < keys.len()
        invariant
            i <= keys@.len(),
            all == text::texts(keys@),
            with_file@ == stored(all),
            text::texts(orphans@) == orphan_indexes(all.take(i as int), all),
        decreases keys@.len() - i,
    {
        let ghost before = orphans@;
        proof {
            assert(all.take(i + 1).drop_last() =~= all.take(i as int));
            assert(all.take(i + 1).last() == keys@[i as int]@);
        }
        let key = keys[i].as_str();
        if let Some(name) = index_crate_text(key) {
            if !with_file.contains(name.as_str()) {
                orphans.push(keys[i].clone());
                proof {
                    assert(text::texts(orphans@) =~= text::texts(before).push(key@));
                }
                if let Some(rest) = text::strip_prefix(key, "cargo/index/") {
                    let prefix = text::concat3("cargo/index-entries/", rest, "/");
                    push_entries(keys, prefix.as_str(), &mut orphans);
                }
            }
        }
        i = i + 1;
    }
    let ghost indexes = text::texts(orphans@);
    proof {
        assert(all.take(i as int) =~= all);
        assert(indexes + orphan_crates(all.take(0), all) =~= indexes);
    }
    let mut i: usize = 0;
    while i < keys.len()
        invariant
            i <= keys@.len(),
            all == text::texts(keys@),
            with_index@ == indexed(all),
            text::texts(orphans@) == indexes + orphan_crates(all.take(i as int), all),
        decreases keys@.len() - i,
    {
        let ghost before = orphans@;
        proof {
            assert(all.take(i + 1).drop_last() =~= all.take(i as int));
            assert(all.take(i + 1).last() == keys@[i as int]@);
        }
        let key = keys[i].as_str();
        if let Some(name) = file_crate_text(key) {
            if !with_index.contains(name.as_str()) {
                orphans.push(keys[i].clone());
                proof {
                    let so_far = orphan_crates(all.take(i as int), all);
                    assert(text::texts(orphans@) =~= text::texts(before).push(key@));
                    assert((indexes + so_far).push(key@) =~= indexes + so_far.push(key@));
                }
            }
        }
        i = i + 1;
    }
    proof {
        assert(all.take(i as int) =~= all);
    }
    DetectionResult { total, orphans }
}

pub proof fn lemma_checksum_orphans(
    keys: Seq<Seq<char>>,
    stats: Map<Seq<char>, FileMeta>,
    x: Seq<char>,
)
    ensures
        checksum_orphans(keys, stats).contains(x) <==> keys.contains(x) && is_checksum_orphan(
            x,
            stats,
        ),
    decreases keys.len(),
{
    if keys.len() > 0 {
        let front = keys.drop_last();
        lemma_checksum_orphans(front, stats, x);
        let before = checksum_orphans(front, stats);
        let all = checksum_orphans(keys, stats);
        if all.contains(x) {
            let k = choose|k: int| 0 <= k < all.len() && all[k] == x;
            if k < before.len() {
                assert(before[k] == x);
                assert(before.contains(x));
                let i = choose|i: int| 0 <= i < front.len() && front[i] == x;
                assert(keys[i] == x);
            } else {
                assert(keys[keys.len() - 1] == x);
            }
        }
        if keys.contains(x) && is_checksum_orphan(x, stats) {
            let i = choose|i: int| 0 <= i < keys.len() && keys[i] == x;
            if i < front.len() {
                assert(front[i] == x);
                assert(front.contains(x));
                let k = choose|k: int| 0 <= k < before.len() && before[k] == x;
                assert(all[k] == x);
            } else {
                assert(all[before.len() as int] == x);
            }
        }
    }
}

/// A sidecar is swept exactly where it is listed and its artifact is not in
/// storage; artifacts themselves are never swept as sidecars.
pub proof fn sidecars_follow_their_artifacts(
    keys: Seq<Seq<char>>,
    stats: Map<Seq<char>, FileMeta>,
    x: Seq<char>,
)
    ensures
        checksum_orphans(keys, stats).contains(x) ==> keys.contains(x) && orphanable(x),
        keys.contains(x) && orphanable(x) && sidecar_primary(x) is Some ==> (checksum_orphans(
            keys,
            stats,
        ).contains(x) <==> !stats.contains_key(sidecar_primary(x)->0)),
{
    lemma_checksum_orphans(keys, stats, x);
}

/// Outside npm a file that ends in `.meta` is no sidecar.
pub proof fn meta_files_outside_npm_are_artifacts(key: Seq<char>)
    requires
        !"npm/"@.is_prefix_of(key),
    ensures
        !meta_sidecar(key),
{
}

/// A version has a file of that suffix where one of the keys is.
pub proof fn lemma_units_with(keys: Seq<Seq<char>>, suffix: Seq<char>, u: Seq<char>)
    ensures
        units_with(keys, suffix).contains(u) <==> exists|i: int|
            0 <= i < keys.len() && go_unit(#[trigger] keys[i]) == Some(u) && text::ends_ci(
                keys[i],
                suffix,
            ),
    decreases keys.len(),
{
    if keys.len() > 0 {
        let front = keys.drop_last();
        lemma_units_with(front, suffix, u);
        assert(forall|i: int| 0 <= i < front.len() ==> front[i] == #[trigger] keys[i]);
        if units_with(keys, suffix).contains(u) {
            if units_with(front, suffix).contains(u) {
                let i = choose|i: int|
                    0 <= i < front.len() && go_unit(#[trigger] front[i]) == Some(u)
                        && text::ends_ci(front[i], suffix);
                assert(go_unit(keys[i]) == Some(u));
            } else {
                assert(go_unit(keys[keys.len() - 1]) == Some(u));
            }
        }
        if exists|i: int|
            0 <= i < keys.len() && go_unit(#[trigger] keys[i]) == Some(u) && text::ends_ci(
                keys[i],
                suffix,
            ) {
            let i = choose|i: int|
                0 <= i < keys.len() && go_unit(#[trigger] keys[i]) == Some(u) && text::ends_ci(
                    keys[i],
                    suffix,
                );
            if i < front.len() {
                assert(go_unit(front[i]) == Some(u));
            }
        }
    }
}

/// No file of a Go version that has its `.info` and its `.zip` is an orphan.
pub proof fn complete_go_versions_are_kept(
    keys: Seq<Seq<char>>,
    key: Seq<char>,
    info: int,
    zip: int,
)
    requires
        0 <= info < keys.len(),
        0 <= zip < keys.len(),
        go_unit(key) is Some,
        go_unit(keys[info]) == go_unit(key),
        go_unit(keys[zip]) == go_unit(key),
        text::ends_ci(keys[info], ".info"@),
        text::ends_ci(keys[zip], ".zip"@),
    ensures
        !is_go_orphan(key, keys),
{
    lemma_units_with(keys, ".info"@, go_unit(key)->0);
    lemma_units_with(keys, ".zip"@, go_unit(key)->0);
}

/// A crate whose file is among the keys is stored, and one whose index key is,
/// indexed.
pub proof fn lemma_stored_and_indexed(keys: Seq<Seq<char>>, i: int)
    requires
        0 <= i < keys.len(),
    ensures
        file_crate(keys[i]) matches Some(n) ==> stored(keys).contains(n),
        index_crate(keys[i]) matches Some(n) ==> indexed(keys).contains(n),
    decreases keys.len(),
{
    if i < keys.len() - 1 {
        lemma_stored_and_indexed(keys.drop_last(), i);
    }
}

/// A text with a separator has the pieces before it, and one more.
proof fn lemma_one_more_piece(s: Seq<char>, name: Seq<char>)
    requires
        !name.contains('/'),
    ensures
        text::pieces(s + "/"@ + name, '/') == text::pieces(s, '/').push(name),
    decreases name.len(),
{
    reveal_strlit("/");
    let t = s + "/"@ + name;
    if name.len() == 0 {
        assert(t.drop_last() =~= s);
        assert(name =~= Seq::<char>::empty());
    } else {
        let front = name.drop_last();
        assert(name[name.len() - 1] == name.last());
        lemma_no_separator(name);
        assert(t.drop_last() =~= s + "/"@ + front);
        assert(t.last() == name.last());
        lemma_one_more_piece(s, front);
        assert(front.push(name.last()) =~= name);
        let rest = text::pieces(s, '/').push(front);
        assert(rest.drop_last() =~= text::pieces(s, '/'));
    }
}

proof fn lemma_no_separator(name: Seq<char>)
    requires
        !name.contains('/'),
        name.len() > 0,
    ensures
        !name.drop_last().contains('/'),
        name.last() != '/',
{
    let front = name.drop_last();
    assert(name[name.len() - 1] == name.last());
    if front.contains('/') {
        let i = choose|i: int| 0 <= i < front.len() && front[i] == '/';
        assert(name[i] == '/');
    }
}

proof fn lemma_single_piece(name: Seq<char>)
    requires
        !name.contains('/'),
    ensures
        text::pieces(name, '/') == seq![name],
    decreases name.len(),
{
    if name.len() > 0 {
        lemma_no_separator(name);
        lemma_single_piece(name.drop_last());
        assert(name.drop_last().push(name.last()) =~= name);
        assert(text::pieces(name, '/') =~= seq![name]);
    } else {
        assert(name =~= Seq::<char>::empty());
    }
}

pub proof fn lemma_index_path(path: Seq<char>)
    ensures
        index_crate("cargo/index/"@ + path) == named_in(text::pieces(path, '/')),
{
    reveal_strlit("cargo/index/");
    reveal_strlit("cargo/index-entries/");
    let key = "cargo/index/"@ + path;
    assert(key.subrange(0, 12) =~= "cargo/index/"@);
    assert(key.subrange(12, key.len() as int) =~= path);
    if is_index_entry(key) {
        assert(key.subrange(0, 20)[11] == key[11]);
    }
}

/// An index key of two directories names its crate, whatever the directories
/// are called.
pub proof fn index_keys_name_their_crates(a: Seq<char>, b: Seq<char>, name: Seq<char>)
    requires
        !a.contains('/'),
        !b.contains('/'),
        !name.contains('/'),
    ensures
        index_crate("cargo/index/"@ + (a + "/"@ + b + "/"@ + name)) == Some(name),
{
    lemma_index_path(a + "/"@ + b + "/"@ + name);
    lemma_single_piece(a);
    lemma_one_more_piece(a, b);
    lemma_one_more_piece(a + "/"@ + b, name);
}

/// The index key of a crate with a name of one or two letters names it behind
/// the directory that gives their number. In no other directory does a file
/// name a crate.
pub proof fn short_index_keys_name_their_crates(dir: Seq<char>, name: Seq<char>)
    requires
        !dir.contains('/'),
        !name.contains('/'),
    ensures
        index_crate("cargo/index/"@ + (dir + "/"@ + name)) == (if dir == "1"@ && name.len() == 1
            || dir == "2"@ && name.len() == 2 {
            Some(name)
        } else {
            None
        }),
{
    lemma_index_path(dir + "/"@ + name);
    lemma_single_piece(dir);
    lemma_one_more_piece(dir, name);
}

/// A Cargo crate with a crate file and an index key loses neither.
pub proof fn matched_crates_are_kept(keys: Seq<Seq<char>>, file: int, index: int)
    requires
        0 <= file < keys.len(),
        0 <= index < keys.len(),
        file_crate(keys[file]) is Some,
        index_crate(keys[index]) == file_crate(keys[file]),
    ensures
        !cargo_orphans(keys).contains(keys[file]),
        !cargo_orphans(keys).contains(keys[index]),
{
    lemma_stored_and_indexed(keys, file);
    lemma_stored_and_indexed(keys, index);
    lemma_orphan_indexes(keys, keys, keys[file]);
    lemma_orphan_indexes(keys, keys, keys[index]);
    lemma_orphan_crates(keys, keys, keys[file]);
    lemma_orphan_crates(keys, keys, keys[index]);
    let a = orphan_indexes(keys, keys);
    let b = orphan_crates(keys, keys);
    assert forall|x: Seq<char>| (a + b).contains(x) implies a.contains(x) || b.contains(x) by {
        let k = choose|k: int| 0 <= k < (a + b).len() && (a + b)[k] == x;
        if k < a.len() {
            assert(a[k] == x);
        } else {
            assert(b[k - a.len()] == x);
        }
    }
}

pub proof fn lemma_entries_under(keys: Seq<Seq<char>>, prefix: Seq<char>, x: Seq<char>)
    ensures
        entries_under(keys, prefix).contains(x) ==> is_index_entry(x),
    decreases keys.len(),
{
    if keys.len() > 0 {
        lemma_entries_under(keys.drop_last(), prefix, x);
        let before = entries_under(keys.drop_last(), prefix);
        let all = entries_under(keys, prefix);
        if all.contains(x) {
            let k = choose|k: int| 0 <= k < all.len() && all[k] == x;
            if k < before.len() {
                assert(before[k] == x);
                assert(before.contains(x));
            }
        }
    }
}

pub proof fn lemma_orphan_indexes(keys: Seq<Seq<char>>, all: Seq<Seq<char>>, x: Seq<char>)
    ensures
        orphan_indexes(keys, all).contains(x) ==> is_index_entry(x) || (index_crate(x) matches Some(
            n,
        ) && !stored(all).contains(n)),
    decreases keys.len(),
{
    if keys.len() > 0 {
        let front = keys.drop_last();
        lemma_orphan_indexes(front, all, x);
        let before = orphan_indexes(front, all);
        let found = orphan_indexes(keys, all);
        let under = entries_under(all, entries_prefix(keys.last()));
        lemma_entries_under(all, entries_prefix(keys.last()), x);
        if found.contains(x) {
            let k = choose|k: int| 0 <= k < found.len() && found[k] == x;
            if k < before.len() {
                assert(before[k] == x);
                assert(before.contains(x));
            } else if k > before.len() {
                assert(under[k - before.len() - 1] == x);
                assert(under.contains(x));
            }
        }
    }
}

pub proof fn lemma_orphan_crates(keys: Seq<Seq<char>>, all: Seq<Seq<char>>, x: Seq<char>)
    ensures
        orphan_crates(keys, all).contains(x) ==> (file_crate(x) matches Some(n) && !indexed(
            all,
        ).contains(n)),
    decreases keys.len(),
{
    if keys.len() > 0 {
        let front = keys.drop_last();
        lemma_orphan_crates(front, all, x);
        let before = orphan_crates(front, all);
        let found = orphan_crates(keys, all);
        if found.contains(x) {
            let k = choose|k: int| 0 <= k < found.len() && found[k] == x;
            if k < before.len() {
                assert(before[k] == x);
                assert(before.contains(x));
            }
        }
    }
}

} // verus!
