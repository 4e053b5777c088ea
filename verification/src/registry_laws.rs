//! What is swept of checksums, Go versions and Cargo crates, told by the shape
//! of the keys.

use vstd::prelude::*;

use crate::collect_laws;
use crate::path;
use crate::registry_gc;
use crate::sweep;
use crate::table::FileMeta;
use crate::text;

verus! {

proof fn lemma_checksum_of(a: Seq<char>)
    ensures
        registry_gc::sidecar_primary(a + ".md5"@) == Some(a),
        registry_gc::sidecar_primary(a + ".sha1"@) == Some(a),
        registry_gc::sidecar_primary(a + ".sha256"@) == Some(a),
        registry_gc::sidecar_primary(a + ".sha512"@) == Some(a),
        registry_gc::orphanable(a + ".md5"@),
        registry_gc::orphanable(a + ".sha1"@),
        registry_gc::orphanable(a + ".sha256"@),
        registry_gc::orphanable(a + ".sha512"@),
{
    reveal_strlit(".md5");
    reveal_strlit(".sha1");
    reveal_strlit(".sha256");
    reveal_strlit(".sha512");
    reveal_strlit(".meta");
    path::lemma_other_ending(a, ".md5"@, ".meta"@);
    path::lemma_other_ending(a, ".sha1"@, ".meta"@);
    path::lemma_other_ending(a, ".sha256"@, ".meta"@);
    path::lemma_other_ending(a, ".sha512"@, ".meta"@);
    path::suffixes_come_off(a, ".md5"@);
    path::suffixes_come_off(a, ".sha1"@);
    path::suffixes_come_off(a, ".sha256"@);
    path::suffixes_come_off(a, ".sha512"@);
    path::other_suffixes_stay(a, ".sha1"@, ".md5"@);
    path::other_suffixes_stay(a, ".sha256"@, ".md5"@);
    path::other_suffixes_stay(a, ".sha256"@, ".sha1"@);
    path::other_suffixes_stay(a, ".sha512"@, ".md5"@);
    path::other_suffixes_stay(a, ".sha512"@, ".sha1"@);
    path::other_suffixes_stay(a, ".sha512"@, ".sha256"@);
    path::endings_ignore_case(a, ".md5"@, ".md5"@);
    path::endings_ignore_case(a, ".sha1"@, ".sha1"@);
    path::endings_ignore_case(a, ".sha256"@, ".sha256"@);
    path::endings_ignore_case(a, ".sha512"@, ".sha512"@);
}

/// A listed checksum of any of the four kinds is swept exactly where the file
/// that it is of is not in storage.
pub proof fn checksums_follow_their_files(
    keys: Seq<Seq<char>>,
    stats: Map<Seq<char>, FileMeta>,
    file: Seq<char>,
)
    ensures
        keys.contains(file + ".md5"@) ==> (registry_gc::checksum_orphans(keys, stats).contains(
            file + ".md5"@,
        ) <==> !stats.contains_key(file)),
        keys.contains(file + ".sha1"@) ==> (registry_gc::checksum_orphans(keys, stats).contains(
            file + ".sha1"@,
        ) <==> !stats.contains_key(file)),
        keys.contains(file + ".sha256"@) ==> (registry_gc::checksum_orphans(keys, stats).contains(
            file + ".sha256"@,
        ) <==> !stats.contains_key(file)),
        keys.contains(file + ".sha512"@) ==> (registry_gc::checksum_orphans(keys, stats).contains(
            file + ".sha512"@,
        ) <==> !stats.contains_key(file)),
{
    lemma_checksum_of(file);
    registry_gc::lemma_checksum_orphans(keys, stats, file + ".md5"@);
    registry_gc::lemma_checksum_orphans(keys, stats, file + ".sha1"@);
    registry_gc::lemma_checksum_orphans(keys, stats, file + ".sha256"@);
    registry_gc::lemma_checksum_orphans(keys, stats, file + ".sha512"@);
}

proof fn lemma_meta_of(file: Seq<char>)
    ensures
        registry_gc::meta_sidecar("npm/"@ + file + ".meta"@),
        registry_gc::orphanable("npm/"@ + file + ".meta"@),
        registry_gc::sidecar_primary("npm/"@ + file + ".meta"@) == Some("npm/"@ + file),
{
    let key = "npm/"@ + file + ".meta"@;
    assert(key =~= "npm/"@ + (file + ".meta"@));
    path::prefixes_come_off("npm/"@, file + ".meta"@);
    path::endings_ignore_case("npm/"@ + file, ".meta"@, ".meta"@);
    path::suffixes_come_off("npm/"@ + file, ".meta"@);
}

/// A listed validator sidecar of npm is swept exactly where the file that it is
/// of is not in storage.
pub proof fn npm_validators_follow_their_files(
    keys: Seq<Seq<char>>,
    stats: Map<Seq<char>, FileMeta>,
    file: Seq<char>,
)
    requires
        keys.contains("npm/"@ + file + ".meta"@),
    ensures
        registry_gc::checksum_orphans(keys, stats).contains("npm/"@ + file + ".meta"@)
            <==> !stats.contains_key("npm/"@ + file),
{
    lemma_meta_of(file);
    registry_gc::lemma_checksum_orphans(keys, stats, "npm/"@ + file + ".meta"@);
}

/// Nothing else is swept as a sidecar: what is swept is listed, and is a
/// checksum, or a validator of npm, of a file that is not in storage.
pub proof fn only_sidecars_without_a_file_are_swept(
    keys: Seq<Seq<char>>,
    stats: Map<Seq<char>, FileMeta>,
    key: Seq<char>,
)
    requires
        registry_gc::checksum_orphans(keys, stats).contains(key),
    ensures
        keys.contains(key),
        exists|file: Seq<char>|
            !#[trigger] stats.contains_key(file) && (key == file + ".md5"@ || key == file
                + ".sha1"@ || key == file + ".sha256"@ || key == file + ".sha512"@ || (key == file
                + ".meta"@ && "npm/"@.is_prefix_of(key))),
{
    registry_gc::lemma_checksum_orphans(keys, stats, key);
    let file = registry_gc::sidecar_primary(key)->0;
    path::suffixed_texts_are_put_together(key, ".md5"@);
    path::suffixed_texts_are_put_together(key, ".sha1"@);
    path::suffixed_texts_are_put_together(key, ".sha256"@);
    path::suffixed_texts_are_put_together(key, ".sha512"@);
    path::suffixed_texts_are_put_together(key, ".meta"@);
    assert(!stats.contains_key(file));
}

/// The candidates of a listing are the files that end, in whatever case, like a
/// checksum, and in npm those that end in `.meta`; each is counted.
pub proof fn sidecars_are_counted(keys: Seq<Seq<char>>, key: Seq<char>)
    ensures
        registry_gc::sidecar_count(Seq::empty()) == 0,
        registry_gc::sidecar_count(keys.push(key)) == registry_gc::sidecar_count(keys)
            + if text::ends_ci(key, ".md5"@) || text::ends_ci(key, ".sha1"@) || text::ends_ci(
            key,
            ".sha256"@,
        ) || text::ends_ci(key, ".sha512"@) || ("npm/"@.is_prefix_of(key) && text::ends_ci(
            key,
            ".meta"@,
        )) {
            1nat
        } else {
            0
        },
{
    assert(keys.push(key).drop_last() =~= keys);
}

/// The files whose presence has to be known are those that the sidecars are
/// of.
pub proof fn sidecars_ask_for_their_files(keys: Seq<Seq<char>>, file: Seq<char>)
    ensures
        registry_gc::primaries(keys.push(file + ".md5"@)) == registry_gc::primaries(keys).push(file),
        registry_gc::primaries(keys.push(file + ".sha1"@)) == registry_gc::primaries(keys).push(
            file,
        ),
        registry_gc::primaries(keys.push(file + ".sha256"@)) == registry_gc::primaries(keys).push(
            file,
        ),
        registry_gc::primaries(keys.push(file + ".sha512"@)) == registry_gc::primaries(keys).push(
            file,
        ),
        registry_gc::primaries(keys.push("npm/"@ + file + ".meta"@)) == registry_gc::primaries(
            keys,
        ).push("npm/"@ + file),
{
    lemma_checksum_of(file);
    lemma_meta_of(file);
    assert(keys.push(file + ".md5"@).drop_last() =~= keys);
    assert(keys.push(file + ".sha1"@).drop_last() =~= keys);
    assert(keys.push(file + ".sha256"@).drop_last() =~= keys);
    assert(keys.push(file + ".sha512"@).drop_last() =~= keys);
    assert(keys.push("npm/"@ + file + ".meta"@).drop_last() =~= keys);
}

/// The version that a Go file is of.
pub open spec fn go_version_at(module: Seq<char>, version: Seq<char>) -> Seq<char> {
    module + "/@v/"@ + version
}

proof fn lemma_go_file(module: Seq<char>, version: Seq<char>)
    requires
        !text::has(module + "/"@, "/@v/"@),
    ensures
        registry_gc::go_unit(go_version_at(module, version) + ".info"@) == Some(
            go_version_at(module, version),
        ),
        registry_gc::go_unit(go_version_at(module, version) + ".mod"@) == Some(
            go_version_at(module, version),
        ),
        registry_gc::go_unit(go_version_at(module, version) + ".zip"@) == Some(
            go_version_at(module, version),
        ),
{
    collect_laws::lemma_go_suffixes(version);
    lemma_go_halves(module, version, ".info"@);
    lemma_go_halves(module, version, ".mod"@);
    lemma_go_halves(module, version, ".zip"@);
}

proof fn lemma_go_halves(module: Seq<char>, version: Seq<char>, e: Seq<char>)
    requires
        !text::has(module + "/"@, "/@v/"@),
    ensures
        text::halves(go_version_at(module, version) + e, "/@v/"@) == Some((module, version + e)),
{
    reveal_strlit("/@v/");
    assert(go_version_at(module, version) + e =~= module + "/@v/"@ + (version + e));
    path::directories_come_apart(module, "/@v/"@, version + e);
}

/// A file of a version is that version and one of the three endings.
proof fn lemma_go_unit_shape(key: Seq<char>)
    ensures
        registry_gc::go_unit(key) matches Some(u) ==> key == u + ".info"@ || key == u + ".mod"@
            || key == u + ".zip"@,
{
    if let Some(u) = registry_gc::go_unit(key) {
        path::halves_stand_around_the_first(key, "/@v/"@);
        let (a, file) = text::halves(key, "/@v/"@)->0;
        path::suffixed_texts_are_put_together(file, ".info"@);
        path::suffixed_texts_are_put_together(file, ".mod"@);
        path::suffixed_texts_are_put_together(file, ".zip"@);
        if let Some(v) = text::without_suffix(file, ".info"@) {
            assert(key =~= u + ".info"@);
        } else if let Some(v) = text::without_suffix(file, ".mod"@) {
            assert(key =~= u + ".mod"@);
        } else {
            assert(key =~= u + ".zip"@);
        }
    }
}

/// A version has a file of the ending exactly where that key is listed.
proof fn lemma_go_listed(keys: Seq<Seq<char>>, u: Seq<char>)
    requires
        registry_gc::go_unit(u + ".info"@) == Some(u),
        registry_gc::go_unit(u + ".zip"@) == Some(u),
    ensures
        registry_gc::units_with(keys, ".info"@).contains(u) <==> keys.contains(u + ".info"@),
        registry_gc::units_with(keys, ".zip"@).contains(u) <==> keys.contains(u + ".zip"@),
{
    reveal_strlit(".info");
    reveal_strlit(".mod");
    reveal_strlit(".zip");
    registry_gc::lemma_units_with(keys, ".info"@, u);
    registry_gc::lemma_units_with(keys, ".zip"@, u);
    path::endings_ignore_case(u, ".info"@, ".info"@);
    path::endings_ignore_case(u, ".zip"@, ".zip"@);
    path::lemma_other_ending(u, ".mod"@, ".info"@);
    path::lemma_other_ending(u, ".zip"@, ".info"@);
    path::lemma_other_ending(u, ".info"@, ".zip"@);
    path::lemma_other_ending(u, ".mod"@, ".zip"@);
    if registry_gc::units_with(keys, ".info"@).contains(u) {
        let i = choose|i: int|
            0 <= i < keys.len() && registry_gc::go_unit(#[trigger] keys[i]) == Some(u)
                && text::ends_ci(keys[i], ".info"@);
        lemma_go_unit_shape(keys[i]);
        assert(keys[i] == u + ".info"@);
    }
    if registry_gc::units_with(keys, ".zip"@).contains(u) {
        let i = choose|i: int|
            0 <= i < keys.len() && registry_gc::go_unit(#[trigger] keys[i]) == Some(u)
                && text::ends_ci(keys[i], ".zip"@);
        lemma_go_unit_shape(keys[i]);
        assert(keys[i] == u + ".zip"@);
    }
    if keys.contains(u + ".info"@) {
        let i = choose|i: int| 0 <= i < keys.len() && keys[i] == u + ".info"@;
        assert(registry_gc::go_unit(keys[i]) == Some(u));
    }
    if keys.contains(u + ".zip"@) {
        let i = choose|i: int| 0 <= i < keys.len() && keys[i] == u + ".zip"@;
        assert(registry_gc::go_unit(keys[i]) == Some(u));
    }
}

/// The listed files of a Go version are swept exactly where its `.info` or its
/// `.zip` is not listed; whether there is a `.mod` makes no difference.
pub proof fn go_versions_need_info_and_zip(
    keys: Seq<Seq<char>>,
    module: Seq<char>,
    version: Seq<char>,
)
    requires
        !text::has(module + "/"@, "/@v/"@),
    ensures
        ({
            let v = go_version_at(module, version);
            let swept = registry_gc::go_orphans(keys, keys);
            let complete = keys.contains(v + ".info"@) && keys.contains(v + ".zip"@);
            &&& keys.contains(v + ".info"@) ==> (swept.contains(v + ".info"@) <==> !complete)
            &&& keys.contains(v + ".mod"@) ==> (swept.contains(v + ".mod"@) <==> !complete)
            &&& keys.contains(v + ".zip"@) ==> (swept.contains(v + ".zip"@) <==> !complete)
        }),
{
    let v = go_version_at(module, version);
    lemma_go_file(module, version);
    lemma_go_listed(keys, v);
    sweep::lemma_go_orphans(keys, keys, v + ".info"@);
    sweep::lemma_go_orphans(keys, keys, v + ".mod"@);
    sweep::lemma_go_orphans(keys, keys, v + ".zip"@);
}

/// What is swept of the Go registry is listed and is a file of a version.
pub proof fn only_go_version_files_are_swept(keys: Seq<Seq<char>>, key: Seq<char>)
    requires
        registry_gc::go_orphans(keys, keys).contains(key),
    ensures
        keys.contains(key),
        exists|module: Seq<char>, file: Seq<char>| key == #[trigger] (module + "/@v/"@ + file),
        exists|v: Seq<char>|
            key == #[trigger] (v + ".info"@) || key == v + ".mod"@ || key == v + ".zip"@,
{
    sweep::lemma_go_orphans(keys, keys, key);
    path::halves_stand_around_the_first(key, "/@v/"@);
    let (a, file) = text::halves(key, "/@v/"@)->0;
    assert(key == a + "/@v/"@ + file);
    lemma_go_unit_shape(key);
    let u = registry_gc::go_unit(key)->0;
    let info = u + ".info"@;
}

/// The candidates are the files of versions, each counted.
pub proof fn go_files_are_counted(
    keys: Seq<Seq<char>>,
    module: Seq<char>,
    version: Seq<char>,
    other: Seq<char>,
)
    requires
        !text::has(module + "/"@, "/@v/"@),
        !text::has(other, "/@v/"@),
    ensures
        registry_gc::go_count(Seq::empty()) == 0,
        registry_gc::go_count(keys.push(go_version_at(module, version) + ".info"@))
            == registry_gc::go_count(keys) + 1,
        registry_gc::go_count(keys.push(go_version_at(module, version) + ".mod"@))
            == registry_gc::go_count(keys) + 1,
        registry_gc::go_count(keys.push(go_version_at(module, version) + ".zip"@))
            == registry_gc::go_count(keys) + 1,
        registry_gc::go_count(keys.push(other)) == registry_gc::go_count(keys),
{
    lemma_go_file(module, version);
    path::halves_stand_around_the_first(other, "/@v/"@);
    if let Some((a, b)) = text::halves(other, "/@v/"@) {
        path::lemma_stands_between(a, "/@v/"@, b);
    }
    assert(keys.push(go_version_at(module, version) + ".info"@).drop_last() =~= keys);
    assert(keys.push(go_version_at(module, version) + ".mod"@).drop_last() =~= keys);
    assert(keys.push(go_version_at(module, version) + ".zip"@).drop_last() =~= keys);
    assert(keys.push(other).drop_last() =~= keys);
}

/// A crate file is of the crate whose directory it lies in; files in the index
/// and files that do not end in `.crate` are of none.
pub proof fn crate_files_lie_under_their_crate(name: Seq<char>, rest: Seq<char>)
    requires
        !name.contains('/'),
        name != "index"@,
        name != "index-entries"@,
    ensures
        registry_gc::file_crate("cargo/"@ + name + "/"@ + rest) == (if text::ends_ci(
            "cargo/"@ + name + "/"@ + rest,
            ".crate"@,
        ) {
            Some(name)
        } else {
            None
        }),
        registry_gc::index_crate("cargo/"@ + name + "/"@ + rest) is None,
        registry_gc::file_crate("cargo/index/"@ + rest) is None,
        registry_gc::file_crate("cargo/index-entries/"@ + rest) is None,
        registry_gc::index_crate("cargo/index-entries/"@ + rest) is None,
{
    let key = "cargo/"@ + name + "/"@ + rest;
    path::prefixes_come_off("cargo/index/"@, rest);
    path::prefixes_come_off("cargo/index-entries/"@, rest);
    lemma_outside_the_index(name, rest);
    assert(key =~= "cargo/"@ + (name + "/"@ + rest));
    path::prefixes_come_off("cargo/"@, name + "/"@ + rest);
    collect_laws::lemma_slash_pieces(name, rest);
    path::lemma_single_piece(name, '/');
}

proof fn lemma_outside_the_index(name: Seq<char>, rest: Seq<char>)
    requires
        !name.contains('/'),
        name != "index"@,
        name != "index-entries"@,
    ensures
        !"cargo/index/"@.is_prefix_of("cargo/"@ + name + "/"@ + rest),
        !"cargo/index-entries/"@.is_prefix_of("cargo/"@ + name + "/"@ + rest),
{
    reveal_strlit("cargo/");
    reveal_strlit("cargo/index/");
    reveal_strlit("cargo/index-entries/");
    reveal_strlit("index");
    reveal_strlit("index-entries");
    reveal_strlit("/");
    let key = "cargo/"@ + name + "/"@ + rest;
    let tail = name.push('/') + rest;
    assert(key =~= "cargo/"@ + tail);
    collect_laws::lemma_first_directory("index"@, name, rest);
    collect_laws::lemma_first_directory("index-entries"@, name, rest);
    if "cargo/index/"@.is_prefix_of(key) {
        assert(tail.subrange(0, 6) =~= key.subrange(6, 12));
        assert(key.subrange(6, 12) =~= key.subrange(0, 12).subrange(6, 12));
        assert("index"@.push('/') =~= "cargo/index/"@.subrange(6, 12));
        assert("index"@.push('/').is_prefix_of(tail));
    }
    if "cargo/index-entries/"@.is_prefix_of(key) {
        assert(tail.subrange(0, 14) =~= key.subrange(6, 20));
        assert(key.subrange(6, 20) =~= key.subrange(0, 20).subrange(6, 20));
        assert("index-entries"@.push('/') =~= "cargo/index-entries/"@.subrange(6, 20));
        assert("index-entries"@.push('/').is_prefix_of(tail));
    }
}

/// A listed index key is swept exactly where no crate file of its crate is
/// listed, and a listed crate file exactly where no index key of its crate is.
pub proof fn crates_need_file_and_index(keys: Seq<Seq<char>>, i: int, name: Seq<char>)
    requires
        0 <= i < keys.len(),
    ensures
        registry_gc::index_crate(keys[i]) == Some(name) ==> (registry_gc::cargo_orphans(
            keys,
        ).contains(keys[i]) <==> forall|j: int|
            0 <= j < keys.len() ==> registry_gc::file_crate(#[trigger] keys[j]) != Some(name)),
        registry_gc::file_crate(keys[i]) == Some(name) ==> (registry_gc::cargo_orphans(
            keys,
        ).contains(keys[i]) <==> forall|j: int|
            0 <= j < keys.len() ==> registry_gc::index_crate(#[trigger] keys[j]) != Some(name)),
{
    let key = keys[i];
    let a = registry_gc::orphan_indexes(keys, keys);
    let b = registry_gc::orphan_crates(keys, keys);
    sweep::lemma_has_crate(keys, name);
    sweep::lemma_unmatched_crate(keys, keys, i);
    registry_gc::lemma_orphan_indexes(keys, keys, key);
    registry_gc::lemma_orphan_crates(keys, keys, key);
    assert forall|j: int| 0 <= j < keys.len() implies (registry_gc::file_crate(
        #[trigger] keys[j],
    ) == Some(name) ==> registry_gc::stored(keys).contains(name)) && (registry_gc::index_crate(
        keys[j],
    ) == Some(name) ==> registry_gc::indexed(keys).contains(name)) by {
        registry_gc::lemma_stored_and_indexed(keys, j);
    }
    if (a + b).contains(key) {
        let k = choose|k: int| 0 <= k < (a + b).len() && (a + b)[k] == key;
        if k < a.len() {
            assert(a[k] == key);
            assert(a.contains(key));
        } else {
            assert(b[k - a.len()] == key);
            assert(b.contains(key));
        }
    }
    if a.contains(key) {
        let k = choose|k: int| 0 <= k < a.len() && a[k] == key;
        assert((a + b)[k] == key);
    }
    if b.contains(key) {
        let k = choose|k: int| 0 <= k < b.len() && b[k] == key;
        assert((a + b)[a.len() + k] == key);
    }
}

proof fn lemma_entries(keys: Seq<Seq<char>>, prefix: Seq<char>, x: Seq<char>)
    requires
        keys.contains(x),
        "cargo/index-entries/"@.is_prefix_of(x),
        prefix.is_prefix_of(x),
    ensures
        registry_gc::entries_under(keys, prefix).contains(x),
    decreases keys.len(),
{
    let front = keys.drop_last();
    let i = choose|i: int| 0 <= i < keys.len() && keys[i] == x;
    let before = registry_gc::entries_under(front, prefix);
    let all = registry_gc::entries_under(keys, prefix);
    if i < front.len() {
        assert(front[i] == x);
        lemma_entries(front, prefix, x);
        let k = choose|k: int| 0 <= k < before.len() && before[k] == x;
        assert(all[k] == x);
    } else {
        assert(all[before.len() as int] == x);
    }
}

proof fn lemma_entries_go_along(
    keys: Seq<Seq<char>>,
    all: Seq<Seq<char>>,
    i: int,
    x: Seq<char>,
)
    requires
        0 <= i < keys.len(),
        registry_gc::index_crate(keys[i]) matches Some(n) && !registry_gc::stored(all).contains(n),
        registry_gc::entries_under(all, registry_gc::entries_prefix(keys[i])).contains(x),
    ensures
        registry_gc::orphan_indexes(keys, all).contains(x),
    decreases keys.len(),
{
    let front = keys.drop_last();
    let before = registry_gc::orphan_indexes(front, all);
    let found = registry_gc::orphan_indexes(keys, all);
    if i < front.len() {
        assert(front[i] == keys[i]);
        lemma_entries_go_along(front, all, i, x);
        let k = choose|k: int| 0 <= k < before.len() && before[k] == x;
        assert(found[k] == x);
    } else {
        let under = registry_gc::entries_under(all, registry_gc::entries_prefix(keys[i]));
        let k = choose|k: int| 0 <= k < under.len() && under[k] == x;
        assert(found[before.len() + 1 + k] == x);
    }
}

/// The listed per-version entries of an index key go with it.
pub proof fn index_entries_go_with_their_index(
    keys: Seq<Seq<char>>,
    in_index: Seq<char>,
    name: Seq<char>,
    entry: Seq<char>,
)
    requires
        keys.contains("cargo/index/"@ + in_index),
        registry_gc::index_crate("cargo/index/"@ + in_index) == Some(name),
        forall|j: int|
            0 <= j < keys.len() ==> registry_gc::file_crate(#[trigger] keys[j]) != Some(name),
        keys.contains("cargo/index-entries/"@ + in_index + "/"@ + entry),
    ensures
        registry_gc::cargo_orphans(keys).contains(
            "cargo/index-entries/"@ + in_index + "/"@ + entry,
        ),
{
    let key = "cargo/index/"@ + in_index;
    let x = "cargo/index-entries/"@ + in_index + "/"@ + entry;
    let prefix = "cargo/index-entries/"@ + in_index + "/"@;
    path::prefixes_come_off("cargo/index/"@, in_index);
    path::prefixes_come_off(prefix, entry);
    path::prefixes_come_off("cargo/index-entries/"@, in_index + "/"@ + entry);
    assert(x =~= "cargo/index-entries/"@ + (in_index + "/"@ + entry));
    lemma_entries(keys, prefix, x);
    let i = choose|i: int| 0 <= i < keys.len() && keys[i] == key;
    sweep::lemma_has_crate(keys, name);
    lemma_entries_go_along(keys, keys, i, x);
    let a = registry_gc::orphan_indexes(keys, keys);
    let b = registry_gc::orphan_crates(keys, keys);
    let k = choose|k: int| 0 <= k < a.len() && a[k] == x;
    assert((a + b)[k] == x);
}

/// An index key, an entry under one, and a crate file aside, nothing of the
/// Cargo registry is swept.
pub proof fn other_cargo_files_stay(keys: Seq<Seq<char>>, key: Seq<char>)
    requires
        registry_gc::cargo_orphans(keys).contains(key),
    ensures
        "cargo/index-entries/"@.is_prefix_of(key) || registry_gc::index_crate(key) is Some
            || registry_gc::file_crate(key) is Some,
{
    let a = registry_gc::orphan_indexes(keys, keys);
    let b = registry_gc::orphan_crates(keys, keys);
    registry_gc::lemma_orphan_indexes(keys, keys, key);
    registry_gc::lemma_orphan_crates(keys, keys, key);
    let k = choose|k: int| 0 <= k < (a + b).len() && (a + b)[k] == key;
    if k < a.len() {
        assert(a[k] == key);
        assert(a.contains(key));
    } else {
        assert(b[k - a.len()] == key);
        assert(b.contains(key));
    }
}

/// The entries under a swept index key, and no others, go.
pub proof fn only_entries_of_swept_indexes_go(
    keys: Seq<Seq<char>>,
    key: Seq<char>,
)
    requires
        registry_gc::cargo_orphans(keys).contains(key),
        "cargo/index-entries/"@.is_prefix_of(key),
    ensures
        exists|i: int|
            0 <= i < keys.len() && (registry_gc::index_crate(#[trigger] keys[i]) matches Some(n)
                && !registry_gc::stored(keys).contains(n))
                && registry_gc::entries_prefix(keys[i]).is_prefix_of(key),
{
    let a = registry_gc::orphan_indexes(keys, keys);
    let b = registry_gc::orphan_crates(keys, keys);
    let k = choose|k: int| 0 <= k < (a + b).len() && (a + b)[k] == key;
    if k < a.len() {
        assert(a[k] == key);
        assert(a.contains(key));
        lemma_entry_origin(keys, keys, key);
    } else {
        assert(b[k - a.len()] == key);
        assert(b.contains(key));
        registry_gc::lemma_orphan_crates(keys, keys, key);
        assert(false);
    }
}

proof fn lemma_entry_origin(keys: Seq<Seq<char>>, all: Seq<Seq<char>>, key: Seq<char>)
    requires
        registry_gc::orphan_indexes(keys, all).contains(key),
        "cargo/index-entries/"@.is_prefix_of(key),
    ensures
        exists|i: int|
            0 <= i < keys.len() && (registry_gc::index_crate(#[trigger] keys[i]) matches Some(n)
                && !registry_gc::stored(all).contains(n))
                && registry_gc::entries_prefix(keys[i]).is_prefix_of(key),
    decreases keys.len(),
{
    let front = keys.drop_last();
    let before = registry_gc::orphan_indexes(front, all);
    let found = registry_gc::orphan_indexes(keys, all);
    let k = choose|k: int| 0 <= k < found.len() && found[k] == key;
    if k < before.len() {
        assert(before[k] == key);
        assert(before.contains(key));
        lemma_entry_origin(front, all, key);
        let i = choose|i: int|
            0 <= i < front.len() && (registry_gc::index_crate(#[trigger] front[i]) matches Some(n)
                && !registry_gc::stored(all).contains(n))
                && registry_gc::entries_prefix(front[i]).is_prefix_of(key);
        assert(keys[i] == front[i]);
    } else {
        let n = keys.len() - 1;
        assert(keys[n] == keys.last());
        let under = registry_gc::entries_under(all, registry_gc::entries_prefix(keys.last()));
        if k > before.len() {
            assert(under[k - before.len() - 1] == key);
            assert(under.contains(key));
            lemma_entry_prefix(all, registry_gc::entries_prefix(keys.last()), key);
        }
        assert(registry_gc::index_crate(keys[n]) is Some);
    }
}

proof fn lemma_entry_prefix(keys: Seq<Seq<char>>, prefix: Seq<char>, x: Seq<char>)
    requires
        registry_gc::entries_under(keys, prefix).contains(x),
    ensures
        prefix.is_prefix_of(x),
        keys.contains(x),
    decreases keys.len(),
{
    let front = keys.drop_last();
    let before = registry_gc::entries_under(front, prefix);
    let all = registry_gc::entries_under(keys, prefix);
    let k = choose|k: int| 0 <= k < all.len() && all[k] == x;
    if k < before.len() {
        assert(before[k] == x);
        assert(before.contains(x));
        lemma_entry_prefix(front, prefix, x);
        let i = choose|i: int| 0 <= i < front.len() && front[i] == x;
        assert(keys[i] == x);
    } else {
        assert(keys[keys.len() - 1] == x);
    }
}

/// The candidates are the index keys and the crate files, each counted.
pub proof fn cargo_files_are_counted(keys: Seq<Seq<char>>, key: Seq<char>)
    ensures
        registry_gc::cargo_count(Seq::empty()) == 0,
        registry_gc::cargo_count(keys.push(key)) == registry_gc::cargo_count(keys) + if
            registry_gc::index_crate(key) is Some || registry_gc::file_crate(key) is Some {
            1nat
        } else {
            0
        },
{
    assert(keys.push(key).drop_last() =~= keys);
}

/// Only keys of the index are for a crate in it.
pub proof fn index_keys_lie_in_the_index(key: Seq<char>)
    ensures
        registry_gc::index_crate(key) is Some ==> "cargo/index/"@.is_prefix_of(key)
            && !"cargo/index-entries/"@.is_prefix_of(key),
{
}

/// The third segment of an index key names the crate, whatever lies below it; a
/// file directly in the index names none.
pub proof fn index_keys_name_their_third_segment(
    a: Seq<char>,
    b: Seq<char>,
    name: Seq<char>,
    rest: Seq<char>,
)
    requires
        !a.contains('/'),
        !b.contains('/'),
        !name.contains('/'),
    ensures
        registry_gc::index_crate("cargo/index/"@ + (a + "/"@ + (b + "/"@ + (name + "/"@ + rest))))
            == Some(name),
        registry_gc::index_crate("cargo/index/"@ + a) is None,
{
    let below = name + "/"@ + rest;
    let path = a + "/"@ + (b + "/"@ + below);
    registry_gc::lemma_index_path(path);
    registry_gc::lemma_index_path(a);
    collect_laws::lemma_slash_pieces(a, b + "/"@ + below);
    collect_laws::lemma_slash_pieces(b, below);
    collect_laws::lemma_slash_pieces(name, rest);
    path::lemma_single_piece(a, '/');
    path::lemma_single_piece(b, '/');
    path::lemma_single_piece(name, '/');
}

} // verus!
