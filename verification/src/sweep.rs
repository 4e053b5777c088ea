//! What a sweep leaves behind.
//!
//! Once the orphans of a registry are deleted, a second detection finds none:
//! a sweep takes nothing that holds another key in place.

use vstd::prelude::*;

use crate::docker_gc;
use crate::registry_gc;
use crate::table::FileMeta;
use crate::text;

verus! {

/// The keys without those that were swept.
pub open spec fn left(keys: Seq<Seq<char>>, swept: Seq<Seq<char>>) -> Seq<Seq<char>>
    decreases keys.len(),
{
    if keys.len() == 0 {
        Seq::empty()
    } else {
        let before = left(keys.drop_last(), swept);
        if swept.contains(keys.last()) {
            before
        } else {
            before.push(keys.last())
        }
    }
}

/// A key is left where it was there and was not swept.
pub proof fn lemma_left(keys: Seq<Seq<char>>, swept: Seq<Seq<char>>, x: Seq<char>)
    ensures
        left(keys, swept).contains(x) <==> keys.contains(x) && !swept.contains(x),
    decreases keys.len(),
{
    if keys.len() > 0 {
        let front = keys.drop_last();
        lemma_left(front, swept, x);
        let before = left(front, swept);
        let all = left(keys, swept);
        if all.contains(x) {
            let k = choose|k: int| 0 <= k < all.len() && all[k] == x;
            if k < before.len() {
                assert(before[k] == x);
                assert(before.contains(x));
                let i = choose|i: int| 0 <= i < front.len() && front[i] == x;
                assert(keys[i] == x);
            } else {
                assert(keys[keys.len() - 1] == x);
            }
        }
        if keys.contains(x) && !swept.contains(x) {
            let i = choose|i: int| 0 <= i < keys.len() && keys[i] == x;
            if i < front.len() {
                assert(front[i] == x);
                assert(front.contains(x));
                let k = choose|k: int| 0 <= k < before.len() && before[k] == x;
                assert(all[k] == x);
            } else {
                assert(all[before.len() as int] == x);
            }
        }
    }
}

/// What the tags reach does not change where no tag manifest is swept.
proof fn lemma_tags_left(
    keys: Seq<Seq<char>>,
    files: Map<Seq<char>, Vec<u8>>,
    swept: Seq<Seq<char>>,
)
    requires
        forall|i: int|
            0 <= i < keys.len() && docker_gc::is_tag_manifest(#[trigger] keys[i])
                ==> !swept.contains(keys[i]),
    ensures
        docker_gc::listed(left(keys, swept), files) == docker_gc::listed(keys, files),
        docker_gc::tagged(left(keys, swept), files) == docker_gc::tagged(keys, files),
        docker_gc::tag_refs(left(keys, swept), files) == docker_gc::tag_refs(keys, files),
    decreases keys.len(),
{
    if keys.len() > 0 {
        let front = keys.drop_last();
        assert forall|i: int|
            0 <= i < front.len() && docker_gc::is_tag_manifest(
                #[trigger] front[i],
            ) implies !swept.contains(front[i]) by {
            assert(front[i] == keys[i]);
        }
        lemma_tags_left(front, files, swept);
        assert(keys.last() == keys[keys.len() - 1]);
        if !swept.contains(keys.last()) {
            let before = left(front, swept);
            assert(left(keys, swept).drop_last() =~= before);
            assert(left(keys, swept).last() == keys.last());
        }
    }
}

/// What listed manifests refer to does not change where none of them is swept.
proof fn lemma_lists_left(
    keys: Seq<Seq<char>>,
    files: Map<Seq<char>, Vec<u8>>,
    lists: Set<Seq<char>>,
    swept: Seq<Seq<char>>,
)
    requires
        forall|i: int|
            0 <= i < keys.len() && docker_gc::is_sub_manifest(#[trigger] keys[i], lists)
                ==> !swept.contains(keys[i]),
    ensures
        docker_gc::sub_refs(left(keys, swept), files, lists) == docker_gc::sub_refs(
            keys,
            files,
            lists,
        ),
    decreases keys.len(),
{
    if keys.len() > 0 {
        let front = keys.drop_last();
        assert forall|i: int|
            0 <= i < front.len() && docker_gc::is_sub_manifest(
                #[trigger] front[i],
                lists,
            ) implies !swept.contains(front[i]) by {
            assert(front[i] == keys[i]);
        }
        lemma_lists_left(front, files, lists, swept);
        assert(keys.last() == keys[keys.len() - 1]);
        if !swept.contains(keys.last()) {
            let before = left(front, swept);
            assert(left(keys, swept).drop_last() =~= before);
            assert(left(keys, swept).last() == keys.last());
        }
    }
}

/// Every blob that nothing refers to is an orphan.
proof fn lemma_unreferenced_blob(keys: Seq<Seq<char>>, refs: Set<Seq<char>>, i: int)
    requires
        0 <= i < keys.len(),
        docker_gc::is_blob(keys[i]),
        !refs.contains(text::tail_after(keys[i], '/')),
    ensures
        docker_gc::orphan_blobs(keys, refs).contains(keys[i]),
    decreases keys.len(),
{
    let front = keys.drop_last();
    let before = docker_gc::orphan_blobs(front, refs);
    let all = docker_gc::orphan_blobs(keys, refs);
    if i < front.len() {
        lemma_unreferenced_blob(front, refs, i);
        let k = choose|k: int| 0 <= k < before.len() && before[k] == keys[i];
        assert(all[k] == keys[i]);
    } else {
        assert(all[before.len() as int] == keys[i]);
    }
}

/// Every manifest that no tag reaches is an orphan.
proof fn lemma_unreached_manifest(
    keys: Seq<Seq<char>>,
    all: Seq<Seq<char>>,
    lists: Set<Seq<char>>,
    tags: Set<Seq<char>>,
    i: int,
)
    requires
        0 <= i < keys.len(),
        docker_gc::is_orphan_manifest(keys[i], lists, tags),
    ensures
        docker_gc::orphan_manifests(keys, all, lists, tags).contains(keys[i]),
    decreases keys.len(),
{
    let front = keys.drop_last();
    let before = docker_gc::orphan_manifests(front, all, lists, tags);
    let found = docker_gc::orphan_manifests(keys, all, lists, tags);
    if i < front.len() {
        lemma_unreached_manifest(front, all, lists, tags, i);
        let k = choose|k: int| 0 <= k < before.len() && before[k] == keys[i];
        assert(found[k] == keys[i]);
    } else {
        assert(docker_gc::with_sidecar(keys[i], all)[0] == keys[i]);
        assert(found[before.len() as int] == keys[i]);
    }
}

proof fn lemma_no_orphan_blobs(keys: Seq<Seq<char>>, refs: Set<Seq<char>>)
    requires
        forall|i: int|
            0 <= i < keys.len() && docker_gc::is_blob(#[trigger] keys[i]) ==> refs.contains(
                text::tail_after(keys[i], '/'),
            ),
    ensures
        docker_gc::orphan_blobs(keys, refs).len() == 0,
    decreases keys.len(),
{
    if keys.len() > 0 {
        let front = keys.drop_last();
        assert forall|i: int|
            0 <= i < front.len() && docker_gc::is_blob(#[trigger] front[i]) implies refs.contains(
            text::tail_after(front[i], '/'),
        ) by {
            assert(front[i] == keys[i]);
        }
        lemma_no_orphan_blobs(front, refs);
        assert(keys.last() == keys[keys.len() - 1]);
    }
}

proof fn lemma_no_orphan_manifests(
    keys: Seq<Seq<char>>,
    all: Seq<Seq<char>>,
    lists: Set<Seq<char>>,
    tags: Set<Seq<char>>,
)
    requires
        forall|i: int|
            0 <= i < keys.len() ==> !docker_gc::is_orphan_manifest(#[trigger] keys[i], lists, tags),
    ensures
        docker_gc::orphan_manifests(keys, all, lists, tags).len() == 0,
    decreases keys.len(),
{
    if keys.len() > 0 {
        let front = keys.drop_last();
        assert forall|i: int| 0 <= i < front.len() implies !docker_gc::is_orphan_manifest(
            #[trigger] front[i],
            lists,
            tags,
        ) by {
            assert(front[i] == keys[i]);
        }
        lemma_no_orphan_manifests(front, all, lists, tags);
        assert(keys.last() == keys[keys.len() - 1]);
    }
}

/// A Docker registry without its orphans has no orphans.
pub proof fn swept_docker_has_no_orphans(keys: Seq<Seq<char>>, files: Map<Seq<char>, Vec<u8>>)
    ensures
        docker_gc::docker_orphans(
            left(keys, docker_gc::docker_orphans(keys, files)),
            files,
        ).len() == 0,
{
    let swept = docker_gc::docker_orphans(keys, files);
    let rest = left(keys, swept);
    let lists = docker_gc::listed(keys, files);
    let tags = docker_gc::tagged(keys, files);
    let refs = docker_gc::referenced(keys, files);
    assert forall|i: int|
        0 <= i < keys.len() && docker_gc::is_tag_manifest(#[trigger] keys[i]) implies !swept.contains(
        keys[i],
    ) by {
        docker_gc::tagged_manifests_are_kept(keys, files, i, keys[i]);
    }
    lemma_tags_left(keys, files, swept);
    assert forall|i: int|
        0 <= i < keys.len() && docker_gc::is_sub_manifest(
            #[trigger] keys[i],
            lists,
        ) implies !swept.contains(keys[i]) by {
        if swept.contains(keys[i]) {
            docker_gc::lemma_orphan_parts(keys, files, keys[i]);
        }
    }
    lemma_lists_left(keys, files, lists, swept);
    let blobs = docker_gc::orphan_blobs(keys, refs);
    let manifests = docker_gc::orphan_manifests(keys, keys, lists, tags);
    assert forall|i: int| 0 <= i < rest.len() implies (docker_gc::is_blob(#[trigger] rest[i])
        ==> refs.contains(text::tail_after(rest[i], '/'))) && !docker_gc::is_orphan_manifest(
        rest[i],
        lists,
        tags,
    ) by {
        let x = rest[i];
        lemma_left(keys, swept, x);
        assert(rest.contains(x));
        let j = choose|j: int| 0 <= j < keys.len() && keys[j] == x;
        if docker_gc::is_blob(x) && !refs.contains(text::tail_after(x, '/')) {
            lemma_unreferenced_blob(keys, refs, j);
            let k = choose|k: int| 0 <= k < blobs.len() && blobs[k] == x;
            assert(swept[k] == x);
        }
        if docker_gc::is_orphan_manifest(x, lists, tags) {
            lemma_unreached_manifest(keys, keys, lists, tags, j);
            let k = choose|k: int| 0 <= k < manifests.len() && manifests[k] == x;
            assert(swept[blobs.len() + k] == x);
        }
    }
    lemma_no_orphan_blobs(rest, refs);
    lemma_no_orphan_manifests(rest, rest, lists, tags);
}

pub proof fn lemma_go_orphans(keys: Seq<Seq<char>>, all: Seq<Seq<char>>, x: Seq<char>)
    ensures
        registry_gc::go_orphans(keys, all).contains(x) <==> keys.contains(x)
            && registry_gc::is_go_orphan(x, all),
    decreases keys.len(),
{
    if keys.len() > 0 {
        let front = keys.drop_last();
        lemma_go_orphans(front, all, x);
        let before = registry_gc::go_orphans(front, all);
        let found = registry_gc::go_orphans(keys, all);
        if found.contains(x) {
            let k = choose|k: int| 0 <= k < found.len() && found[k] == x;
            if k < before.len() {
                assert(before[k] == x);
                assert(before.contains(x));
                let i = choose|i: int| 0 <= i < front.len() && front[i] == x;
                assert(keys[i] == x);
            } else {
                assert(keys[keys.len() - 1] == x);
            }
        }
        if keys.contains(x) && registry_gc::is_go_orphan(x, all) {
            let i = choose|i: int| 0 <= i < keys.len() && keys[i] == x;
            if i < front.len() {
                assert(front[i] == x);
                assert(front.contains(x));
                let k = choose|k: int| 0 <= k < before.len() && before[k] == x;
                assert(found[k] == x);
            } else {
                assert(found[before.len() as int] == x);
            }
        }
    }
}

/// A file of a complete version is not swept, so its suffix stays.
proof fn lemma_units_left(keys: Seq<Seq<char>>, suffix: Seq<char>, u: Seq<char>)
    requires
        registry_gc::units_with(keys, ".info"@).contains(u),
        registry_gc::units_with(keys, ".zip"@).contains(u),
        registry_gc::units_with(keys, suffix).contains(u),
    ensures
        registry_gc::units_with(
            left(keys, registry_gc::go_orphans(keys, keys)),
            suffix,
        ).contains(u),
{
    let swept = registry_gc::go_orphans(keys, keys);
    let rest = left(keys, swept);
    registry_gc::lemma_units_with(keys, suffix, u);
    let i = choose|i: int|
        0 <= i < keys.len() && registry_gc::go_unit(#[trigger] keys[i]) == Some(u)
            && text::ends_ci(keys[i], suffix);
    let x = keys[i];
    lemma_go_orphans(keys, keys, x);
    lemma_left(keys, swept, x);
    assert(keys.contains(x));
    let k = choose|k: int| 0 <= k < rest.len() && rest[k] == x;
    assert(registry_gc::go_unit(rest[k]) == Some(u));
    registry_gc::lemma_units_with(rest, suffix, u);
}

/// A Go registry without its orphans has no orphans.
pub proof fn swept_go_has_no_orphans(keys: Seq<Seq<char>>)
    ensures
        registry_gc::go_orphans(
            left(keys, registry_gc::go_orphans(keys, keys)),
            left(keys, registry_gc::go_orphans(keys, keys)),
        ).len() == 0,
{
    let swept = registry_gc::go_orphans(keys, keys);
    let rest = left(keys, swept);
    let again = registry_gc::go_orphans(rest, rest);
    if again.len() > 0 {
        let x = again[0];
        assert(again.contains(x));
        lemma_go_orphans(rest, rest, x);
        lemma_left(keys, swept, x);
        lemma_go_orphans(keys, keys, x);
        let u = registry_gc::go_unit(x)->0;
        lemma_units_left(keys, ".info"@, u);
        lemma_units_left(keys, ".zip"@, u);
    }
}

pub proof fn lemma_has_crate(keys: Seq<Seq<char>>, name: Seq<char>)
    ensures
        registry_gc::stored(keys).contains(name) ==> exists|i: int|
            0 <= i < keys.len() && registry_gc::file_crate(#[trigger] keys[i]) == Some(name),
        registry_gc::indexed(keys).contains(name) ==> exists|i: int|
            0 <= i < keys.len() && registry_gc::index_crate(#[trigger] keys[i]) == Some(name),
    decreases keys.len(),
{
    if keys.len() > 0 {
        let front = keys.drop_last();
        lemma_has_crate(front, name);
        assert(keys.last() == keys[keys.len() - 1]);
        if registry_gc::stored(front).contains(name) {
            let i = choose|i: int|
                0 <= i < front.len() && registry_gc::file_crate(#[trigger] front[i]) == Some(name);
            assert(registry_gc::file_crate(keys[i]) == Some(name));
        }
        if registry_gc::indexed(front).contains(name) {
            let i = choose|i: int|
                0 <= i < front.len() && registry_gc::index_crate(#[trigger] front[i]) == Some(name);
            assert(registry_gc::index_crate(keys[i]) == Some(name));
        }
    }
}

/// An index key without a crate file, and a crate file without an index key, is
/// an orphan.
pub proof fn lemma_unmatched_crate(keys: Seq<Seq<char>>, all: Seq<Seq<char>>, i: int)
    requires
        0 <= i < keys.len(),
    ensures
        registry_gc::index_crate(keys[i]) matches Some(n) ==> registry_gc::stored(all).contains(n)
            || registry_gc::orphan_indexes(keys, all).contains(keys[i]),
        registry_gc::file_crate(keys[i]) matches Some(n) ==> registry_gc::indexed(all).contains(n)
            || registry_gc::orphan_crates(keys, all).contains(keys[i]),
    decreases keys.len(),
{
    let front = keys.drop_last();
    let indexes = registry_gc::orphan_indexes(front, all);
    let crates = registry_gc::orphan_crates(front, all);
    let all_indexes = registry_gc::orphan_indexes(keys, all);
    let all_crates = registry_gc::orphan_crates(keys, all);
    if i < front.len() {
        lemma_unmatched_crate(front, all, i);
        if indexes.contains(keys[i]) {
            let k = choose|k: int| 0 <= k < indexes.len() && indexes[k] == keys[i];
            assert(all_indexes[k] == keys[i]);
        }
        if crates.contains(keys[i]) {
            let k = choose|k: int| 0 <= k < crates.len() && crates[k] == keys[i];
            assert(all_crates[k] == keys[i]);
        }
    } else {
        if let Some(n) = registry_gc::index_crate(keys[i]) {
            if !registry_gc::stored(all).contains(n) {
                assert(all_indexes[indexes.len() as int] == keys[i]);
            }
        }
        if let Some(n) = registry_gc::file_crate(keys[i]) {
            if !registry_gc::indexed(all).contains(n) {
                assert(all_crates[crates.len() as int] == keys[i]);
            }
        }
    }
}

proof fn lemma_no_cargo_orphans(keys: Seq<Seq<char>>, all: Seq<Seq<char>>)
    requires
        forall|i: int|
            0 <= i < keys.len() ==> (registry_gc::index_crate(#[trigger] keys[i]) matches Some(n)
                ==> registry_gc::stored(all).contains(n)),
        forall|i: int|
            0 <= i < keys.len() ==> (registry_gc::file_crate(#[trigger] keys[i]) matches Some(n)
                ==> registry_gc::indexed(all).contains(n)),
    ensures
        registry_gc::orphan_indexes(keys, all).len() == 0,
        registry_gc::orphan_crates(keys, all).len() == 0,
    decreases keys.len(),
{
    if keys.len() > 0 {
        let front = keys.drop_last();
        assert forall|i: int| 0 <= i < front.len() implies (registry_gc::index_crate(
            #[trigger] front[i],
        ) matches Some(n) ==> registry_gc::stored(all).contains(n)) by {
            assert(front[i] == keys[i]);
        }
        assert forall|i: int| 0 <= i < front.len() implies (registry_gc::file_crate(
            #[trigger] front[i],
        ) matches Some(n) ==> registry_gc::indexed(all).contains(n)) by {
            assert(front[i] == keys[i]);
        }
        lemma_no_cargo_orphans(front, all);
        assert(keys.last() == keys[keys.len() - 1]);
    }
}

/// Of a crate with a file and an index key, both are left.
proof fn lemma_matched_crate_left(keys: Seq<Seq<char>>, file: int, index: int)
    requires
        0 <= file < keys.len(),
        0 <= index < keys.len(),
        registry_gc::file_crate(keys[file]) is Some,
        registry_gc::index_crate(keys[index]) == registry_gc::file_crate(keys[file]),
    ensures
        registry_gc::stored(left(keys, registry_gc::cargo_orphans(keys))).contains(
            registry_gc::file_crate(keys[file])->0,
        ),
        registry_gc::indexed(left(keys, registry_gc::cargo_orphans(keys))).contains(
            registry_gc::file_crate(keys[file])->0,
        ),
{
    let swept = registry_gc::cargo_orphans(keys);
    let rest = left(keys, swept);
    registry_gc::matched_crates_are_kept(keys, file, index);
    lemma_left(keys, swept, keys[file]);
    lemma_left(keys, swept, keys[index]);
    assert(keys.contains(keys[file]));
    assert(keys.contains(keys[index]));
    let f = choose|k: int| 0 <= k < rest.len() && rest[k] == keys[file];
    let x = choose|k: int| 0 <= k < rest.len() && rest[k] == keys[index];
    registry_gc::lemma_stored_and_indexed(rest, f);
    registry_gc::lemma_stored_and_indexed(rest, x);
}

/// A Cargo registry without its orphans has no orphans.
pub proof fn swept_cargo_has_no_orphans(keys: Seq<Seq<char>>)
    ensures
        registry_gc::cargo_orphans(left(keys, registry_gc::cargo_orphans(keys))).len() == 0,
{
    let swept = registry_gc::cargo_orphans(keys);
    let rest = left(keys, swept);
    let indexes = registry_gc::orphan_indexes(keys, keys);
    let crates = registry_gc::orphan_crates(keys, keys);
    assert forall|i: int| 0 <= i < rest.len() implies (registry_gc::index_crate(
        #[trigger] rest[i],
    ) matches Some(n) ==> registry_gc::stored(rest).contains(n)) && (registry_gc::file_crate(
        rest[i],
    ) matches Some(n) ==> registry_gc::indexed(rest).contains(n)) by {
        let x = rest[i];
        assert(rest.contains(x));
        lemma_left(keys, swept, x);
        let j = choose|j: int| 0 <= j < keys.len() && keys[j] == x;
        lemma_unmatched_crate(keys, keys, j);
        if indexes.contains(x) {
            let k = choose|k: int| 0 <= k < indexes.len() && indexes[k] == x;
            assert(swept[k] == x);
        }
        if crates.contains(x) {
            let k = choose|k: int| 0 <= k < crates.len() && crates[k] == x;
            assert(swept[indexes.len() + k] == x);
        }
        if let Some(n) = registry_gc::index_crate(x) {
            lemma_has_crate(keys, n);
            let f = choose|f: int|
                0 <= f < keys.len() && registry_gc::file_crate(#[trigger] keys[f]) == Some(n);
            lemma_matched_crate_left(keys, f, j);
        }
        if let Some(n) = registry_gc::file_crate(x) {
            lemma_has_crate(keys, n);
            let f = choose|f: int|
                0 <= f < keys.len() && registry_gc::index_crate(#[trigger] keys[f]) == Some(n);
            lemma_matched_crate_left(keys, j, f);
        }
    }
    lemma_no_cargo_orphans(rest, rest);
}

/// After a sweep of sidecars, the only new orphans are sidecars of sidecars that
/// were swept.
pub proof fn swept_sidecars_orphan_only_their_own(
    keys: Seq<Seq<char>>,
    stats: Map<Seq<char>, FileMeta>,
    x: Seq<char>,
)
    requires
        left(keys, registry_gc::checksum_orphans(keys, stats)).contains(x),
        registry_gc::is_checksum_orphan(
            x,
            stats.remove_keys(registry_gc::checksum_orphans(keys, stats).to_set()),
        ),
    ensures
        registry_gc::sidecar_primary(x) is Some,
        registry_gc::checksum_orphans(keys, stats).contains(registry_gc::sidecar_primary(x)->0),
{
    let swept = registry_gc::checksum_orphans(keys, stats);
    lemma_left(keys, swept, x);
    registry_gc::sidecars_follow_their_artifacts(keys, stats, x);
    let p = registry_gc::sidecar_primary(x)->0;
    assert(stats.contains_key(p));
    assert(swept.to_set().contains(p));
}

} // verus!
