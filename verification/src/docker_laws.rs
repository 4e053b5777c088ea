//! What the Docker registry keeps and what it sweeps, told by the shape of the
//! keys and by what stands in the manifests.

use vstd::prelude::*;

use crate::digest;
use crate::docker_gc;
use crate::json::{self, JsonTree};
use crate::path;
use crate::text;

verus! {

/// The manifest names the digest as that of its configuration or of one of its
/// layers.
pub open spec fn mentions(doc: JsonTree, d: Seq<char>) -> bool {
    ||| json::member(doc, "config"@) matches Some(config) && json::text_member(config, "digest"@)
        == Some(d)
    ||| json::member(doc, "layers"@) matches Some(JsonTree::Array(layers)) && exists|i: int|
        0 <= i < layers.len() && json::text_member(#[trigger] layers[i], "digest"@) == Some(d)
}

/// The manifest list names the digest as that of one of its manifests.
pub open spec fn lists(doc: JsonTree, d: Seq<char>) -> bool {
    json::member(doc, "manifests"@) matches Some(JsonTree::Array(items)) && exists|i: int|
        0 <= i < items.len() && json::text_member(#[trigger] items[i], "digest"@) == Some(d)
}

proof fn lemma_digests(items: Seq<JsonTree>, d: Seq<char>)
    ensures
        docker_gc::digests_in(items).contains(d) <==> exists|i: int|
            0 <= i < items.len() && json::text_member(#[trigger] items[i], "digest"@) == Some(d),
    decreases items.len(),
{
    if items.len() > 0 {
        let front = items.drop_last();
        lemma_digests(front, d);
        assert(forall|i: int| 0 <= i < front.len() ==> front[i] == #[trigger] items[i]);
        if docker_gc::digests_in(items).contains(d) {
            if docker_gc::digests_in(front).contains(d) {
                let i = choose|i: int|
                    0 <= i < front.len() && json::text_member(#[trigger] front[i], "digest"@)
                        == Some(d);
                assert(json::text_member(items[i], "digest"@) == Some(d));
            } else {
                assert(json::text_member(items[items.len() - 1], "digest"@) == Some(d));
            }
        }
        if exists|i: int|
            0 <= i < items.len() && json::text_member(#[trigger] items[i], "digest"@) == Some(d) {
            let i = choose|i: int|
                0 <= i < items.len() && json::text_member(#[trigger] items[i], "digest"@) == Some(
                    d,
                );
            if i < front.len() {
                assert(json::text_member(front[i], "digest"@) == Some(d));
            }
        }
    }
}

/// The blobs that a manifest refers to are its configuration and all of its
/// layers, and no others.
pub proof fn manifests_refer_to_config_and_layers(doc: JsonTree, d: Seq<char>)
    ensures
        docker_gc::blob_refs(doc).contains(d) <==> mentions(doc, d),
{
    if let Some(JsonTree::Array(layers)) = json::member(doc, "layers"@) {
        lemma_digests(layers, d);
    }
}

/// Every layer of a manifest is among the blobs that it refers to, wherever in
/// the list it stands.
pub proof fn every_layer_is_a_reference(doc: JsonTree, layers: Seq<JsonTree>, i: int, d: Seq<char>)
    requires
        json::member(doc, "layers"@) == Some(JsonTree::Array(layers)),
        0 <= i < layers.len(),
        json::text_member(layers[i], "digest"@) == Some(d),
    ensures
        docker_gc::blob_refs(doc).contains(d),
{
    manifests_refer_to_config_and_layers(doc, d);
}

/// The configuration of a manifest is among the blobs that it refers to.
pub proof fn the_config_is_a_reference(doc: JsonTree, config: JsonTree, d: Seq<char>)
    requires
        json::member(doc, "config"@) == Some(config),
        json::text_member(config, "digest"@) == Some(d),
    ensures
        docker_gc::blob_refs(doc).contains(d),
{
    manifests_refer_to_config_and_layers(doc, d);
}

/// The manifests that a list names are those of all its items, and no others.
pub proof fn lists_name_all_their_items(doc: JsonTree, d: Seq<char>)
    ensures
        docker_gc::list_refs(doc).contains(d) <==> lists(doc, d),
{
    if let Some(JsonTree::Array(items)) = json::member(doc, "manifests"@) {
        lemma_digests(items, d);
    }
}

/// A reference is a digest exactly where it starts with the name of one of the
/// two algorithms.
pub proof fn digests_start_with_their_algorithm(name: Seq<char>, rest: Seq<char>)
    ensures
        docker_gc::digest_ref("sha256:"@ + rest),
        docker_gc::digest_ref("sha512:"@ + rest),
        docker_gc::digest_ref(name) ==> exists|hex: Seq<char>|
            name == #[trigger] ("sha256:"@ + hex) || name == "sha512:"@ + hex,
{
    path::prefixes_come_off("sha256:"@, rest);
    path::prefixes_come_off("sha512:"@, rest);
    if docker_gc::digest_ref(name) {
        path::prefixed_texts_are_put_together(name, "sha256:"@);
        path::prefixed_texts_are_put_together(name, "sha512:"@);
        if "sha256:"@.is_prefix_of(name) {
            let hex = text::without_prefix(name, "sha256:"@)->0;
            assert(name == "sha256:"@ + hex);
        } else {
            let hex = text::without_prefix(name, "sha512:"@)->0;
            let other = "sha256:"@ + hex;
            assert(name == "sha512:"@ + hex);
        }
    }
}

/// A key is a blob's exactly where it has a `blobs` directory.
pub proof fn blobs_lie_in_blob_directories(key: Seq<char>, dir: Seq<char>, name: Seq<char>)
    ensures
        docker_gc::is_blob(dir + "/blobs/"@ + name),
        docker_gc::is_blob(key) <==> exists|a: Seq<char>, b: Seq<char>|
            key == #[trigger] (a + "/blobs/"@ + b),
{
    path::lemma_stands_between(dir, "/blobs/"@, name);
    path::contained_texts_stand_between(key, "/blobs/"@);
}

/// A key is a manifest's exactly where it has a `manifests` and no `blobs`
/// directory and ends in `.json` but not in `.meta.json`, in whatever case.
pub proof fn manifests_lie_in_manifest_directories(key: Seq<char>)
    ensures
        docker_gc::is_manifest(key) <==> {
            &&& exists|a: Seq<char>, b: Seq<char>| key == #[trigger] (a + "/manifests/"@ + b)
            &&& !exists|a: Seq<char>, b: Seq<char>| key == #[trigger] (a + "/blobs/"@ + b)
            &&& exists|stem: Seq<char>, e: Seq<char>|
                key == #[trigger] (stem + e) && path::same_letters(e, ".json"@)
            &&& !exists|stem: Seq<char>, e: Seq<char>|
                key == #[trigger] (stem + e) && path::same_letters(e, ".meta.json"@)
        },
{
    path::contained_texts_stand_between(key, "/manifests/"@);
    path::contained_texts_stand_between(key, "/blobs/"@);
    path::texts_end_with_their_ends(key, ".json"@);
    path::texts_end_with_their_ends(key, ".meta.json"@);
}

/// A file under `manifests` that goes by a name and `.json` is the manifest of
/// that name.
pub proof fn manifests_go_by_their_names(dir: Seq<char>, name: Seq<char>)
    requires
        !name.contains('/'),
        !text::ends_ci(name, ".meta"@),
        !text::has(dir + "/manifests/"@ + name + ".json"@, "/blobs/"@),
    ensures
        docker_gc::is_manifest(dir + "/manifests/"@ + name + ".json"@),
        docker_gc::ref_name(dir + "/manifests/"@ + name + ".json"@) == name,
        docker_gc::is_tag_manifest(dir + "/manifests/"@ + name + ".json"@) <==> !(
        "sha256:"@.is_prefix_of(name) || "sha512:"@.is_prefix_of(name)),
{
    let key = dir + "/manifests/"@ + name + ".json"@;
    let file = name + ".json"@;
    assert(key =~= dir + "/manifests/"@ + file);
    path::lemma_stands_between(dir, "/manifests/"@, file);
    path::endings_ignore_case(dir + "/manifests/"@ + name, ".json"@, ".json"@);
    lemma_slash_before_name(dir, name, file);
    path::last_segments_come_off(dir + "/manifests"@, '/', file);
    path::suffixes_come_off(name, ".json"@);
}

proof fn lemma_slash_before_name(dir: Seq<char>, name: Seq<char>, file: Seq<char>)
    requires
        !name.contains('/'),
        !text::ends_ci(name, ".meta"@),
        file == name + ".json"@,
    ensures
        dir + "/manifests/"@ + name + ".json"@ == (dir + "/manifests"@).push('/') + file,
        !file.contains('/'),
        !text::ends_ci(dir + "/manifests/"@ + name + ".json"@, ".meta.json"@),
{
    reveal_strlit("/manifests/");
    reveal_strlit("/manifests");
    reveal_strlit(".json");
    reveal_strlit(".meta");
    reveal_strlit(".meta.json");
    let stem = dir + "/manifests/"@ + name;
    assert(stem =~= (dir + "/manifests"@).push('/') + name);
    assert(".meta.json"@ =~= ".meta"@ + ".json"@);
    assert(!".meta"@.contains('/'));
    path::endings_come_off(stem, ".meta"@, ".json"@);
    path::endings_lie_in_the_file_name(dir + "/manifests"@, name, ".meta"@);
    assert(stem + ".json"@ =~= (dir + "/manifests"@).push('/') + file);
    if file.contains('/') {
        let i = choose|i: int| 0 <= i < file.len() && file[i] == '/';
        if i < name.len() {
            assert(name[i] == '/');
        } else {
            assert(file[i] == ".json"@[i - name.len()]);
        }
    }
}

/// The file under `manifests` that goes by a name and `.meta.json` is the
/// manifest of nothing.
pub proof fn sidecars_are_no_manifests(dir: Seq<char>, name: Seq<char>)
    ensures
        !docker_gc::is_manifest(dir + "/manifests/"@ + name + ".meta.json"@),
{
    path::endings_ignore_case(dir + "/manifests/"@ + name, ".meta.json"@, ".meta.json"@);
}

/// The document that stands under one of the keys, where it can be read.
pub open spec fn reads(
    keys: Seq<Seq<char>>,
    files: Map<Seq<char>, Vec<u8>>,
    k: int,
    doc: JsonTree,
) -> bool {
    0 <= k < keys.len() && files.contains_key(keys[k]) && json::parsed(files[keys[k]]@) == Some(doc)
}

/// The digest is that of a blob which a readable tag manifest names.
pub open spec fn tag_mentions(
    keys: Seq<Seq<char>>,
    files: Map<Seq<char>, Vec<u8>>,
    d: Seq<char>,
) -> bool {
    exists|k: int, doc: JsonTree| #[trigger]
        reads(keys, files, k, doc) && docker_gc::is_tag_manifest(keys[k]) && mentions(doc, d)
}

/// The digest is that of a manifest which a readable tag manifest lists.
pub open spec fn tag_lists(
    keys: Seq<Seq<char>>,
    files: Map<Seq<char>, Vec<u8>>,
    d: Seq<char>,
) -> bool {
    exists|k: int, doc: JsonTree| #[trigger]
        reads(keys, files, k, doc) && docker_gc::is_tag_manifest(keys[k]) && lists(doc, d)
}

/// The digest is that of a blob which a readable manifest names that a tag
/// manifest lists.
pub open spec fn listed_mentions(
    keys: Seq<Seq<char>>,
    files: Map<Seq<char>, Vec<u8>>,
    d: Seq<char>,
) -> bool {
    exists|k: int, doc: JsonTree| #[trigger]
        reads(keys, files, k, doc) && docker_gc::is_manifest(keys[k]) && tag_lists(
            keys,
            files,
            docker_gc::ref_name(keys[k]),
        ) && mentions(doc, d)
}

/// The digest is that of the file of a tag manifest.
pub open spec fn tag_digest(
    keys: Seq<Seq<char>>,
    files: Map<Seq<char>, Vec<u8>>,
    d: Seq<char>,
) -> bool {
    exists|k: int|
        0 <= k < keys.len() && docker_gc::is_tag_manifest(#[trigger] keys[k])
            && files.contains_key(keys[k]) && d == "sha256:"@ + digest::sha256_text(
            files[keys[k]]@,
        )
}

proof fn lemma_tag_sets(keys: Seq<Seq<char>>, files: Map<Seq<char>, Vec<u8>>, d: Seq<char>)
    ensures
        docker_gc::tag_refs(keys, files).contains(d) <==> tag_mentions(keys, files, d),
        docker_gc::listed(keys, files).contains(d) <==> tag_lists(keys, files, d),
        docker_gc::tagged(keys, files).contains(d) <==> tag_digest(keys, files, d),
    decreases keys.len(),
{
    if keys.len() > 0 {
        let front = keys.drop_last();
        let n = keys.len() - 1;
        lemma_tag_sets(front, files, d);
        assert(forall|i: int| 0 <= i < front.len() ==> front[i] == #[trigger] keys[i]);
        assert forall|k: int, doc: JsonTree| 0 <= k < n implies #[trigger] reads(
            keys,
            files,
            k,
            doc,
        ) == reads(front, files, k, doc) by {}
        if let Some(doc) = docker_gc::document(files, keys.last()) {
            manifests_refer_to_config_and_layers(doc, d);
            lists_name_all_their_items(doc, d);
            assert(reads(keys, files, n, doc));
        }
        if tag_mentions(front, files, d) {
            let (k, doc) = choose|k: int, doc: JsonTree| #[trigger]
                reads(front, files, k, doc) && docker_gc::is_tag_manifest(front[k]) && mentions(
                    doc,
                    d,
                );
            assert(reads(keys, files, k, doc));
        }
        if tag_lists(front, files, d) {
            let (k, doc) = choose|k: int, doc: JsonTree| #[trigger]
                reads(front, files, k, doc) && docker_gc::is_tag_manifest(front[k]) && lists(
                    doc,
                    d,
                );
            assert(reads(keys, files, k, doc));
        }
        if tag_mentions(keys, files, d) {
            let (k, doc) = choose|k: int, doc: JsonTree| #[trigger]
                reads(keys, files, k, doc) && docker_gc::is_tag_manifest(keys[k]) && mentions(
                    doc,
                    d,
                );
            if k < n {
                assert(reads(front, files, k, doc));
            }
        }
        if tag_lists(keys, files, d) {
            let (k, doc) = choose|k: int, doc: JsonTree| #[trigger]
                reads(keys, files, k, doc) && docker_gc::is_tag_manifest(keys[k]) && lists(
                    doc,
                    d,
                );
            if k < n {
                assert(reads(front, files, k, doc));
            }
        }
        if tag_digest(front, files, d) {
            let k = choose|k: int|
                0 <= k < front.len() && docker_gc::is_tag_manifest(#[trigger] front[k])
                    && files.contains_key(front[k]) && d == "sha256:"@ + digest::sha256_text(
                    files[front[k]]@,
                );
            assert(docker_gc::is_tag_manifest(keys[k]));
        }
        if tag_digest(keys, files, d) {
            let k = choose|k: int|
                0 <= k < keys.len() && docker_gc::is_tag_manifest(#[trigger] keys[k])
                    && files.contains_key(keys[k]) && d == "sha256:"@ + digest::sha256_text(
                    files[keys[k]]@,
                );
            if k < n {
                assert(docker_gc::is_tag_manifest(front[k]));
            }
        }
        assert(keys[n] == keys.last());
    }
}

/// The digest is that of a blob which a readable manifest of one of these names
/// names.
spec fn named_mentions(
    keys: Seq<Seq<char>>,
    files: Map<Seq<char>, Vec<u8>>,
    names: Set<Seq<char>>,
    d: Seq<char>,
) -> bool {
    exists|k: int, doc: JsonTree| #[trigger]
        reads(keys, files, k, doc) && docker_gc::is_manifest(keys[k]) && names.contains(
            docker_gc::ref_name(keys[k]),
        ) && mentions(doc, d)
}

proof fn lemma_sub_sets(
    keys: Seq<Seq<char>>,
    files: Map<Seq<char>, Vec<u8>>,
    names: Set<Seq<char>>,
    d: Seq<char>,
)
    ensures
        docker_gc::sub_refs(keys, files, names).contains(d) <==> named_mentions(
            keys,
            files,
            names,
            d,
        ),
    decreases keys.len(),
{
    if keys.len() > 0 {
        let front = keys.drop_last();
        let n = keys.len() - 1;
        lemma_sub_sets(front, files, names, d);
        assert(forall|i: int| 0 <= i < front.len() ==> front[i] == #[trigger] keys[i]);
        assert forall|k: int, doc: JsonTree| 0 <= k < n implies #[trigger] reads(
            keys,
            files,
            k,
            doc,
        ) == reads(front, files, k, doc) by {}
        if let Some(doc) = docker_gc::document(files, keys.last()) {
            manifests_refer_to_config_and_layers(doc, d);
            assert(reads(keys, files, n, doc));
        }
        if named_mentions(front, files, names, d) {
            let (k, doc) = choose|k: int, doc: JsonTree| #[trigger]
                reads(front, files, k, doc) && docker_gc::is_manifest(front[k]) && names.contains(
                    docker_gc::ref_name(front[k]),
                ) && mentions(doc, d);
            assert(reads(keys, files, k, doc));
        }
        if named_mentions(keys, files, names, d) {
            let (k, doc) = choose|k: int, doc: JsonTree| #[trigger]
                reads(keys, files, k, doc) && docker_gc::is_manifest(keys[k]) && names.contains(
                    docker_gc::ref_name(keys[k]),
                ) && mentions(doc, d);
            if k < n {
                assert(reads(front, files, k, doc));
            }
        }
        assert(keys[n] == keys.last());
    }
}

/// The blobs that are reachable are those that readable tag manifests name and
/// those that readable manifests name which tag manifests list.
proof fn lemma_reachable_blobs(keys: Seq<Seq<char>>, files: Map<Seq<char>, Vec<u8>>, d: Seq<char>)
    ensures
        docker_gc::referenced(keys, files).contains(d) <==> tag_mentions(keys, files, d)
            || listed_mentions(keys, files, d),
{
    let names = docker_gc::listed(keys, files);
    lemma_tag_sets(keys, files, d);
    lemma_sub_sets(keys, files, names, d);
    assert forall|x: Seq<char>| #[trigger] names.contains(x) <==> tag_lists(keys, files, x) by {
        lemma_tag_sets(keys, files, x);
    }
    if named_mentions(keys, files, names, d) {
        let (k, doc) = choose|k: int, doc: JsonTree| #[trigger]
            reads(keys, files, k, doc) && docker_gc::is_manifest(keys[k]) && names.contains(
                docker_gc::ref_name(keys[k]),
            ) && mentions(doc, d);
        assert(tag_lists(keys, files, docker_gc::ref_name(keys[k])));
    }
    if listed_mentions(keys, files, d) {
        let (k, doc) = choose|k: int, doc: JsonTree| #[trigger]
            reads(keys, files, k, doc) && docker_gc::is_manifest(keys[k]) && tag_lists(
                keys,
                files,
                docker_gc::ref_name(keys[k]),
            ) && mentions(doc, d);
        assert(names.contains(docker_gc::ref_name(keys[k])));
    }
}

proof fn lemma_orphan_blobs(keys: Seq<Seq<char>>, refs: Set<Seq<char>>)
    ensures
        docker_gc::orphan_blobs(keys, refs) == keys.filter(
            |k: Seq<char>|
                text::has(k, "/blobs/"@) && !refs.contains(text::tail_after(k, '/')),
        ),
    decreases keys.len(),
{
    reveal(Seq::filter);
    if keys.len() > 0 {
        lemma_orphan_blobs(keys.drop_last(), refs);
    }
}

/// A listed blob is swept exactly where neither a readable tag manifest nor a
/// readable manifest that a tag manifest lists names its digest.
pub proof fn blobs_are_swept_unless_named(
    keys: Seq<Seq<char>>,
    files: Map<Seq<char>, Vec<u8>>,
    dir: Seq<char>,
    d: Seq<char>,
)
    requires
        keys.contains(dir + "/blobs/"@ + d),
        !d.contains('/'),
    ensures
        docker_gc::docker_orphans(keys, files).contains(dir + "/blobs/"@ + d) <==> !tag_mentions(
            keys,
            files,
            d,
        ) && !listed_mentions(keys, files, d),
{
    let x = dir + "/blobs/"@ + d;
    let refs = docker_gc::referenced(keys, files);
    lemma_blob_key(dir, d);
    lemma_reachable_blobs(keys, files, d);
    if docker_gc::docker_orphans(keys, files).contains(x) {
        docker_gc::lemma_orphan_parts(keys, files, x);
    }
    if !refs.contains(d) {
        let p = |k: Seq<char>|
            text::has(k, "/blobs/"@) && !refs.contains(text::tail_after(k, '/'));
        lemma_orphan_blobs(keys, refs);
        let a = docker_gc::orphan_blobs(keys, refs);
        broadcast use vstd::seq_lib::group_filter_ensures;
        let i = choose|i: int| 0 <= i < keys.len() && keys[i] == x;
        assert(p(keys[i]));
        assert(a.contains(x));
        let k = choose|k: int| 0 <= k < a.len() && a[k] == x;
        assert(docker_gc::docker_orphans(keys, files)[k] == x);
    }
}

proof fn lemma_blob_key(dir: Seq<char>, d: Seq<char>)
    requires
        !d.contains('/'),
    ensures
        docker_gc::is_blob(dir + "/blobs/"@ + d),
        text::tail_after(dir + "/blobs/"@ + d, '/') == d,
{
    reveal_strlit("/blobs/");
    reveal_strlit("/blobs");
    reveal_strlit("/");
    path::lemma_stands_between(dir, "/blobs/"@, d);
    assert(dir + "/blobs/"@ + d =~= dir + "/blobs"@ + "/"@ + d);
    path::file_names_come_off(dir + "/blobs"@, d);
}

/// No blob that a layer or the configuration of a readable tag manifest names
/// is swept.
pub proof fn blobs_of_tagged_images_stay(
    keys: Seq<Seq<char>>,
    files: Map<Seq<char>, Vec<u8>>,
    dir: Seq<char>,
    tag: Seq<char>,
    doc: JsonTree,
    blobs: Seq<char>,
    d: Seq<char>,
)
    requires
        keys.contains(dir + "/manifests/"@ + tag + ".json"@),
        !tag.contains('/'),
        !text::ends_ci(tag, ".meta"@),
        !"sha256:"@.is_prefix_of(tag),
        !"sha512:"@.is_prefix_of(tag),
        !text::has(dir + "/manifests/"@ + tag + ".json"@, "/blobs/"@),
        files.contains_key(dir + "/manifests/"@ + tag + ".json"@),
        json::parsed(files[dir + "/manifests/"@ + tag + ".json"@]@) == Some(doc),
        mentions(doc, d),
        !d.contains('/'),
    ensures
        !docker_gc::docker_orphans(keys, files).contains(blobs + "/blobs/"@ + d),
{
    let key = dir + "/manifests/"@ + tag + ".json"@;
    let x = blobs + "/blobs/"@ + d;
    let k = choose|k: int| 0 <= k < keys.len() && keys[k] == key;
    manifests_go_by_their_names(dir, tag);
    assert(reads(keys, files, k, doc));
    assert(tag_mentions(keys, files, d));
    if docker_gc::docker_orphans(keys, files).contains(x) {
        docker_gc::orphans_are_listed_keys(keys, files, x);
        blobs_are_swept_unless_named(keys, files, blobs, d);
    }
}

/// No blob is swept that a readable manifest names which stands under the
/// digest by which a readable tag manifest lists it.
pub proof fn blobs_of_listed_images_stay(
    keys: Seq<Seq<char>>,
    files: Map<Seq<char>, Vec<u8>>,
    dir: Seq<char>,
    tag: Seq<char>,
    list: JsonTree,
    sub: Seq<char>,
    m: Seq<char>,
    doc: JsonTree,
    blobs: Seq<char>,
    d: Seq<char>,
)
    requires
        keys.contains(dir + "/manifests/"@ + tag + ".json"@),
        !tag.contains('/'),
        !text::ends_ci(tag, ".meta"@),
        !"sha256:"@.is_prefix_of(tag),
        !"sha512:"@.is_prefix_of(tag),
        !text::has(dir + "/manifests/"@ + tag + ".json"@, "/blobs/"@),
        files.contains_key(dir + "/manifests/"@ + tag + ".json"@),
        json::parsed(files[dir + "/manifests/"@ + tag + ".json"@]@) == Some(list),
        lists(list, m),
        keys.contains(sub + "/manifests/"@ + m + ".json"@),
        !m.contains('/'),
        !text::ends_ci(m, ".meta"@),
        !text::has(sub + "/manifests/"@ + m + ".json"@, "/blobs/"@),
        files.contains_key(sub + "/manifests/"@ + m + ".json"@),
        json::parsed(files[sub + "/manifests/"@ + m + ".json"@]@) == Some(doc),
        mentions(doc, d),
        !d.contains('/'),
    ensures
        !docker_gc::docker_orphans(keys, files).contains(blobs + "/blobs/"@ + d),
        !docker_gc::docker_orphans(keys, files).contains(sub + "/manifests/"@ + m + ".json"@),
{
    let key = dir + "/manifests/"@ + tag + ".json"@;
    let inner = sub + "/manifests/"@ + m + ".json"@;
    let x = blobs + "/blobs/"@ + d;
    let k = choose|k: int| 0 <= k < keys.len() && keys[k] == key;
    let j = choose|j: int| 0 <= j < keys.len() && keys[j] == inner;
    manifests_go_by_their_names(dir, tag);
    manifests_go_by_their_names(sub, m);
    assert(reads(keys, files, k, list));
    assert(tag_lists(keys, files, m));
    assert(reads(keys, files, j, doc));
    assert(listed_mentions(keys, files, d));
    if docker_gc::docker_orphans(keys, files).contains(x) {
        docker_gc::orphans_are_listed_keys(keys, files, x);
        blobs_are_swept_unless_named(keys, files, blobs, d);
    }
    if docker_gc::docker_orphans(keys, files).contains(inner) {
        docker_gc::lemma_orphan_parts(keys, files, inner);
        lemma_tag_sets(keys, files, m);
    }
}

proof fn lemma_manifest_is_swept(
    keys: Seq<Seq<char>>,
    all: Seq<Seq<char>>,
    lists: Set<Seq<char>>,
    tags: Set<Seq<char>>,
    i: int,
    x: Seq<char>,
)
    requires
        0 <= i < keys.len(),
        docker_gc::is_orphan_manifest(keys[i], lists, tags),
        docker_gc::with_sidecar(keys[i], all).contains(x),
    ensures
        docker_gc::orphan_manifests(keys, all, lists, tags).contains(x),
    decreases keys.len(),
{
    let front = keys.drop_last();
    let before = docker_gc::orphan_manifests(front, all, lists, tags);
    let found = docker_gc::orphan_manifests(keys, all, lists, tags);
    if i < front.len() {
        assert(front[i] == keys[i]);
        lemma_manifest_is_swept(front, all, lists, tags, i, x);
        let k = choose|k: int| 0 <= k < before.len() && before[k] == x;
        assert(found[k] == x);
    } else {
        let w = docker_gc::with_sidecar(keys[i], all);
        let k = choose|k: int| 0 <= k < w.len() && w[k] == x;
        assert(found[before.len() + k] == x);
    }
}

proof fn lemma_manifest_with_sidecar(all: Seq<Seq<char>>, dir: Seq<char>, d: Seq<char>)
    ensures
        ({
            let key = dir + "/manifests/"@ + d + ".json"@;
            let side = dir + "/manifests/"@ + d + ".meta.json"@;
            docker_gc::with_sidecar(key, all) == if all.contains(side) {
                seq![key, side]
            } else {
                seq![key]
            }
        }),
{
    let stem = dir + "/manifests/"@ + d;
    let side = stem + ".meta.json"@;
    path::suffixes_come_off(stem, ".json"@);
    assert(side =~= dir + "/manifests/"@ + (d + ".meta.json"@));
    path::lemma_stands_between(dir, "/manifests/"@, d + ".meta.json"@);
    path::endings_ignore_case(stem, ".meta.json"@, ".meta.json"@);
}

proof fn lemma_swept_with(
    keys: Seq<Seq<char>>,
    files: Map<Seq<char>, Vec<u8>>,
    key: Seq<char>,
    x: Seq<char>,
)
    requires
        keys.contains(key),
        docker_gc::is_orphan_manifest(
            key,
            docker_gc::listed(keys, files),
            docker_gc::tagged(keys, files),
        ),
        docker_gc::with_sidecar(key, keys).contains(x),
    ensures
        docker_gc::docker_orphans(keys, files).contains(x),
{
    let names = docker_gc::listed(keys, files);
    let tags = docker_gc::tagged(keys, files);
    let a = docker_gc::orphan_blobs(keys, docker_gc::referenced(keys, files));
    let b = docker_gc::orphan_manifests(keys, keys, names, tags);
    let i = choose|i: int| 0 <= i < keys.len() && keys[i] == key;
    lemma_manifest_is_swept(keys, keys, names, tags, i, x);
    let k = choose|k: int| 0 <= k < b.len() && b[k] == x;
    assert((a + b)[a.len() + k] == x);
}

/// A manifest under a digest is swept exactly where no readable tag manifest
/// lists the digest and none has it. Its `.meta.json` goes with it.
pub proof fn digest_manifests_are_swept_unless_reached(
    keys: Seq<Seq<char>>,
    files: Map<Seq<char>, Vec<u8>>,
    dir: Seq<char>,
    d: Seq<char>,
)
    requires
        keys.contains(dir + "/manifests/"@ + d + ".json"@),
        !d.contains('/'),
        !text::ends_ci(d, ".meta"@),
        "sha256:"@.is_prefix_of(d) || "sha512:"@.is_prefix_of(d),
        !text::has(dir + "/manifests/"@ + d + ".json"@, "/blobs/"@),
    ensures
        docker_gc::docker_orphans(keys, files).contains(dir + "/manifests/"@ + d + ".json"@)
            <==> !tag_lists(keys, files, d) && !tag_digest(keys, files, d),
        keys.contains(dir + "/manifests/"@ + d + ".meta.json"@) && !tag_lists(keys, files, d)
            && !tag_digest(keys, files, d) ==> docker_gc::docker_orphans(keys, files).contains(
            dir + "/manifests/"@ + d + ".meta.json"@,
        ),
{
    let key = dir + "/manifests/"@ + d + ".json"@;
    let side = dir + "/manifests/"@ + d + ".meta.json"@;
    manifests_go_by_their_names(dir, d);
    lemma_tag_sets(keys, files, d);
    if docker_gc::docker_orphans(keys, files).contains(key) {
        docker_gc::lemma_orphan_parts(keys, files, key);
    }
    if !tag_lists(keys, files, d) && !tag_digest(keys, files, d) {
        lemma_manifest_with_sidecar(keys, dir, d);
        let w = docker_gc::with_sidecar(key, keys);
        assert(w[0] == key);
        lemma_swept_with(keys, files, key, key);
        if keys.contains(side) {
            assert(w[1] == side);
            lemma_swept_with(keys, files, key, side);
        }
    }
}

/// A manifest under a tag is never swept, readable or not.
pub proof fn tags_are_never_swept(
    keys: Seq<Seq<char>>,
    files: Map<Seq<char>, Vec<u8>>,
    dir: Seq<char>,
    tag: Seq<char>,
)
    requires
        !tag.contains('/'),
        !text::ends_ci(tag, ".meta"@),
        !"sha256:"@.is_prefix_of(tag),
        !"sha512:"@.is_prefix_of(tag),
        !text::has(dir + "/manifests/"@ + tag + ".json"@, "/blobs/"@),
    ensures
        !docker_gc::docker_orphans(keys, files).contains(dir + "/manifests/"@ + tag + ".json"@),
{
    manifests_go_by_their_names(dir, tag);
    let key = dir + "/manifests/"@ + tag + ".json"@;
    if docker_gc::docker_orphans(keys, files).contains(key) {
        docker_gc::lemma_orphan_parts(keys, files, key);
    }
}

/// A file that lies neither under `blobs` nor under `manifests` is never swept.
pub proof fn other_docker_files_stay(
    keys: Seq<Seq<char>>,
    files: Map<Seq<char>, Vec<u8>>,
    key: Seq<char>,
)
    requires
        !text::has(key, "/blobs/"@),
        !text::has(key, "/manifests/"@),
    ensures
        !docker_gc::docker_orphans(keys, files).contains(key),
{
    let names = docker_gc::listed(keys, files);
    let tags = docker_gc::tagged(keys, files);
    let a = docker_gc::orphan_blobs(keys, docker_gc::referenced(keys, files));
    let b = docker_gc::orphan_manifests(keys, keys, names, tags);
    if (a + b).contains(key) {
        let k = choose|k: int| 0 <= k < (a + b).len() && (a + b)[k] == key;
        if k < a.len() {
            assert(a.contains(key)) by {
                assert(a[k] == key);
            }
            docker_gc::lemma_orphan_blobs(keys, docker_gc::referenced(keys, files), key);
        } else {
            assert(b.contains(key)) by {
                assert(b[k - a.len()] == key);
            }
            lemma_swept_manifests(keys, keys, names, tags, key);
        }
    }
}

proof fn lemma_swept_manifests(
    keys: Seq<Seq<char>>,
    all: Seq<Seq<char>>,
    lists: Set<Seq<char>>,
    tags: Set<Seq<char>>,
    x: Seq<char>,
)
    ensures
        docker_gc::orphan_manifests(keys, all, lists, tags).contains(x) ==> text::has(
            x,
            "/manifests/"@,
        ),
    decreases keys.len(),
{
    if keys.len() > 0 {
        let front = keys.drop_last();
        lemma_swept_manifests(front, all, lists, tags, x);
        let before = docker_gc::orphan_manifests(front, all, lists, tags);
        let found = docker_gc::orphan_manifests(keys, all, lists, tags);
        if found.contains(x) {
            let k = choose|k: int| 0 <= k < found.len() && found[k] == x;
            if k < before.len() {
                assert(before[k] == x);
                assert(before.contains(x));
            } else {
                assert(docker_gc::with_sidecar(keys.last(), all)[k - before.len()] == x);
            }
        }
    }
}

/// The candidates of a listing are its blobs, each counted.
pub proof fn blobs_are_counted(keys: Seq<Seq<char>>, key: Seq<char>)
    ensures
        docker_gc::blob_count(Seq::empty()) == 0,
        docker_gc::blob_count(keys.push(key)) == docker_gc::blob_count(keys) + if text::has(
            key,
            "/blobs/"@,
        ) {
            1nat
        } else {
            0
        },
{
    assert(keys.push(key).drop_last() =~= keys);
}

/// Blobs are listed before manifests, each in the order of the listing.
pub proof fn blobs_come_first_in_their_order(
    keys: Seq<Seq<char>>,
    files: Map<Seq<char>, Vec<u8>>,
)
    ensures
        ({
            let refs = docker_gc::referenced(keys, files);
            keys.filter(
                |k: Seq<char>|
                    text::has(k, "/blobs/"@) && !refs.contains(text::tail_after(k, '/')),
            ).is_prefix_of(docker_gc::docker_orphans(keys, files))
        }),
{
    let refs = docker_gc::referenced(keys, files);
    lemma_orphan_blobs(keys, refs);
    let a = docker_gc::orphan_blobs(keys, refs);
    let all = docker_gc::docker_orphans(keys, files);
    assert(all.subrange(0, a.len() as int) =~= a);
}

/// A file with any other ending goes by its whole name.
pub proof fn other_files_go_by_their_whole_name(dir: Seq<char>, file: Seq<char>)
    requires
        !file.contains('/'),
        !".json"@.is_suffix_of(file),
    ensures
        docker_gc::ref_name(dir.push('/') + file) == file,
{
    path::last_segments_come_off(dir, '/', file);
}

} // verus!
