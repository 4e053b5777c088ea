//! Orphans of the Docker registry.
//!
//! Tag manifests are the roots. A blob is live where a tag manifest, or a
//! manifest that a tagged list names, refers to it. A manifest stored under
//! its digest is live where a tagged list names it or a tag manifest has that
//! digest.

use vstd::prelude::*;

use crate::digest;
use crate::json::{self, Json, JsonTree};
use crate::table::{FileTable, KeySet};
use crate::text;

verus! {

/// What a detection found.
#[derive(Debug)]
pub struct DetectionResult {
    /// How many keys were candidates.
    pub total: usize,
    /// The orphans among the keys.
    pub orphans: Vec<String>,
}

/// The key is a blob's.
pub open spec fn is_blob(key: Seq<char>) -> bool {
    text::has(key, "/blobs/"@)
}

/// The key is a manifest's.
pub open spec fn is_manifest(key: Seq<char>) -> bool {
    !is_blob(key) && text::has(key, "/manifests/"@) && text::ends_ci(key, ".json"@)
        && !text::ends_ci(key, ".meta.json"@)
}

/// The tag or digest that a manifest is stored under.
pub open spec fn ref_name(key: Seq<char>) -> Seq<char> {
    let file = text::tail_after(key, '/');
    match text::without_suffix(file, ".json"@) {
        Some(name) => name,
        None => file,
    }
}

/// The reference is a digest, not a tag.
pub open spec fn digest_ref(name: Seq<char>) -> bool {
    "sha256:"@.is_prefix_of(name) || "sha512:"@.is_prefix_of(name)
}

/// The key is that of a manifest stored under a tag.
pub open spec fn is_tag_manifest(key: Seq<char>) -> bool {
    is_manifest(key) && !digest_ref(ref_name(key))
}

/// The elements of the array in a member; none where there is no array.
pub open spec fn array_member(doc: JsonTree, name: Seq<char>) -> Seq<JsonTree> {
    match json::member(doc, name) {
        Some(JsonTree::Array(items)) => items,
        _ => Seq::empty(),
    }
}

/// The digests that the items give.
pub open spec fn digests_in(items: Seq<JsonTree>) -> Set<Seq<char>>
    decreases items.len(),
{
    if items.len() == 0 {
        Set::empty()
    } else {
        let before = digests_in(items.drop_last());
        match json::text_member(items.last(), "digest"@) {
            Some(d) => before.insert(d),
            None => before,
        }
    }
}

/// The digest of the configuration that a manifest names.
pub open spec fn config_digest(doc: JsonTree) -> Set<Seq<char>> {
    match json::member(doc, "config"@) {
        Some(config) => match json::text_member(config, "digest"@) {
            Some(d) => Set::empty().insert(d),
            None => Set::empty(),
        },
        None => Set::empty(),
    }
}

/// The blobs that a manifest refers to.
pub open spec fn blob_refs(doc: JsonTree) -> Set<Seq<char>> {
    config_digest(doc).union(digests_in(array_member(doc, "layers"@)))
}

/// The manifests that a manifest list names.
pub open spec fn list_refs(doc: JsonTree) -> Set<Seq<char>> {
    digests_in(array_member(doc, "manifests"@))
}

/// The document under a key, where it could be read.
pub open spec fn document(files: Map<Seq<char>, Vec<u8>>, key: Seq<char>) -> Option<JsonTree> {
    if files.contains_key(key) {
        json::parsed(files[key]@)
    } else {
        None
    }
}

/// The digests of the manifests that tagged lists name.
pub open spec fn listed(keys: Seq<Seq<char>>, files: Map<Seq<char>, Vec<u8>>) -> Set<Seq<char>>
    decreases keys.len(),
{
    if keys.len() == 0 {
        Set::empty()
    } else {
        let before = listed(keys.drop_last(), files);
        match document(files, keys.last()) {
            Some(doc) => if is_tag_manifest(keys.last()) {
                before.union(list_refs(doc))
            } else {
                before
            },
            None => before,
        }
    }
}

/// The digests that the tag manifests have themselves.
pub open spec fn tagged(keys: Seq<Seq<char>>, files: Map<Seq<char>, Vec<u8>>) -> Set<Seq<char>>
    decreases keys.len(),
{
    if keys.len() == 0 {
        Set::empty()
    } else {
        let before = tagged(keys.drop_last(), files);
        if is_tag_manifest(keys.last()) && files.contains_key(keys.last()) {
            before.insert("sha256:"@ + digest::sha256_text(files[keys.last()]@))
        } else {
            before
        }
    }
}

/// The blobs that the tag manifests among the keys refer to.
pub open spec fn tag_refs(keys: Seq<Seq<char>>, files: Map<Seq<char>, Vec<u8>>) -> Set<Seq<char>>
    decreases keys.len(),
{
    if keys.len() == 0 {
        Set::empty()
    } else {
        let before = tag_refs(keys.drop_last(), files);
        match document(files, keys.last()) {
            Some(doc) => if is_tag_manifest(keys.last()) {
                before.union(blob_refs(doc))
            } else {
                before
            },
            None => before,
        }
    }
}

/// A manifest whose digest is among those that tagged lists name.
pub open spec fn is_sub_manifest(key: Seq<char>, lists: Set<Seq<char>>) -> bool {
    is_manifest(key) && lists.contains(ref_name(key))
}

/// The blobs that the listed manifests among the keys refer to. The lists that
/// such a manifest may name in turn are not followed.
pub open spec fn sub_refs(
    keys: Seq<Seq<char>>,
    files: Map<Seq<char>, Vec<u8>>,
    lists: Set<Seq<char>>,
) -> Set<Seq<char>>
    decreases keys.len(),
{
    if keys.len() == 0 {
        Set::empty()
    } else {
        let before = sub_refs(keys.drop_last(), files, lists);
        match document(files, keys.last()) {
            Some(doc) => if is_sub_manifest(keys.last(), lists) {
                before.union(blob_refs(doc))
            } else {
                before
            },
            None => before,
        }
    }
}

/// The blobs that are reachable from the tags.
pub open spec fn referenced(keys: Seq<Seq<char>>, files: Map<Seq<char>, Vec<u8>>) -> Set<
    Seq<char>,
> {
    tag_refs(keys, files).union(sub_refs(keys, files, listed(keys, files)))
}

/// The blobs among the keys that nothing refers to.
pub open spec fn orphan_blobs(keys: Seq<Seq<char>>, refs: Set<Seq<char>>) -> Seq<Seq<char>>
    decreases keys.len(),
{
    if keys.len() == 0 {
        Seq::empty()
    } else {
        let before = orphan_blobs(keys.drop_last(), refs);
        if is_blob(keys.last()) && !refs.contains(text::tail_after(keys.last(), '/')) {
            before.push(keys.last())
        } else {
            before
        }
    }
}

/// A manifest under a digest that no tag reaches.
pub open spec fn is_orphan_manifest(
    key: Seq<char>,
    lists: Set<Seq<char>>,
    tags: Set<Seq<char>>,
) -> bool {
    is_manifest(key) && digest_ref(ref_name(key)) && !lists.contains(ref_name(key))
        && !tags.contains(ref_name(key))
}

/// A manifest with its `.meta.json` sidecar, where that is among the keys.
pub open spec fn with_sidecar(key: Seq<char>, all: Seq<Seq<char>>) -> Seq<Seq<char>> {
    match text::without_suffix(key, ".json"@) {
        Some(stem) => {
            let sidecar = stem + ".meta.json"@;
            if all.contains(sidecar) && text::has(sidecar, "/manifests/"@) && text::ends_ci(
                sidecar,
                ".meta.json"@,
            ) {
                seq![key, sidecar]
            } else {
                seq![key]
            }
        },
        None => seq![key],
    }
}

/// The orphan manifests among the keys, each with its sidecar.
pub open spec fn orphan_manifests(
    keys: Seq<Seq<char>>,
    all: Seq<Seq<char>>,
    lists: Set<Seq<char>>,
    tags: Set<Seq<char>>,
) -> Seq<Seq<char>>
    decreases keys.len(),
{
    if keys.len() == 0 {
        Seq::empty()
    } else {
        let before = orphan_manifests(keys.drop_last(), all, lists, tags);
        if is_orphan_manifest(keys.last(), lists, tags) {
            before + with_sidecar(keys.last(), all)
        } else {
            before
        }
    }
}

/// How many of the keys are blobs.
pub open spec fn blob_count(keys: Seq<Seq<char>>) -> nat
    decreases keys.len(),
{
    if keys.len() == 0 {
        0
    } else {
        blob_count(keys.drop_last()) + if is_blob(keys.last()) {
            1nat
        } else {
            0
        }
    }
}

/// The orphans of the registry: blobs, then manifests.
pub open spec fn docker_orphans(
    keys: Seq<Seq<char>>,
    files: Map<Seq<char>, Vec<u8>>,
) -> Seq<Seq<char>> {
    orphan_blobs(keys, referenced(keys, files)) + orphan_manifests(
        keys,
        keys,
        listed(keys, files),
        tagged(keys, files),
    )
}

/// The reference is a digest (`sha256:…` or `sha512:…`), not a tag.
pub fn is_digest_ref(name: &str) -> (r: bool)
    ensures
        r == digest_ref(name@),
{
    text::starts_with(name, "sha256:") || text::starts_with(name, "sha512:")
}

fn blob_key(key: &str) -> (r: bool)
    ensures
        r == is_blob(key@),
{
    text::contains(key, "/blobs/")
}

fn manifest_key(key: &str) -> (r: bool)
    ensures
        r == is_manifest(key@),
{
    !blob_key(key) && text::contains(key, "/manifests/") && text::ends_with_ci(key, ".json")
        && !text::ends_with_ci(key, ".meta.json")
}

fn manifest_ref<'a>(key: &'a str) -> (r: &'a str)
    ensures
        r@ == ref_name(key@),
{
    let file = text::last_piece(key, '/');
    match text::strip_suffix(file, ".json") {
        Some(name) => name,
        None => file,
    }
}

/// Adds the digests that the items of an array member give.
fn collect_digests(doc: &Json, name: &str, out: &mut KeySet)
    ensures
        final(out)@ == old(out)@.union(digests_in(array_member(doc@, name@))),
{
    if let Some(Json::Array(items)) = json::get(doc, name) {
        let ghost all = json::trees(items@);
        let ghost start = out@;
        proof {
            json::lemma_trees(items@);
            assert(start.union(digests_in(all.take(0))) =~= start);
        }
        let mut i: usize = 0;
        while i < items.len()
            invariant
                i <= items@.len(),
                all == json::trees(items@),
                all.len() == items@.len(),
                forall|k: int| 0 <= k < items@.len() ==> #[trigger] all[k] == items@[k]@,
                out@ == start.union(digests_in(all.take(i as int))),
            decreases items@.len() - i,
        {
            proof {
                assert(all.take(i + 1).drop_last() =~= all.take(i as int));
                assert(all.take(i + 1).last() == items@[i as int]@);
            }
            if let Some(d) = json::get_text(&items[i], "digest") {
                out.insert(d.to_owned());
                proof {
                    assert(out@ =~= start.union(digests_in(all.take(i + 1))));
                }
            }
            i = i + 1;
        }
        proof {
            assert(all.take(i as int) =~= all);
        }
    } else {
        proof {
            assert(out@.union(digests_in(array_member(doc@, name@))) =~= out@);
        }
    }
}

/// Adds the blobs that a manifest refers to.
pub fn collect_blob_refs(doc: &Json, out: &mut KeySet)
    ensures
        final(out)@ == old(out)@.union(blob_refs(doc@)),
{
    let ghost start = out@;
    if let Some(config) = json::get(doc, "config") {
        if let Some(d) = json::get_text(config, "digest") {
            out.insert(d.to_owned());
        }
    }
    proof {
        assert(out@ =~= start.union(config_digest(doc@)));
    }
    collect_digests(doc, "layers", out);
    proof {
        assert(out@ =~= start.union(blob_refs(doc@)));
    }
}

/// Adds the blobs that a manifest refers to, and the manifests that it lists.
pub fn collect_manifest_refs(doc: &Json, blobs: &mut KeySet, sub_manifests: &mut KeySet)
    ensures
        final(blobs)@ == old(blobs)@.union(blob_refs(doc@)),
        final(sub_manifests)@ == old(sub_manifests)@.union(list_refs(doc@)),
{
    collect_blob_refs(doc, blobs);
    collect_digests(doc, "manifests", sub_manifests);
}

/// What is reachable from the tags.
pub struct Reach {
    /// Digests of the manifests that tagged lists name.
    pub lists: KeySet,
    /// Digests that the tag manifests have themselves.
    pub tags: KeySet,
    /// Digests of the blobs that reachable manifests refer to.
    pub blobs: KeySet,
}

/// The keys of the tag manifests: those to read first.
pub fn tag_manifest_keys(keys: &Vec<String>) -> (r: Vec<String>)
    ensures
        text::texts(r@) == text::texts(keys@).filter(|k: Seq<char>| is_tag_manifest(k)),
{
    let ghost all = text::texts(keys@);
    let ghost p = |k: Seq<char>| is_tag_manifest(k);
    let mut r: Vec<String> = Vec::new();
    let mut i: usize = 0;
    proof {
        reveal(Seq::filter);
        assert(text::texts(r@) =~= all.take(0).filter(p));
    }
    while i < keys.len()
        invariant
            i <= keys@.len(),
            all == text::texts(keys@),
            p == (|k: Seq<char>| is_tag_manifest(k)),
            text::texts(r@) == all.take(i as int).filter(p),
        decreases keys@.len() - i,
    {
        let ghost before = r@;
        proof {
            reveal(Seq::filter);
            assert(all.take(i + 1).drop_last() =~= all.take(i as int));
            assert(all.take(i + 1).last() == keys@[i as int]@);
        }
        let key = keys[i].as_str();
        if manifest_key(key) && !is_digest_ref(manifest_ref(key)) {
            r.push(keys[i].clone());
            proof {
                assert(text::texts(r@) =~= text::texts(before).push(key@));
            }
        }
        i = i + 1;
    }
    proof {
        assert(all.take(i as int) =~= all);
    }
    r
}

/// Reads the tag manifests: the digests that they have, the manifests that the
/// lists among them name, and the blobs that they refer to.
pub fn read_tags(keys: &Vec<String>, files: &FileTable) -> (r: Reach)
    ensures
        r.lists@ == listed(text::texts(keys@), files@),
        r.tags@ == tagged(text::texts(keys@), files@),
        r.blobs@ == tag_refs(text::texts(keys@), files@),
{
    let ghost all = text::texts(keys@);
    let mut lists = KeySet::new();
    let mut tags = KeySet::new();
    let mut blobs = KeySet::new();
    let mut i: usize = 0;
    proof {
        assert(lists@ =~= listed(all.take(0), files@));
        assert(tags@ =~= tagged(all.take(0), files@));
        assert(blobs@ =~= tag_refs(all.take(0), files@));
    }
    while i < keys.len()
        invariant
            i <= keys@.len(),
            all == text::texts(keys@),
            lists@ == listed(all.take(i as int), files@),
            tags@ == tagged(all.take(i as int), files@),
            blobs@ == tag_refs(all.take(i as int), files@),
        decreases keys@.len() - i,
    {
        proof {
            assert(all.take(i + 1).drop_last() =~= all.take(i as int));
            assert(all.take(i + 1).last() == keys@[i as int]@);
        }
        let key = keys[i].as_str();
        if manifest_key(key) && !is_digest_ref(manifest_ref(key)) {
            if let Some(data) = files.get(key) {
                tags.insert(
                    text::concat2("sha256:", digest::sha256_hex(data.as_slice()).as_str()),
                );
                if let Some(doc) = json::parse_json(data.as_slice()) {
                    collect_manifest_refs(&doc, &mut blobs, &mut lists);
                }
            }
        }
        i = i + 1;
    }
    proof {
        assert(all.take(i as int) =~= all);
    }
    Reach { lists, tags, blobs }
}

/// The keys of the manifests that tagged lists name: those to read second.
pub fn sub_manifest_keys(keys: &Vec<String>, lists: &KeySet) -> (r: Vec<String>)
    ensures
        text::texts(r@) == text::texts(keys@).filter(
            |k: Seq<char>| is_sub_manifest(k, lists@),
        ),
{
    let ghost all = text::texts(keys@);
    let ghost p = |k: Seq<char>| is_sub_manifest(k, lists@);
    let mut r: Vec<String> = Vec::new();
    let mut i: usize = 0;
    proof {
        reveal(Seq::filter);
        assert(text::texts(r@) =~= all.take(0).filter(p));
    }
    while i < keys.len()
        invariant
            i <= keys@.len(),
            all == text::texts(keys@),
            p == (|k: Seq<char>| is_sub_manifest(k, lists@)),
            text::texts(r@) == all.take(i as int).filter(p),
        decreases keys@.len() - i,
    {
        let ghost before = r@;
        proof {
            reveal(Seq::filter);
            assert(all.take(i + 1).drop_last() =~= all.take(i as int));
            assert(all.take(i + 1).last() == keys@[i as int]@);
        }
        let key = keys[i].as_str();
        if manifest_key(key) && lists.contains(manifest_ref(key)) {
            r.push(keys[i].clone());
            proof {
                assert(text::texts(r@) =~= text::texts(before).push(key@));
            }
        }
        i = i + 1;
    }
    proof {
        assert(all.take(i as int) =~= all);
    }
    r
}

/// Reads the listed manifests: adds the blobs that they refer to.
pub fn read_sub_manifests(
    keys: &Vec<String>,
    files: &FileTable,
    lists: &KeySet,
    blobs: &mut KeySet,
)
    ensures
        final(blobs)@ == old(blobs)@.union(sub_refs(text::texts(keys@), files@, lists@)),
{
    let ghost all = text::texts(keys@);
    let ghost start = blobs@;
    let mut i: usize = 0;
    proof {
        assert(start.union(sub_refs(all.take(0), files@, lists@)) =~= start);
    }
    while i < keys.len()
        invariant
            i <= keys@.len(),
            all == text::texts(keys@),
            blobs@ == start.union(sub_refs(all.take(i as int), files@, lists@)),
        decreases keys@.len() - i,
    {
        proof {
            assert(all.take(i + 1).drop_last() =~= all.take(i as int));
            assert(all.take(i + 1).last() == keys@[i as int]@);
        }
        let key = keys[i].as_str();
        if manifest_key(key) && lists.contains(manifest_ref(key)) {
            if let Some(data) = files.get(key) {
                if let Some(doc) = json::parse_json(data.as_slice()) {
                    collect_blob_refs(&doc, blobs);
                    proof {
                        assert(blobs@ =~= start.union(
                            sub_refs(all.take(i + 1), files@, lists@),
                        ));
                    }
                }
            }
        }
        i = i + 1;
    }
    proof {
        assert(all.take(i as int) =~= all);
    }
}

/// The orphans, given what is reachable.
pub fn find_unreachable(keys: &Vec<String>, reach: &Reach) -> (r: DetectionResult)
    ensures
        r.total == blob_count(text::texts(keys@)),
        text::texts(r.orphans@) == orphan_blobs(text::texts(keys@), reach.blobs@)
            + orphan_manifests(
            text::texts(keys@),
            text::texts(keys@),
            reach.lists@,
            reach.tags@,
        ),
{
    let ghost all = text::texts(keys@);
    let mut known = KeySet::new();
    let mut i: usize = 0;
    while i < keys.len()
        invariant
            i <= keys@.len(),
            all == text::texts(keys@),
            forall|x: Seq<char>| #[trigger]
                known@.contains(x) <==> exists|k: int| 0 <= k < i && #[trigger] all[k] == x,
        decreases keys@.len() - i,
    {
        let ghost before = known@;
        known.insert(keys[i].clone());
        proof {
            assert forall|x: Seq<char>| #[trigger] known@.contains(x) <==> exists|k: int|
                0 <= k < i + 1 && #[trigger] all[k] == x by {
                if known@.contains(x) && !before.contains(x) {
                    assert(all[i as int] == x);
                }
                if exists|k: int| 0 <= k < i + 1 && #[trigger] all[k] == x {
                    let k = choose|k: int| 0 <= k < i + 1 && #[trigger] all[k] == x;
                    if k < i {
                        assert(before.contains(x));
                    }
                }
            }
        }
        i = i + 1;
    }
    proof {
        assert forall|x: Seq<char>| #[trigger] known@.contains(x) <==> all.contains(x) by {}
    }
    let mut total: usize = 0;
    let mut orphans: Vec<String> = Vec::new();
    let mut i: usize = 0;
    proof {
        assert(text::texts(orphans@) =~= orphan_blobs(all.take(0), reach.blobs@));
    }
    while i < keys.len()
        invariant
            i <= keys@.len(),
            total <= i,
            all == text::texts(keys@),
            total == blob_count(all.take(i as int)),
            text::texts(orphans@) == orphan_blobs(all.take(i as int), reach.blobs@),
        decreases keys@.len() - i,
    {
        let ghost before = orphans@;
        proof {
            assert(all.take(i + 1).drop_last() =~= all.take(i as int));
            assert(all.take(i + 1).last() == keys@[i as int]@);
        }
        let key = keys[i].as_str();
        if blob_key(key) {
            total = total + 1;
            if !reach.blobs.contains(text::last_piece(key, '/')) {
                orphans.push(keys[i].clone());
                proof {
                    assert(text::texts(orphans@) =~= text::texts(before).push(key@));
                }
            }
        }
        i = i + 1;
    }
    let ghost blobs = text::texts(orphans@);
    proof {
        assert(all.take(i as int) =~= all);
        assert(blobs + orphan_manifests(all.take(0), all, reach.lists@, reach.tags@) =~= blobs);
    }
    let mut i: usize = 0;
    while i < keys.len()
        invariant
            i <= keys@.len(),
            all == text::texts(keys@),
            forall|x: Seq<char>| #[trigger] known@.contains(x) <==> all.contains(x),
            text::texts(orphans@) == blobs + orphan_manifests(
                all.take(i as int),
                all,
                reach.lists@,
                reach.tags@,
            ),
        decreases keys@.len() - i,
    {
        let ghost before = orphans@;
        proof {
            assert(all.take(i + 1).drop_last() =~= all.take(i as int));
            assert(all.take(i + 1).last() == keys@[i as int]@);
        }
        let key = keys[i].as_str();
        if manifest_key(key) {
            let name = manifest_ref(key);
            if is_digest_ref(name) && !reach.lists.contains(name) && !reach.tags.contains(name) {
                orphans.push(keys[i].clone());
                if let Some(stem) = text::strip_suffix(key, ".json") {
                    let sidecar = text::concat2(stem, ".meta.json");
                    if known.contains(sidecar.as_str()) && text::contains(
                        sidecar.as_str(),
                        "/manifests/",
                    ) && text::ends_with_ci(sidecar.as_str(), ".meta.json") {
                        orphans.push(sidecar);
                    }
                }
                proof {
                    let so_far = orphan_manifests(
                        all.take(i as int),
                        all,
                        reach.lists@,
                        reach.tags@,
                    );
                    assert(text::texts(orphans@) =~= text::texts(before) + with_sidecar(key@, all));
                    assert(blobs + so_far + with_sidecar(key@, all) =~= blobs + (so_far
                        + with_sidecar(key@, all)));
                }
            }
        }
        i = i + 1;
    }
    proof {
        assert(all.take(i as int) =~= all);
    }
    DetectionResult { total, orphans }
}

/// The orphans of the Docker registry, from the listing of its keys and the
/// manifests that could be read.
pub fn detect_docker_orphans(keys: &Vec<String>, files: &FileTable) -> (r: DetectionResult)
    ensures
        r.total == blob_count(text::texts(keys@)),
        text::texts(r.orphans@) == docker_orphans(text::texts(keys@), files@),
{
    let mut reach = read_tags(keys, files);
    read_sub_manifests(keys, files, &reach.lists, &mut reach.blobs);
    find_unreachable(keys, &reach)
}

/// The digest that a document gives is among those of its tag.
proof fn lemma_unions(keys: Seq<Seq<char>>, files: Map<Seq<char>, Vec<u8>>, i: int)
    requires
        0 <= i < keys.len(),
        is_tag_manifest(keys[i]),
        files.contains_key(keys[i]),
    ensures
        tagged(keys, files).contains("sha256:"@ + digest::sha256_text(files[keys[i]]@)),
        document(files, keys[i]) matches Some(doc) ==> list_refs(doc).subset_of(
            listed(keys, files),
        ) && blob_refs(doc).subset_of(tag_refs(keys, files)),
    decreases keys.len(),
{
    if i < keys.len() - 1 {
        lemma_unions(keys.drop_last(), files, i);
    }
}

proof fn lemma_sub_union(
    keys: Seq<Seq<char>>,
    files: Map<Seq<char>, Vec<u8>>,
    lists: Set<Seq<char>>,
    i: int,
)
    requires
        0 <= i < keys.len(),
        is_sub_manifest(keys[i], lists),
    ensures
        document(files, keys[i]) matches Some(doc) ==> blob_refs(doc).subset_of(
            sub_refs(keys, files, lists),
        ),
    decreases keys.len(),
{
    if i < keys.len() - 1 {
        lemma_sub_union(keys.drop_last(), files, lists, i);
    }
}

pub proof fn lemma_orphan_blobs(keys: Seq<Seq<char>>, refs: Set<Seq<char>>, x: Seq<char>)
    ensures
        orphan_blobs(keys, refs).contains(x) ==> keys.contains(x) && is_blob(x) && !refs.contains(
            text::tail_after(x, '/'),
        ),
    decreases keys.len(),
{
    if keys.len() > 0 {
        let front = keys.drop_last();
        lemma_orphan_blobs(front, refs, x);
        let before = orphan_blobs(front, refs);
        let all = orphan_blobs(keys, refs);
        if all.contains(x) {
            let k = choose|k: int| 0 <= k < all.len() && all[k] == x;
            if k < before.len() {
                assert(before[k] == x);
                assert(before.contains(x));
                let j = choose|j: int| 0 <= j < front.len() && front[j] == x;
                assert(keys[j] == x);
            } else {
                assert(keys[keys.len() - 1] == x);
            }
        }
    }
}

/// What is swept as a manifest is an orphan manifest or the sidecar of one.
proof fn lemma_orphan_manifests(
    keys: Seq<Seq<char>>,
    all: Seq<Seq<char>>,
    lists: Set<Seq<char>>,
    tags: Set<Seq<char>>,
    x: Seq<char>,
)
    requires
        forall|k: int| 0 <= k < keys.len() ==> all.contains(#[trigger] keys[k]),
    ensures
        orphan_manifests(keys, all, lists, tags).contains(x) ==> all.contains(x) && (
        is_orphan_manifest(x, lists, tags) || (text::ends_ci(x, ".meta.json"@) && !is_blob(x))),
    decreases keys.len(),
{
    if keys.len() > 0 {
        let front = keys.drop_last();
        assert forall|k: int| 0 <= k < front.len() implies all.contains(#[trigger] front[k]) by {
            assert(all.contains(keys[k]));
        }
        lemma_orphan_manifests(front, all, lists, tags, x);
        let before = orphan_manifests(front, all, lists, tags);
        let found = orphan_manifests(keys, all, lists, tags);
        if found.contains(x) {
            let k = choose|k: int| 0 <= k < found.len() && found[k] == x;
            if k < before.len() {
                assert(before[k] == x);
                assert(before.contains(x));
            } else {
                let key = keys.last();
                assert(all.contains(keys[keys.len() - 1]));
                if x != key {
                    let stem = text::without_suffix(key, ".json"@)->0;
                    assert(x == stem + ".meta.json"@);
                    lemma_sidecar_is_no_blob(key, stem);
                }
            }
        }
    }
}

/// The sidecar of a manifest is no blob.
proof fn lemma_sidecar_is_no_blob(key: Seq<char>, stem: Seq<char>)
    requires
        !is_blob(key),
        text::without_suffix(key, ".json"@) == Some(stem),
    ensures
        !is_blob(stem + ".meta.json"@),
{
    reveal_strlit("/blobs/");
    reveal_strlit(".meta.json");
    let x = stem + ".meta.json"@;
    let p = "/blobs/"@;
    if is_blob(x) {
        let i = choose|i: int| text::occurs_at(x, p, i);
        assert(x.subrange(i, i + 7)[6] == p[6]);
        if i + 7 > stem.len() {
            assert(x[i + 6] == ".meta.json"@[i + 6 - stem.len()]);
            assert(false);
        }
        assert(key.subrange(i, i + 7) =~= x.subrange(i, i + 7));
        assert(text::occurs_at(key, p, i));
    }
}

/// Every orphan is one of the keys of the listing.
pub proof fn orphans_are_listed_keys(
    keys: Seq<Seq<char>>,
    files: Map<Seq<char>, Vec<u8>>,
    x: Seq<char>,
)
    requires
        docker_orphans(keys, files).contains(x),
    ensures
        keys.contains(x),
{
    lemma_orphan_parts(keys, files, x);
}

/// A blob is an orphan only where nothing refers to it, a manifest only where
/// no tag reaches it.
pub proof fn lemma_orphan_parts(keys: Seq<Seq<char>>, files: Map<Seq<char>, Vec<u8>>, x: Seq<char>)
    requires
        docker_orphans(keys, files).contains(x),
    ensures
        keys.contains(x),
        is_blob(x) ==> !referenced(keys, files).contains(text::tail_after(x, '/')),
        is_manifest(x) ==> is_orphan_manifest(x, listed(keys, files), tagged(keys, files)),
{
    let a = orphan_blobs(keys, referenced(keys, files));
    let b = orphan_manifests(keys, keys, listed(keys, files), tagged(keys, files));
    lemma_orphan_blobs(keys, referenced(keys, files), x);
    assert forall|k: int| 0 <= k < keys.len() implies keys.contains(#[trigger] keys[k]) by {}
    lemma_orphan_manifests(keys, keys, listed(keys, files), tagged(keys, files), x);
    let k = choose|k: int| 0 <= k < (a + b).len() && (a + b)[k] == x;
    if k < a.len() {
        assert(a[k] == x);
        assert(a.contains(x));
    } else {
        assert(b[k - a.len()] == x);
        assert(b.contains(x));
    }
}

/// A blob that a readable tag manifest refers to is never an orphan.
pub proof fn blobs_of_tags_are_kept(
    keys: Seq<Seq<char>>,
    files: Map<Seq<char>, Vec<u8>>,
    i: int,
    doc: JsonTree,
    blob: Seq<char>,
)
    requires
        0 <= i < keys.len(),
        is_tag_manifest(keys[i]),
        document(files, keys[i]) == Some(doc),
        is_blob(blob),
        blob_refs(doc).contains(text::tail_after(blob, '/')),
    ensures
        !docker_orphans(keys, files).contains(blob),
{
    lemma_unions(keys, files, i);
    if docker_orphans(keys, files).contains(blob) {
        lemma_orphan_parts(keys, files, blob);
    }
}

/// A blob of a manifest that a tagged list names is never an orphan.
pub proof fn blobs_of_listed_manifests_are_kept(
    keys: Seq<Seq<char>>,
    files: Map<Seq<char>, Vec<u8>>,
    i: int,
    list: JsonTree,
    j: int,
    doc: JsonTree,
    blob: Seq<char>,
)
    requires
        0 <= i < keys.len(),
        is_tag_manifest(keys[i]),
        document(files, keys[i]) == Some(list),
        0 <= j < keys.len(),
        is_manifest(keys[j]),
        list_refs(list).contains(ref_name(keys[j])),
        document(files, keys[j]) == Some(doc),
        is_blob(blob),
        blob_refs(doc).contains(text::tail_after(blob, '/')),
    ensures
        !docker_orphans(keys, files).contains(blob),
{
    lemma_unions(keys, files, i);
    lemma_sub_union(keys, files, listed(keys, files), j);
    if docker_orphans(keys, files).contains(blob) {
        lemma_orphan_parts(keys, files, blob);
    }
}

/// A manifest that a tagged list names is never an orphan.
pub proof fn listed_manifests_are_kept(
    keys: Seq<Seq<char>>,
    files: Map<Seq<char>, Vec<u8>>,
    i: int,
    list: JsonTree,
    key: Seq<char>,
)
    requires
        0 <= i < keys.len(),
        is_tag_manifest(keys[i]),
        document(files, keys[i]) == Some(list),
        is_manifest(key),
        list_refs(list).contains(ref_name(key)),
    ensures
        !docker_orphans(keys, files).contains(key),
{
    lemma_unions(keys, files, i);
    if docker_orphans(keys, files).contains(key) {
        lemma_orphan_parts(keys, files, key);
    }
}

/// The digest alias of a readable tag manifest is never an orphan, nor is a
/// tag manifest itself.
pub proof fn tagged_manifests_are_kept(
    keys: Seq<Seq<char>>,
    files: Map<Seq<char>, Vec<u8>>,
    i: int,
    key: Seq<char>,
)
    requires
        0 <= i < keys.len(),
        is_tag_manifest(keys[i]),
        is_manifest(key),
        key == keys[i] || (files.contains_key(keys[i]) && ref_name(key) == "sha256:"@
            + digest::sha256_text(files[keys[i]]@)),
    ensures
        !docker_orphans(keys, files).contains(key),
{
    if docker_orphans(keys, files).contains(key) {
        lemma_orphan_parts(keys, files, key);
        if key != keys[i] {
            lemma_unions(keys, files, i);
        }
    }
}

} // verus!
