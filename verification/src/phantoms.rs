//! Phantom versions in npm and PyPI metadata: versions that a package's
//! `metadata.json` lists while no file of theirs is in storage.

use vstd::prelude::*;

use crate::collect;
use crate::json::{self, Json, JsonTree};
use crate::table::KeySet;
use crate::text;

verus! {

/// What is to be done about a metadata file.
#[derive(Debug)]
pub struct MetadataCleanup {
    /// How many phantom versions it lists.
    pub removed: usize,
    /// Keys to delete before it is rewritten.
    pub delete: Vec<String>,
    /// The bytes to put in its place.
    pub rewrite: Option<Vec<u8>>,
}

/// The key is a metadata file.
pub open spec fn is_metadata(key: Seq<char>) -> bool {
    text::ends_ci(key, "/metadata.json"@)
}

/// The key is an npm tarball.
pub open spec fn is_tarball(key: Seq<char>) -> bool {
    !is_metadata(key) && text::has(key, "/tarballs/"@)
}

/// The key is a PyPI package file.
pub open spec fn is_package_file(key: Seq<char>) -> bool {
    !is_metadata(key) && !collect::is_checksum(key)
}

/// The package whose metadata file the key is.
pub open spec fn package_of(key: Seq<char>, registry: Seq<char>) -> Option<Seq<char>> {
    match text::without_prefix(key, registry) {
        Some(rest) => text::without_suffix(rest, "/metadata.json"@),
        None => None,
    }
}

/// The tarball of a version. That of a scoped package goes by the part of the
/// name behind the scope.
pub open spec fn tarball_key(package: Seq<char>, version: Seq<char>) -> Seq<char> {
    "npm/"@ + package + "/tarballs/"@ + text::tail_after(package, '/') + "-"@ + version + ".tgz"@
}

/// The per-version index key of a version.
pub open spec fn version_key(package: Seq<char>, version: Seq<char>) -> Seq<char> {
    "npm/"@ + package + "/versions/"@ + version + ".json"@
}

/// The per-version index keys of the versions.
pub open spec fn version_keys(package: Seq<char>, versions: Seq<Seq<char>>) -> Seq<Seq<char>> {
    versions.map_values(|v: Seq<char>| version_key(package, v))
}

/// The members of the object in a member of the document.
pub open spec fn section(doc: JsonTree, name: Seq<char>) -> Option<Seq<(Seq<char>, JsonTree)>> {
    match json::member(doc, name) {
        Some(JsonTree::Object(m)) => Some(m),
        _ => None,
    }
}

/// Some file that the release lists is in storage.
pub open spec fn has_stored_file(
    files: Seq<JsonTree>,
    package: Seq<char>,
    stored: Set<Seq<char>>,
) -> bool {
    exists|i: int|
        0 <= i < files.len() && (json::text_member(#[trigger] files[i], "filename"@) matches Some(
            name,
        ) && stored.contains("pypi/"@ + package + "/"@ + name))
}

/// The release lists files of which none is in storage, or no list of files.
pub open spec fn is_phantom_release(
    release: JsonTree,
    package: Seq<char>,
    stored: Set<Seq<char>>,
) -> bool {
    match release {
        JsonTree::Array(files) => files.len() > 0 && !has_stored_file(files, package, stored),
        _ => true,
    }
}

/// The versions among the members without a tarball in storage.
pub open spec fn npm_phantoms(
    versions: Seq<(Seq<char>, JsonTree)>,
    package: Seq<char>,
    tarballs: Set<Seq<char>>,
) -> Seq<Seq<char>>
    decreases versions.len(),
{
    if versions.len() == 0 {
        Seq::empty()
    } else {
        let before = npm_phantoms(versions.drop_last(), package, tarballs);
        if tarballs.contains(tarball_key(package, versions.last().0)) {
            before
        } else {
            before.push(versions.last().0)
        }
    }
}

/// The releases among the members without a file in storage.
pub open spec fn pypi_phantoms(
    releases: Seq<(Seq<char>, JsonTree)>,
    package: Seq<char>,
    stored: Set<Seq<char>>,
) -> Seq<Seq<char>>
    decreases releases.len(),
{
    if releases.len() == 0 {
        Seq::empty()
    } else {
        let before = pypi_phantoms(releases.drop_last(), package, stored);
        if is_phantom_release(releases.last().1, package, stored) {
            before.push(releases.last().0)
        } else {
            before
        }
    }
}

/// The members whose name is not among the names.
pub open spec fn without_names(
    m: Seq<(Seq<char>, JsonTree)>,
    names: Seq<Seq<char>>,
) -> Seq<(Seq<char>, JsonTree)>
    decreases m.len(),
{
    if m.len() == 0 {
        Seq::empty()
    } else {
        let before = without_names(m.drop_last(), names);
        if names.contains(m.last().0) {
            before
        } else {
            before.push(m.last())
        }
    }
}

/// The value of a member, with the names taken out where it is the section.
pub open spec fn pruned_value(
    member: (Seq<char>, JsonTree),
    name: Seq<char>,
    names: Seq<Seq<char>>,
) -> JsonTree {
    match member.1 {
        JsonTree::Object(inner) => if member.0 == name {
            JsonTree::Object(without_names(inner, names))
        } else {
            member.1
        },
        _ => member.1,
    }
}

/// The members, with the names taken out of the section.
pub open spec fn pruned_members(
    m: Seq<(Seq<char>, JsonTree)>,
    name: Seq<char>,
    names: Seq<Seq<char>>,
) -> Seq<(Seq<char>, JsonTree)> {
    m.map_values(|x: (Seq<char>, JsonTree)| (x.0, pruned_value(x, name, names)))
}

/// The document, with the names taken out of the object in the section.
pub open spec fn pruned(doc: JsonTree, name: Seq<char>, names: Seq<Seq<char>>) -> JsonTree {
    match doc {
        JsonTree::Object(m) => JsonTree::Object(pruned_members(m, name, names)),
        _ => doc,
    }
}

/// The phantom versions of an npm document, where it has versions.
pub open spec fn npm_found(doc: JsonTree, package: Seq<char>, tarballs: Set<Seq<char>>) -> Option<
    Seq<Seq<char>>,
> {
    match section(doc, "versions"@) {
        Some(m) => Some(npm_phantoms(m, package, tarballs)),
        None => None,
    }
}

/// The phantom releases of a PyPI document, where it has releases.
pub open spec fn pypi_found(doc: JsonTree, package: Seq<char>, stored: Set<Seq<char>>) -> Option<
    Seq<Seq<char>>,
> {
    match section(doc, "releases"@) {
        Some(m) => Some(pypi_phantoms(m, package, stored)),
        None => None,
    }
}

/// The npm document without the versions, and without their times.
pub open spec fn npm_cleaned(doc: JsonTree, phantoms: Seq<Seq<char>>) -> JsonTree {
    pruned(pruned(doc, "versions"@, phantoms), "time"@, phantoms)
}

/// The PyPI document without the releases.
pub open spec fn pypi_cleaned(doc: JsonTree, phantoms: Seq<Seq<char>>) -> JsonTree {
    pruned(doc, "releases"@, phantoms)
}

/// The bytes in an optional vector.
pub open spec fn bytes_of(v: Option<Vec<u8>>) -> Option<Seq<u8>> {
    match v {
        Some(b) => Some(b@),
        None => None,
    }
}

/// The document that is read from the bytes put in its place.
pub open spec fn rewritten(c: MetadataCleanup) -> Option<JsonTree> {
    match c.rewrite {
        Some(b) => json::parsed(b@),
        None => None,
    }
}

/// `c` is the cleanup of a document with these phantoms: nothing where there
/// are none or the run is dry, else the deletions and the rewrite.
pub open spec fn is_cleanup(
    c: MetadataCleanup,
    phantoms: Seq<Seq<char>>,
    deletions: Seq<Seq<char>>,
    cleaned: JsonTree,
    dry_run: bool,
) -> bool {
    &&& c.removed == phantoms.len()
    &&& if dry_run || phantoms.len() == 0 {
        c.delete@.len() == 0 && c.rewrite is None
    } else {
        &&& text::texts(c.delete@) == deletions
        &&& bytes_of(c.rewrite) == json::rendered(cleaned)
        &&& json::reads_back(cleaned) ==> rewritten(c) == Some(cleaned)
    }
}

/// Builds a list of the keys that satisfy what the registry asks of metadata
/// files, and the set of its artifacts.
pub fn npm_targets(keys: &Vec<String>, is_proxy: bool) -> (r: (Vec<String>, KeySet))
    ensures
        is_proxy ==> r.0@.len() == 0,
        !is_proxy ==> text::texts(r.0@) == text::texts(keys@).filter(
            |k: Seq<char>| is_metadata(k),
        ),
        forall|x: Seq<char>| #[trigger]
            r.1@.contains(x) <==> text::texts(keys@).contains(x) && is_tarball(x),
{
    let (meta, files) = sort_out(keys, true);
    if is_proxy {
        (Vec::new(), files)
    } else {
        (meta, files)
    }
}

/// The metadata files of the PyPI listing, and its package files.
pub fn pypi_targets(keys: &Vec<String>) -> (r: (Vec<String>, KeySet))
    ensures
        text::texts(r.0@) == text::texts(keys@).filter(|k: Seq<char>| is_metadata(k)),
        forall|x: Seq<char>| #[trigger]
            r.1@.contains(x) <==> text::texts(keys@).contains(x) && is_package_file(x),
{
    sort_out(keys, false)
}

/// The key counts as an artifact: a tarball of npm, or a package file of PyPI.
pub open spec fn is_artifact(key: Seq<char>, npm: bool) -> bool {
    if npm {
        is_tarball(key)
    } else {
        is_package_file(key)
    }
}

fn sort_out(keys: &Vec<String>, npm: bool) -> (r: (Vec<String>, KeySet))
    ensures
        text::texts(r.0@) == text::texts(keys@).filter(|k: Seq<char>| is_metadata(k)),
        forall|x: Seq<char>| #[trigger]
            r.1@.contains(x) <==> text::texts(keys@).contains(x) && is_artifact(x, npm),
{
    let ghost all = text::texts(keys@);
    let ghost p = |k: Seq<char>| is_metadata(k);
    let mut meta: Vec<String> = Vec::new();
    let mut files = KeySet::new();
    let mut i: usize = 0;
    proof {
        reveal(Seq::filter);
        assert(text::texts(meta@) =~= all.take(0).filter(p));
    }
    while i < keys.len()
        invariant
            i <= keys@.len(),
            all == text::texts(keys@),
            p == (|k: Seq<char>| is_metadata(k)),
            text::texts(meta@) == all.take(i as int).filter(p),
            forall|x: Seq<char>| #[trigger]
                files@.contains(x) <==> all.take(i as int).contains(x) && is_artifact(x, npm),
        decreases keys@.len() - i,
    {
        let ghost before = meta@;
        let ghost had = files@;
        let ghost front = all.take(i as int);
        let ghost wide = all.take(i + 1);
        proof {
            reveal(Seq::filter);
            assert(wide.drop_last() =~= front);
            assert(wide.last() == keys@[i as int]@);
        }
        let key = keys[i].as_str();
        if text::ends_with_ci(key, "/metadata.json") {
            meta.push(keys[i].clone());
            proof {
                assert(text::texts(meta@) =~= text::texts(before).push(key@));
            }
        } else if npm {
            if text::contains(key, "/tarballs/") {
                files.insert(keys[i].clone());
            }
        } else if !collect::has_checksum_suffix(key) {
            files.insert(keys[i].clone());
        }
        proof {
            assert forall|x: Seq<char>| #[trigger] files@.contains(x) <==> wide.contains(x)
                && is_artifact(x, npm) by {
                assert(wide =~= front.push(key@));
                if wide.contains(x) {
                    let k = choose|k: int| 0 <= k < wide.len() && wide[k] == x;
                    if k < i {
                        assert(front[k] == x);
                        assert(front.contains(x));
                    }
                }
                if front.contains(x) {
                    let k = choose|k: int| 0 <= k < front.len() && front[k] == x;
                    assert(wide[k] == x);
                }
                if x == key@ {
                    assert(wide[i as int] == x);
                }
                assert(had.contains(x) <==> front.contains(x) && is_artifact(x, npm));
            }
        }
        i = i + 1;
    }
    proof {
        assert(all.take(i as int) =~= all);
    }
    (meta, files)
}

fn tarball_text(package: &str, version: &str) -> (r: String)
    ensures
        r@ == tarball_key(package@, version@),
{
    let mut r = text::concat3("npm/", package, "/tarballs/");
    r.append(text::last_piece(package, '/'));
    r.append("-");
    r.append(version);
    r.append(".tgz");
    r
}

/// The versions of an npm document without a tarball in storage; none where
/// the document has no versions.
pub fn find_npm_phantoms(doc: &Json, package: &str, tarballs: &KeySet) -> (r: Option<Vec<String>>)
    ensures
        match r {
            Some(v) => npm_found(doc@, package@, tarballs@) == Some(text::texts(v@)),
            None => npm_found(doc@, package@, tarballs@) is None,
        },
{
    match json::get(doc, "versions") {
        Some(Json::Object(m)) => {
            let ghost ms = json::members(m@);
            proof {
                json::lemma_members(m@);
            }
            let mut r: Vec<String> = Vec::new();
            let mut i: usize = 0;
            proof {
                assert(text::texts(r@) =~= npm_phantoms(ms.take(0), package@, tarballs@));
            }
            while i < m.len()
                invariant
                    i <= m@.len(),
                    ms == json::members(m@),
                    ms.len() == m@.len(),
                    forall|k: int| 0 <= k < m@.len() ==> #[trigger] ms[k] == (m@[k].0@, m@[k].1@),
                    text::texts(r@) == npm_phantoms(ms.take(i as int), package@, tarballs@),
                decreases m@.len() - i,
            {
                let ghost before = r@;
                proof {
                    assert(ms.take(i + 1).drop_last() =~= ms.take(i as int));
                    assert(ms.take(i + 1).last() == ms[i as int]);
                }
                let tarball = tarball_text(package, m[i].0.as_str());
                if !tarballs.contains(tarball.as_str()) {
                    r.push(m[i].0.clone());
                    proof {
                        assert(text::texts(r@) =~= text::texts(before).push(ms[i as int].0));
                    }
                }
                i = i + 1;
            }
            proof {
                assert(ms.take(i as int) =~= ms);
            }
            Some(r)
        },
        _ => None,
    }
}

/// Some file that the release lists is in storage.
fn stored_file(files: &Vec<Json>, package: &str, stored: &KeySet) -> (r: bool)
    ensures
        r == has_stored_file(json::trees(files@), package@, stored@),
{
    let ghost all = json::trees(files@);
    proof {
        json::lemma_trees(files@);
    }
    let mut i: usize = 0;
    while i < files.len()
        invariant
            i <= files@.len(),
            all == json::trees(files@),
            all.len() == files@.len(),
            forall|k: int| 0 <= k < files@.len() ==> #[trigger] all[k] == files@[k]@,
            forall|k: int|
                0 <= k < i ==> !(json::text_member(#[trigger] all[k], "filename"@) matches Some(
                    name,
                ) && stored@.contains("pypi/"@ + package@ + "/"@ + name)),
        decreases files@.len() - i,
    {
        assert(all[i as int] == files@[i as int]@);
        if let Some(name) = json::get_text(&files[i], "filename") {
            let key = text::concat4("pypi/", package, "/", name);
            if stored.contains(key.as_str()) {
                return true;
            }
        }
        i = i + 1;
    }
    false
}

/// The releases of a PyPI document without a file in storage; none where the
/// document has no releases. A release that lists no files is kept.
pub fn find_pypi_phantoms(doc: &Json, package: &str, stored: &KeySet) -> (r: Option<Vec<String>>)
    ensures
        match r {
            Some(v) => pypi_found(doc@, package@, stored@) == Some(text::texts(v@)),
            None => pypi_found(doc@, package@, stored@) is None,
        },
{
    match json::get(doc, "releases") {
        Some(Json::Object(m)) => {
            let ghost ms = json::members(m@);
            proof {
                json::lemma_members(m@);
            }
            let mut r: Vec<String> = Vec::new();
            let mut i: usize = 0;
            proof {
                assert(text::texts(r@) =~= pypi_phantoms(ms.take(0), package@, stored@));
            }
            while i < m.len()
                invariant
                    i <= m@.len(),
                    ms == json::members(m@),
                    ms.len() == m@.len(),
                    forall|k: int| 0 <= k < m@.len() ==> #[trigger] ms[k] == (m@[k].0@, m@[k].1@),
                    text::texts(r@) == pypi_phantoms(ms.take(i as int), package@, stored@),
                decreases m@.len() - i,
            {
                let ghost before = r@;
                proof {
                    assert(ms.take(i + 1).drop_last() =~= ms.take(i as int));
                    assert(ms.take(i + 1).last() == ms[i as int]);
                }
                let phantom = match &m[i].1 {
                    Json::Array(files) => {
                        proof {
                            json::lemma_trees(files@);
                        }
                        files.len() > 0 && !stored_file(files, package, stored)
                    },
                    _ => true,
                };
                if phantom {
                    r.push(m[i].0.clone());
                    proof {
                        assert(text::texts(r@) =~= text::texts(before).push(ms[i as int].0));
                    }
                }
                i = i + 1;
            }
            proof {
                assert(ms.take(i as int) =~= ms);
            }
            Some(r)
        },
        _ => None,
    }
}

/// The name is among the names.
fn among(names: &Vec<String>, name: &str) -> (r: bool)
    ensures
        r == text::texts(names@).contains(name@),
{
    let ghost all = text::texts(names@);
    let mut i: usize = 0;
    while i < names.len()
        invariant
            i <= names@.len(),
            all == text::texts(names@),
            forall|k: int| 0 <= k < i ==> all[k] != name@,
        decreases names@.len() - i,
    {
        if text::same(names[i].as_str(), name) {
            assert(all[i as int] == name@);
            return true;
        }
        i = i + 1;
    }
    false
}

/// The members whose name is not among the names.
fn drop_names(m: Vec<(String, Json)>, names: &Vec<String>) -> (r: Vec<(String, Json)>)
    ensures
        json::members(r@) == without_names(json::members(m@), text::texts(names@)),
{
    let ghost ms = json::members(m@);
    let ghost src = m@;
    let mut m = m;
    let n: usize = m.len();
    proof {
        json::lemma_members(m@);
    }
    let mut r: Vec<(String, Json)> = Vec::new();
    let mut i: usize = 0;
    proof {
        assert(json::members(r@) =~= without_names(ms.take(0), text::texts(names@)));
    }
    while i < n
        invariant
            i <= n,
            n == src.len(),
            m@.len() == n,
            ms.len() == n,
            forall|k: int| i <= k < n ==> #[trigger] m@[k] == src[k],
            forall|k: int| 0 <= k < n ==> #[trigger] ms[k] == (src[k].0@, src[k].1@),
            json::members(r@) == without_names(ms.take(i as int), text::texts(names@)),
        decreases n - i,
    {
        let ghost before = r@;
        proof {
            assert(ms.take(i + 1).drop_last() =~= ms.take(i as int));
            assert(ms.take(i + 1).last() == ms[i as int]);
        }
        let mut slot: (String, Json) = (String::new(), Json::Null);
        std::mem::swap(&mut slot, &mut m[i]);
        if !among(names, slot.0.as_str()) {
            r.push(slot);
            proof {
                assert(r@.drop_last() =~= before);
            }
        }
        i = i + 1;
    }
    proof {
        assert(ms.take(i as int) =~= ms);
    }
    r
}

/// The document, with the names taken out of the object in the section.
pub fn prune(doc: Json, name: &str, names: &Vec<String>) -> (r: Json)
    ensures
        r@ == pruned(doc@, name@, text::texts(names@)),
{
    match doc {
        Json::Object(m) => {
            let ghost ms = json::members(m@);
            let ghost src = m@;
            let ghost gone = text::texts(names@);
            let mut m = m;
            let n: usize = m.len();
            proof {
                json::lemma_members(m@);
            }
            let mut r: Vec<(String, Json)> = Vec::new();
            let mut i: usize = 0;
            while i < n
                invariant
                    i <= n,
                    n == src.len(),
                    m@.len() == n,
                    ms.len() == n,
                    gone == text::texts(names@),
                    forall|k: int| i <= k < n ==> #[trigger] m@[k] == src[k],
                    forall|k: int| 0 <= k < n ==> #[trigger] ms[k] == (src[k].0@, src[k].1@),
                    r@.len() == i,
                    forall|k: int|
                        0 <= k < i ==> ((#[trigger] r@[k]).0@, r@[k].1@) == (
                            ms[k].0,
                            pruned_value(ms[k], name@, gone),
                        ),
                decreases n - i,
            {
                let mut slot: (String, Json) = (String::new(), Json::Null);
                std::mem::swap(&mut slot, &mut m[i]);
                let (key, value) = slot;
                let value = if text::same(key.as_str(), name) {
                    match value {
                        Json::Object(inner) => Json::Object(drop_names(inner, names)),
                        other => other,
                    }
                } else {
                    value
                };
                r.push((key, value));
                i = i + 1;
            }
            proof {
                json::lemma_members(r@);
                assert(json::members(r@) =~= pruned_members(ms, name@, gone));
            }
            Json::Object(r)
        },
        other => other,
    }
}

/// The per-version index keys of the versions.
fn version_key_list(package: &str, versions: &Vec<String>) -> (r: Vec<String>)
    ensures
        text::texts(r@) == version_keys(package@, text::texts(versions@)),
{
    let ghost all = text::texts(versions@);
    let mut r: Vec<String> = Vec::new();
    let mut i: usize = 0;
    while i < versions.len()
        invariant
            i <= versions@.len(),
            all == text::texts(versions@),
            r@.len() == i,
            forall|k: int| 0 <= k < i ==> (#[trigger] r@[k])@ == version_key(package@, all[k]),
        decreases versions@.len() - i,
    {
        let mut key = text::concat4("npm/", package, "/versions/", versions[i].as_str());
        key.append(".json");
        r.push(key);
        i = i + 1;
    }
    proof {
        assert(text::texts(r@) =~= version_keys(package@, all));
    }
    r
}

/// The cleanup of an npm document, where it is one.
pub fn npm_cleanup(doc: Json, package: &str, tarballs: &KeySet, dry_run: bool) -> (r: Option<
    MetadataCleanup,
>)
    ensures
        match r {
            Some(c) => npm_found(doc@, package@, tarballs@) matches Some(phantoms) && is_cleanup(
                c,
                phantoms,
                version_keys(package@, phantoms),
                npm_cleaned(doc@, phantoms),
                dry_run,
            ),
            None => npm_found(doc@, package@, tarballs@) is None,
        },
{
    let phantoms = find_npm_phantoms(&doc, package, tarballs)?;
    let removed: usize = phantoms.len();
    if dry_run || removed == 0 {
        return Some(MetadataCleanup { removed, delete: Vec::new(), rewrite: None });
    }
    let doc = prune(doc, "versions", &phantoms);
    let doc = prune(doc, "time", &phantoms);
    Some(
        MetadataCleanup {
            removed,
            delete: version_key_list(package, &phantoms),
            rewrite: json::render_json(&doc),
        },
    )
}

/// The cleanup of a PyPI document, where it is one.
pub fn pypi_cleanup(doc: Json, package: &str, stored: &KeySet, dry_run: bool) -> (r: Option<
    MetadataCleanup,
>)
    ensures
        match r {
            Some(c) => pypi_found(doc@, package@, stored@) matches Some(phantoms) && is_cleanup(
                c,
                phantoms,
                Seq::empty(),
                pypi_cleaned(doc@, phantoms),
                dry_run,
            ),
            None => pypi_found(doc@, package@, stored@) is None,
        },
{
    let phantoms = find_pypi_phantoms(&doc, package, stored)?;
    let removed: usize = phantoms.len();
    if dry_run || removed == 0 {
        return Some(MetadataCleanup { removed, delete: Vec::new(), rewrite: None });
    }
    let doc = prune(doc, "releases", &phantoms);
    let delete: Vec<String> = Vec::new();
    proof {
        assert(text::texts(delete@) =~= Seq::<Seq<char>>::empty());
    }
    Some(MetadataCleanup { removed, delete, rewrite: json::render_json(&doc) })
}

/// The cleanup of an npm metadata file. There is none where the key is not
/// that of a metadata file, its content is no document, or the document has no
/// versions.
pub fn clean_npm_metadata(meta_key: &str, data: &[u8], tarballs: &KeySet, dry_run: bool) -> (r:
    Option<MetadataCleanup>)
    ensures
        match (json::parsed(data@), package_of(meta_key@, "npm/"@)) {
            (Some(doc), Some(package)) => match npm_found(doc, package, tarballs@) {
                Some(phantoms) => r matches Some(c) && is_cleanup(
                    c,
                    phantoms,
                    version_keys(package, phantoms),
                    npm_cleaned(doc, phantoms),
                    dry_run,
                ),
                None => r is None,
            },
            _ => r is None,
        },
        (r matches Some(c) && c.rewrite is Some && json::reads_back(json::parsed(data@)->0)) ==> (
        rewritten(r->0) matches Some(doc) && npm_found(
            doc,
            package_of(meta_key@, "npm/"@)->0,
            tarballs@,
        ) == Some(Seq::<Seq<char>>::empty())),
{
    let doc = json::parse_json(data)?;
    let rest = text::strip_prefix(meta_key, "npm/")?;
    let package = text::strip_suffix(rest, "/metadata.json")?;
    proof {
        if let Some(phantoms) = npm_found(doc@, package@, tarballs@) {
            cleaned_npm_document_has_no_phantoms(doc@, package@, tarballs@, phantoms);
            if json::reads_back(doc@) {
                cleaned_documents_read_back(doc@, phantoms);
            }
        }
    }
    npm_cleanup(doc, package, tarballs, dry_run)
}

/// The cleanup of a PyPI metadata file. There is none where the key is not
/// that of a metadata file, its content is no document, or the document has no
/// releases.
pub fn clean_pypi_metadata(meta_key: &str, data: &[u8], stored: &KeySet, dry_run: bool) -> (r:
    Option<MetadataCleanup>)
    ensures
        match (json::parsed(data@), package_of(meta_key@, "pypi/"@)) {
            (Some(doc), Some(package)) => match pypi_found(doc, package, stored@) {
                Some(phantoms) => r matches Some(c) && is_cleanup(
                    c,
                    phantoms,
                    Seq::empty(),
                    pypi_cleaned(doc, phantoms),
                    dry_run,
                ),
                None => r is None,
            },
            _ => r is None,
        },
        (r matches Some(c) && c.rewrite is Some && json::reads_back(json::parsed(data@)->0)) ==> (
        rewritten(r->0) matches Some(doc) && pypi_found(
            doc,
            package_of(meta_key@, "pypi/"@)->0,
            stored@,
        ) == Some(Seq::<Seq<char>>::empty())),
{
    let doc = json::parse_json(data)?;
    let rest = text::strip_prefix(meta_key, "pypi/")?;
    let package = text::strip_suffix(rest, "/metadata.json")?;
    proof {
        if let Some(phantoms) = pypi_found(doc@, package@, stored@) {
            cleaned_pypi_document_has_no_phantoms(doc@, package@, stored@, phantoms);
            if json::reads_back(doc@) {
                cleaned_documents_read_back(doc@, phantoms);
            }
        }
    }
    pypi_cleanup(doc, package, stored, dry_run)
}

/// How many phantom versions were taken out of metadata files, given for each
/// file how many it lists and whether it was rewritten. A dry run counts those
/// that would be.
pub open spec fn cleaned_count(seen: Seq<(usize, bool)>, dry_run: bool) -> nat
    decreases seen.len(),
{
    if seen.len() == 0 {
        0
    } else {
        cleaned_count(seen.drop_last(), dry_run) + if dry_run || seen.last().1 {
            seen.last().0 as nat
        } else {
            0
        }
    }
}

proof fn lemma_cleaned_count_grows(seen: Seq<(usize, bool)>, dry_run: bool, n: int)
    requires
        0 <= n <= seen.len(),
    ensures
        cleaned_count(seen.take(n), dry_run) <= cleaned_count(seen, dry_run),
    decreases seen.len(),
{
    if n == seen.len() {
        assert(seen.take(n) =~= seen);
    } else {
        lemma_cleaned_count_grows(seen.drop_last(), dry_run, n);
        assert(seen.drop_last().take(n) =~= seen.take(n));
    }
}

/// Sums up the cleanup of metadata files: for each the number of its phantom
/// versions, and whether it was rewritten. There is no sum where it does not fit
/// in `usize`.
pub fn tally_phantoms(seen: &Vec<(usize, bool)>, dry_run: bool) -> (r: Option<usize>)
    ensures
        match r {
            Some(n) => n == cleaned_count(seen@, dry_run),
            None => cleaned_count(seen@, dry_run) > usize::MAX,
        },
{
    let mut sum: usize = 0;
    let mut i: usize = 0;
    while i < seen.len()
        invariant
            i <= seen@.len(),
            sum == cleaned_count(seen@.take(i as int), dry_run),
        decreases seen@.len() - i,
    {
        proof {
            assert(seen@.take(i + 1).drop_last() =~= seen@.take(i as int));
            lemma_cleaned_count_grows(seen@, dry_run, i + 1);
        }
        if dry_run || seen[i].1 {
            sum = sum.checked_add(seen[i].0)?;
        }
        i = i + 1;
    }
    proof {
        assert(seen@.take(i as int) =~= seen@);
    }
    Some(sum)
}

pub proof fn lemma_named_pruned(
    m: Seq<(Seq<char>, JsonTree)>,
    name: Seq<char>,
    names: Seq<Seq<char>>,
    wanted: Seq<char>,
)
    ensures
        json::named(pruned_members(m, name, names), wanted) == (match json::named(m, wanted) {
            Some(t) => Some(pruned_value((wanted, t), name, names)),
            None => None,
        }),
    decreases m.len(),
{
    let p = pruned_members(m, name, names);
    if m.len() > 0 {
        assert(p.drop_first() =~= pruned_members(m.drop_first(), name, names));
        lemma_named_pruned(m.drop_first(), name, names, wanted);
    }
}

/// Pruning a section leaves the other sections as they are.
pub proof fn lemma_section_pruned(
    doc: JsonTree,
    name: Seq<char>,
    names: Seq<Seq<char>>,
    wanted: Seq<char>,
)
    ensures
        section(pruned(doc, name, names), wanted) == (match section(doc, wanted) {
            Some(m) => Some(
                if wanted == name {
                    without_names(m, names)
                } else {
                    m
                },
            ),
            None => None,
        }),
{
    if let JsonTree::Object(m) = doc {
        lemma_named_pruned(m, name, names, wanted);
    }
}

pub proof fn lemma_without_names(
    m: Seq<(Seq<char>, JsonTree)>,
    names: Seq<Seq<char>>,
    x: (Seq<char>, JsonTree),
)
    ensures
        without_names(m, names).contains(x) <==> m.contains(x) && !names.contains(x.0),
    decreases m.len(),
{
    if m.len() > 0 {
        let front = m.drop_last();
        lemma_without_names(front, names, x);
        let before = without_names(front, names);
        let all = without_names(m, names);
        if all.contains(x) {
            let k = choose|k: int| 0 <= k < all.len() && all[k] == x;
            if k < before.len() {
                assert(before[k] == x);
                assert(before.contains(x));
                let i = choose|i: int| 0 <= i < front.len() && front[i] == x;
                assert(m[i] == x);
            } else {
                assert(m[m.len() - 1] == x);
            }
        }
        if m.contains(x) && !names.contains(x.0) {
            let i = choose|i: int| 0 <= i < m.len() && m[i] == x;
            if i < front.len() {
                assert(front[i] == x);
                assert(front.contains(x));
                let k = choose|k: int| 0 <= k < before.len() && before[k] == x;
                assert(all[k] == x);
            } else {
                assert(all[before.len() as int] == x);
            }
        }
    }
}

/// Taking members out of a plain object leaves it plain.
proof fn lemma_plain_without(
    m: Seq<(Seq<char>, JsonTree)>,
    names: Seq<Seq<char>>,
    depth: nat,
)
    requires
        json::plain(JsonTree::Object(m), depth),
    ensures
        json::plain(JsonTree::Object(without_names(m, names)), depth),
    decreases m.len(),
{
    if m.len() > 0 {
        let front = m.drop_last();
        assert(json::plain(JsonTree::Object(front), depth)) by {
            assert(forall|i: int| 0 <= i < front.len() ==> front[i] == #[trigger] m[i]);
        }
        lemma_plain_without(front, names, depth);
        let before = without_names(front, names);
        let all = without_names(m, names);
        if !names.contains(m.last().0) {
            assert forall|k: int| 0 <= k < before.len() implies (#[trigger] before[k]).0
                != m.last().0 && text::text_le(before[k].0, m.last().0) by {
                assert(before.contains(before[k]));
                lemma_without_names(front, names, before[k]);
                let i = choose|i: int| 0 <= i < front.len() && front[i] == before[k];
                assert(m[i] == before[k] && m[m.len() - 1] == m.last());
            }
            assert(forall|k: int| 0 <= k < before.len() ==> before[k] == #[trigger] all[k]);
            assert(all[before.len() as int] == m[m.len() - 1]);
        }
    }
}

/// Pruning a section of a plain document leaves it plain.
proof fn lemma_plain_pruned(doc: JsonTree, name: Seq<char>, names: Seq<Seq<char>>, depth: nat)
    requires
        json::plain(doc, depth),
    ensures
        json::plain(pruned(doc, name, names), depth),
{
    if let JsonTree::Object(m) = doc {
        let p = pruned_members(m, name, names);
        let below = (depth - 1) as nat;
        assert forall|i: int| 0 <= i < p.len() implies json::plain(
            (#[trigger] p[i]).1,
            below,
        ) by {
            assert(json::plain(m[i].1, below));
            if let JsonTree::Object(inner) = m[i].1 {
                lemma_plain_without(inner, names, below);
            }
        }
        assert(forall|i: int| 0 <= i < p.len() ==> (#[trigger] p[i]).0 == m[i].0);
    }
}

/// A document that reads back as it was written still does once it has been
/// cleaned.
pub proof fn cleaned_documents_read_back(doc: JsonTree, phantoms: Seq<Seq<char>>)
    requires
        json::reads_back(doc),
    ensures
        json::reads_back(npm_cleaned(doc, phantoms)),
        json::reads_back(pypi_cleaned(doc, phantoms)),
{
    lemma_plain_pruned(doc, "versions"@, phantoms, 127);
    lemma_plain_pruned(pruned(doc, "versions"@, phantoms), "time"@, phantoms, 127);
    lemma_plain_pruned(doc, "releases"@, phantoms, 127);
}

pub proof fn lemma_npm_phantoms(
    m: Seq<(Seq<char>, JsonTree)>,
    package: Seq<char>,
    tarballs: Set<Seq<char>>,
    version: Seq<char>,
)
    ensures
        npm_phantoms(m, package, tarballs).contains(version) <==> exists|i: int|
            0 <= i < m.len() && (#[trigger] m[i]).0 == version && !tarballs.contains(
                tarball_key(package, version),
            ),
    decreases m.len(),
{
    if m.len() > 0 {
        let front = m.drop_last();
        lemma_npm_phantoms(front, package, tarballs, version);
        let before = npm_phantoms(front, package, tarballs);
        let all = npm_phantoms(m, package, tarballs);
        assert(forall|i: int| 0 <= i < front.len() ==> front[i] == #[trigger] m[i]);
        if all.contains(version) {
            let k = choose|k: int| 0 <= k < all.len() && all[k] == version;
            if k < before.len() {
                assert(before[k] == version);
                assert(before.contains(version));
                let i = choose|i: int|
                    0 <= i < front.len() && (#[trigger] front[i]).0 == version
                        && !tarballs.contains(tarball_key(package, version));
                assert(m[i].0 == version);
            } else {
                assert(m[m.len() - 1].0 == version);
            }
        }
        if exists|i: int|
            0 <= i < m.len() && (#[trigger] m[i]).0 == version && !tarballs.contains(
                tarball_key(package, version),
            ) {
            let i = choose|i: int|
                0 <= i < m.len() && (#[trigger] m[i]).0 == version && !tarballs.contains(
                    tarball_key(package, version),
                );
            if i < front.len() {
                assert(front[i].0 == version);
                let k = choose|k: int| 0 <= k < before.len() && before[k] == version;
                assert(all[k] == version);
            } else {
                assert(all[before.len() as int] == version);
            }
        }
    }
}

/// Cleaning an npm document leaves it without phantom versions.
pub proof fn cleaned_npm_document_has_no_phantoms(
    doc: JsonTree,
    package: Seq<char>,
    tarballs: Set<Seq<char>>,
    phantoms: Seq<Seq<char>>,
)
    requires
        npm_found(doc, package, tarballs) == Some(phantoms),
    ensures
        npm_found(npm_cleaned(doc, phantoms), package, tarballs) == Some(Seq::<Seq<char>>::empty()),
{
    reveal_strlit("versions");
    reveal_strlit("time");
    assert("versions"@.len() != "time"@.len());
    let m = section(doc, "versions"@)->0;
    lemma_section_pruned(doc, "versions"@, phantoms, "versions"@);
    lemma_section_pruned(
        pruned(doc, "versions"@, phantoms),
        "time"@,
        phantoms,
        "versions"@,
    );
    let kept = without_names(m, phantoms);
    let left = npm_phantoms(kept, package, tarballs);
    if left.len() > 0 {
        let v = left[0];
        assert(left.contains(v));
        lemma_npm_phantoms(kept, package, tarballs, v);
        let i = choose|i: int|
            0 <= i < kept.len() && (#[trigger] kept[i]).0 == v && !tarballs.contains(
                tarball_key(package, v),
            );
        assert(kept.contains(kept[i]));
        lemma_without_names(m, phantoms, kept[i]);
        let j = choose|j: int| 0 <= j < m.len() && m[j] == kept[i];
        assert(m[j].0 == v);
        lemma_npm_phantoms(m, package, tarballs, v);
        assert(false);
    }
    assert(left =~= Seq::<Seq<char>>::empty());
}

/// A version whose tarball is in storage stays in the document.
pub proof fn stored_npm_versions_are_kept(
    doc: JsonTree,
    package: Seq<char>,
    tarballs: Set<Seq<char>>,
    phantoms: Seq<Seq<char>>,
    x: (Seq<char>, JsonTree),
)
    requires
        npm_found(doc, package, tarballs) == Some(phantoms),
        section(doc, "versions"@)->0.contains(x),
        tarballs.contains(tarball_key(package, x.0)),
    ensures
        section(npm_cleaned(doc, phantoms), "versions"@) matches Some(m) && m.contains(x),
{
    reveal_strlit("versions");
    reveal_strlit("time");
    assert("versions"@.len() != "time"@.len());
    let m = section(doc, "versions"@)->0;
    lemma_section_pruned(doc, "versions"@, phantoms, "versions"@);
    lemma_section_pruned(
        pruned(doc, "versions"@, phantoms),
        "time"@,
        phantoms,
        "versions"@,
    );
    lemma_npm_phantoms(m, package, tarballs, x.0);
    lemma_without_names(m, phantoms, x);
}

pub proof fn lemma_pypi_phantoms(
    m: Seq<(Seq<char>, JsonTree)>,
    package: Seq<char>,
    stored: Set<Seq<char>>,
    version: Seq<char>,
)
    ensures
        pypi_phantoms(m, package, stored).contains(version) <==> exists|i: int|
            0 <= i < m.len() && (#[trigger] m[i]).0 == version && is_phantom_release(
                m[i].1,
                package,
                stored,
            ),
    decreases m.len(),
{
    if m.len() > 0 {
        let front = m.drop_last();
        lemma_pypi_phantoms(front, package, stored, version);
        let before = pypi_phantoms(front, package, stored);
        let all = pypi_phantoms(m, package, stored);
        assert(forall|i: int| 0 <= i < front.len() ==> front[i] == #[trigger] m[i]);
        if all.contains(version) {
            let k = choose|k: int| 0 <= k < all.len() && all[k] == version;
            if k < before.len() {
                assert(before[k] == version);
                assert(before.contains(version));
                let i = choose|i: int|
                    0 <= i < front.len() && (#[trigger] front[i]).0 == version
                        && is_phantom_release(front[i].1, package, stored);
                assert(m[i].0 == version);
            } else {
                assert(m[m.len() - 1].0 == version);
            }
        }
        if exists|i: int|
            0 <= i < m.len() && (#[trigger] m[i]).0 == version && is_phantom_release(
                m[i].1,
                package,
                stored,
            ) {
            let i = choose|i: int|
                0 <= i < m.len() && (#[trigger] m[i]).0 == version && is_phantom_release(
                    m[i].1,
                    package,
                    stored,
                );
            if i < front.len() {
                assert(front[i].0 == version);
                let k = choose|k: int| 0 <= k < before.len() && before[k] == version;
                assert(all[k] == version);
            } else {
                assert(all[before.len() as int] == version);
            }
        }
    }
}

/// Cleaning a PyPI document leaves it without phantom releases.
pub proof fn cleaned_pypi_document_has_no_phantoms(
    doc: JsonTree,
    package: Seq<char>,
    stored: Set<Seq<char>>,
    phantoms: Seq<Seq<char>>,
)
    requires
        pypi_found(doc, package, stored) == Some(phantoms),
    ensures
        pypi_found(pypi_cleaned(doc, phantoms), package, stored) == Some(Seq::<Seq<char>>::empty()),
{
    let m = section(doc, "releases"@)->0;
    lemma_section_pruned(doc, "releases"@, phantoms, "releases"@);
    let kept = without_names(m, phantoms);
    let left = pypi_phantoms(kept, package, stored);
    if left.len() > 0 {
        let v = left[0];
        assert(left.contains(v));
        lemma_pypi_phantoms(kept, package, stored, v);
        let i = choose|i: int|
            0 <= i < kept.len() && (#[trigger] kept[i]).0 == v && is_phantom_release(
                kept[i].1,
                package,
                stored,
            );
        assert(kept.contains(kept[i]));
        lemma_without_names(m, phantoms, kept[i]);
        let j = choose|j: int| 0 <= j < m.len() && m[j] == kept[i];
        assert(m[j].0 == v && is_phantom_release(m[j].1, package, stored));
        lemma_pypi_phantoms(m, package, stored, v);
        assert(false);
    }
    assert(left =~= Seq::<Seq<char>>::empty());
}

/// A release that has a file in storage, or that lists none, stays in the
/// document, where no other release goes by its name.
pub proof fn stored_pypi_releases_are_kept(
    doc: JsonTree,
    package: Seq<char>,
    stored: Set<Seq<char>>,
    phantoms: Seq<Seq<char>>,
    x: (Seq<char>, JsonTree),
)
    requires
        pypi_found(doc, package, stored) == Some(phantoms),
        section(doc, "releases"@)->0.contains(x),
        !is_phantom_release(x.1, package, stored),
        forall|i: int|
            0 <= i < section(doc, "releases"@)->0.len() && (#[trigger] section(
                doc,
                "releases"@,
            )->0[i]).0 == x.0 ==> section(doc, "releases"@)->0[i] == x,
    ensures
        section(pypi_cleaned(doc, phantoms), "releases"@) matches Some(m) && m.contains(x),
{
    let m = section(doc, "releases"@)->0;
    lemma_section_pruned(doc, "releases"@, phantoms, "releases"@);
    lemma_pypi_phantoms(m, package, stored, x.0);
    lemma_without_names(m, phantoms, x);
}

} // verus!
