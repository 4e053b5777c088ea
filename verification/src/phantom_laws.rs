//! Which versions of npm and PyPI metadata are phantoms, told by what stands in
//! the documents and in storage, and what is left of the documents.

use vstd::prelude::*;

use crate::json::{self, JsonTree};
use crate::path;
use crate::phantoms::{self, MetadataCleanup};
use crate::text;

verus! {

/// The release lists a file whose key is in storage.
pub open spec fn lists_stored_file(
    files: Seq<JsonTree>,
    package: Seq<char>,
    stored: Set<Seq<char>>,
) -> bool {
    exists|i: int, name: Seq<char>|
        0 <= i < files.len() && #[trigger] json::text_member(files[i], "filename"@) == Some(name)
            && #[trigger] stored.contains("pypi/"@ + package + "/"@ + name)
}

/// A release that lists files is a phantom exactly where none of them, wherever
/// in the list it stands, is in storage. One that lists none is no phantom, and
/// one without a list is.
pub proof fn releases_are_phantoms_without_a_stored_file(
    releases: Seq<(Seq<char>, JsonTree)>,
    package: Seq<char>,
    stored: Set<Seq<char>>,
    r: int,
)
    requires
        0 <= r < releases.len(),
        forall|j: int|
            0 <= j < releases.len() && (#[trigger] releases[j]).0 == releases[r].0 ==> j == r,
    ensures
        releases[r].1 matches JsonTree::Array(files) ==> (phantoms::pypi_phantoms(
            releases,
            package,
            stored,
        ).contains(releases[r].0) <==> files.len() > 0 && !lists_stored_file(
            files,
            package,
            stored,
        )),
        !(releases[r].1 is Array) ==> phantoms::pypi_phantoms(releases, package, stored).contains(
            releases[r].0,
        ),
{
    let version = releases[r].0;
    phantoms::lemma_pypi_phantoms(releases, package, stored, version);
    if let JsonTree::Array(files) = releases[r].1 {
        if lists_stored_file(files, package, stored) {
            let (i, name) = choose|i: int, name: Seq<char>|
                0 <= i < files.len() && #[trigger] json::text_member(files[i], "filename"@) == Some(
                    name,
                ) && #[trigger] stored.contains("pypi/"@ + package + "/"@ + name);
            assert(phantoms::has_stored_file(files, package, stored)) by {
                assert(json::text_member(files[i], "filename"@) == Some(name));
            }
        }
        if phantoms::has_stored_file(files, package, stored) {
            let i = choose|i: int|
                0 <= i < files.len() && (json::text_member(#[trigger] files[i], "filename"@) matches Some(
                    name,
                ) && stored.contains("pypi/"@ + package + "/"@ + name));
            let name = json::text_member(files[i], "filename"@)->0;
            assert(stored.contains("pypi/"@ + package + "/"@ + name));
        }
    }
}

/// A release of which some listed file is in storage stays in the document as
/// it is.
pub proof fn releases_with_a_stored_file_stay(
    doc: JsonTree,
    package: Seq<char>,
    stored: Set<Seq<char>>,
    found: Seq<Seq<char>>,
    releases: Seq<(Seq<char>, JsonTree)>,
    r: int,
    files: Seq<JsonTree>,
    i: int,
    name: Seq<char>,
)
    requires
        json::member(doc, "releases"@) == Some(JsonTree::Object(releases)),
        phantoms::pypi_found(doc, package, stored) == Some(found),
        0 <= r < releases.len(),
        forall|j: int|
            0 <= j < releases.len() && (#[trigger] releases[j]).0 == releases[r].0 ==> j == r,
        releases[r].1 == JsonTree::Array(files),
        0 <= i < files.len(),
        json::text_member(files[i], "filename"@) == Some(name),
        stored.contains("pypi/"@ + package + "/"@ + name),
    ensures
        !found.contains(releases[r].0),
        json::member(phantoms::pypi_cleaned(doc, found), "releases"@) matches Some(
            JsonTree::Object(left),
        ) && left.contains(releases[r]),
{
    releases_are_phantoms_without_a_stored_file(releases, package, stored, r);
    assert(lists_stored_file(files, package, stored));
    phantoms::lemma_section_pruned(doc, "releases"@, found, "releases"@);
    phantoms::lemma_without_names(releases, found, releases[r]);
}

/// A release that lists files of which none is in storage is a phantom, and
/// goes from the document.
pub proof fn releases_without_a_stored_file_go(
    doc: JsonTree,
    package: Seq<char>,
    stored: Set<Seq<char>>,
    found: Seq<Seq<char>>,
    releases: Seq<(Seq<char>, JsonTree)>,
    r: int,
    files: Seq<JsonTree>,
)
    requires
        json::member(doc, "releases"@) == Some(JsonTree::Object(releases)),
        phantoms::pypi_found(doc, package, stored) == Some(found),
        0 <= r < releases.len(),
        forall|j: int|
            0 <= j < releases.len() && (#[trigger] releases[j]).0 == releases[r].0 ==> j == r,
        releases[r].1 == JsonTree::Array(files),
        files.len() > 0,
        forall|i: int, name: Seq<char>|
            0 <= i < files.len() && #[trigger] json::text_member(files[i], "filename"@) == Some(
                name,
            ) ==> !#[trigger] stored.contains("pypi/"@ + package + "/"@ + name),
    ensures
        found.contains(releases[r].0),
        json::member(phantoms::pypi_cleaned(doc, found), "releases"@) matches Some(
            JsonTree::Object(left),
        ) && forall|j: int| 0 <= j < left.len() ==> (#[trigger] left[j]).0 != releases[r].0,
{
    releases_are_phantoms_without_a_stored_file(releases, package, stored, r);
    phantoms::lemma_section_pruned(doc, "releases"@, found, "releases"@);
    let left = phantoms::without_names(releases, found);
    assert forall|j: int| 0 <= j < left.len() implies (#[trigger] left[j]).0 != releases[r].0 by {
        assert(left.contains(left[j]));
        phantoms::lemma_without_names(releases, found, left[j]);
    }
}

/// Cleaning a PyPI document changes nothing but its releases, of which it takes
/// out the phantoms and only those.
pub proof fn pypi_cleaning_touches_only_phantoms(
    doc: JsonTree,
    found: Seq<Seq<char>>,
    name: Seq<char>,
    x: (Seq<char>, JsonTree),
)
    ensures
        name != "releases"@ ==> json::member(phantoms::pypi_cleaned(doc, found), name)
            == json::member(doc, name),
        json::member(doc, "releases"@) matches Some(JsonTree::Object(m)) ==> (json::member(
            phantoms::pypi_cleaned(doc, found),
            "releases"@,
        ) matches Some(JsonTree::Object(left)) && (left.contains(x) <==> m.contains(x)
            && !found.contains(x.0))),
{
    if let JsonTree::Object(m) = doc {
        phantoms::lemma_named_pruned(m, "releases"@, found, name);
        phantoms::lemma_named_pruned(m, "releases"@, found, "releases"@);
    }
    if let Some(JsonTree::Object(m)) = json::member(doc, "releases"@) {
        phantoms::lemma_without_names(m, found, x);
    }
}

/// Phantoms are listed in the order of the document.
pub proof fn phantoms_stand_in_order(
    m: Seq<(Seq<char>, JsonTree)>,
    x: (Seq<char>, JsonTree),
    package: Seq<char>,
    stored: Set<Seq<char>>,
)
    ensures
        phantoms::pypi_phantoms(m.push(x), package, stored) == phantoms::pypi_phantoms(
            m,
            package,
            stored,
        ) + phantoms::pypi_phantoms(seq![x], package, stored),
        phantoms::npm_phantoms(m.push(x), package, stored) == phantoms::npm_phantoms(
            m,
            package,
            stored,
        ) + phantoms::npm_phantoms(seq![x], package, stored),
        phantoms::npm_phantoms(seq![x], package, stored).len() <= 1,
        phantoms::pypi_phantoms(seq![x], package, stored).len() <= 1,
{
    let none = Seq::<(Seq<char>, JsonTree)>::empty();
    assert(m.push(x).drop_last() =~= m);
    assert(seq![x].drop_last() =~= none);
    assert(phantoms::pypi_phantoms(none, package, stored) =~= Seq::<Seq<char>>::empty());
    assert(phantoms::npm_phantoms(none, package, stored) =~= Seq::<Seq<char>>::empty());
    assert(phantoms::pypi_phantoms(m.push(x), package, stored) =~= phantoms::pypi_phantoms(
        m,
        package,
        stored,
    ) + phantoms::pypi_phantoms(seq![x], package, stored));
    assert(phantoms::npm_phantoms(m.push(x), package, stored) =~= phantoms::npm_phantoms(
        m,
        package,
        stored,
    ) + phantoms::npm_phantoms(seq![x], package, stored));
}

/// A version of an npm package is a phantom exactly where its tarball is not in
/// storage. The tarball goes by the name of the package, or, under a scope, by
/// what follows the scope.
pub proof fn npm_versions_are_phantoms_without_their_tarball(
    versions: Seq<(Seq<char>, JsonTree)>,
    scope: Seq<char>,
    name: Seq<char>,
    tarballs: Set<Seq<char>>,
    v: int,
)
    requires
        0 <= v < versions.len(),
        !name.contains('/'),
    ensures
        phantoms::npm_phantoms(versions, name, tarballs).contains(versions[v].0)
            <==> !tarballs.contains(
            "npm/"@ + name + "/tarballs/"@ + name + "-"@ + versions[v].0 + ".tgz"@,
        ),
        phantoms::npm_phantoms(versions, scope + "/"@ + name, tarballs).contains(versions[v].0)
            <==> !tarballs.contains(
            "npm/"@ + (scope + "/"@ + name) + "/tarballs/"@ + name + "-"@ + versions[v].0 + ".tgz"@,
        ),
{
    path::file_names_come_off(scope, name);
    path::last_segments_come_off(scope, '/', name);
    phantoms::lemma_npm_phantoms(versions, name, tarballs, versions[v].0);
    phantoms::lemma_npm_phantoms(versions, scope + "/"@ + name, tarballs, versions[v].0);
}

/// Only versions that the document lists are phantoms.
pub proof fn phantoms_are_listed(
    m: Seq<(Seq<char>, JsonTree)>,
    package: Seq<char>,
    stored: Set<Seq<char>>,
    version: Seq<char>,
)
    ensures
        phantoms::npm_phantoms(m, package, stored).contains(version) ==> exists|i: int|
            0 <= i < m.len() && (#[trigger] m[i]).0 == version,
        phantoms::pypi_phantoms(m, package, stored).contains(version) ==> exists|i: int|
            0 <= i < m.len() && (#[trigger] m[i]).0 == version,
{
    phantoms::lemma_npm_phantoms(m, package, stored, version);
    phantoms::lemma_pypi_phantoms(m, package, stored, version);
}

/// Cleaning an npm document takes the phantoms, and only those, out of its
/// versions and out of its times, and changes nothing else.
pub proof fn npm_cleaning_touches_only_phantoms(
    doc: JsonTree,
    found: Seq<Seq<char>>,
    name: Seq<char>,
    x: (Seq<char>, JsonTree),
)
    ensures
        name != "versions"@ && name != "time"@ ==> json::member(
            phantoms::npm_cleaned(doc, found),
            name,
        ) == json::member(doc, name),
        json::member(doc, "versions"@) matches Some(JsonTree::Object(m)) ==> (json::member(
            phantoms::npm_cleaned(doc, found),
            "versions"@,
        ) matches Some(JsonTree::Object(left)) && (left.contains(x) <==> m.contains(x)
            && !found.contains(x.0))),
        json::member(doc, "time"@) matches Some(JsonTree::Object(m)) ==> (json::member(
            phantoms::npm_cleaned(doc, found),
            "time"@,
        ) matches Some(JsonTree::Object(left)) && (left.contains(x) <==> m.contains(x)
            && !found.contains(x.0))),
{
    reveal_strlit("versions");
    reveal_strlit("time");
    assert("versions"@.len() != "time"@.len());
    if let JsonTree::Object(m) = doc {
        let p = phantoms::pruned_members(m, "versions"@, found);
        phantoms::lemma_named_pruned(m, "versions"@, found, name);
        phantoms::lemma_named_pruned(m, "versions"@, found, "versions"@);
        phantoms::lemma_named_pruned(m, "versions"@, found, "time"@);
        phantoms::lemma_named_pruned(p, "time"@, found, name);
        phantoms::lemma_named_pruned(p, "time"@, found, "versions"@);
        phantoms::lemma_named_pruned(p, "time"@, found, "time"@);
    }
    if let Some(JsonTree::Object(m)) = json::member(doc, "versions"@) {
        phantoms::lemma_without_names(m, found, x);
    }
    if let Some(JsonTree::Object(m)) = json::member(doc, "time"@) {
        phantoms::lemma_without_names(m, found, x);
    }
}

/// A document without versions, or without releases, is none to clean.
pub proof fn documents_without_a_listing_are_left(
    doc: JsonTree,
    package: Seq<char>,
    stored: Set<Seq<char>>,
)
    ensures
        phantoms::npm_found(doc, package, stored) is Some <==> (json::member(
            doc,
            "versions"@,
        ) matches Some(m) && m is Object),
        phantoms::pypi_found(doc, package, stored) is Some <==> (json::member(
            doc,
            "releases"@,
        ) matches Some(m) && m is Object),
        phantoms::npm_found(doc, package, stored) matches Some(found) ==> (json::member(
            doc,
            "versions"@,
        ) matches Some(JsonTree::Object(m)) && found == phantoms::npm_phantoms(m, package, stored)),
        phantoms::pypi_found(doc, package, stored) matches Some(found) ==> (json::member(
            doc,
            "releases"@,
        ) matches Some(JsonTree::Object(m)) && found == phantoms::pypi_phantoms(
            m,
            package,
            stored,
        )),
{
}

/// For each phantom of an npm package its per-version document is deleted.
pub proof fn version_documents_go_with_their_versions(
    package: Seq<char>,
    versions: Seq<Seq<char>>,
    i: int,
)
    requires
        0 <= i < versions.len(),
    ensures
        phantoms::version_keys(package, versions).len() == versions.len(),
        phantoms::version_keys(package, versions)[i] == "npm/"@ + package + "/versions/"@
            + versions[i] + ".json"@,
{
}

/// The metadata of a package lies directly under it, and is the metadata of
/// that package.
pub proof fn metadata_lies_under_its_package(package: Seq<char>)
    ensures
        phantoms::is_metadata("npm/"@ + package + "/metadata.json"@),
        phantoms::is_metadata("pypi/"@ + package + "/metadata.json"@),
        phantoms::package_of("npm/"@ + package + "/metadata.json"@, "npm/"@) == Some(package),
        phantoms::package_of("pypi/"@ + package + "/metadata.json"@, "pypi/"@) == Some(package),
{
    let m = "/metadata.json"@;
    path::endings_ignore_case("npm/"@ + package, m, m);
    path::endings_ignore_case("pypi/"@ + package, m, m);
    assert("npm/"@ + package + m =~= "npm/"@ + (package + m));
    assert("pypi/"@ + package + m =~= "pypi/"@ + (package + m));
    path::prefixes_come_off("npm/"@, package + m);
    path::prefixes_come_off("pypi/"@, package + m);
    path::suffixes_come_off(package, m);
}

/// Keys are metadata, tarballs and package files by their shape alone.
pub proof fn artifacts_go_by_their_shape(key: Seq<char>)
    ensures
        phantoms::is_metadata(key) <==> exists|stem: Seq<char>, e: Seq<char>|
            key == #[trigger] (stem + e) && path::same_letters(e, "/metadata.json"@),
        phantoms::is_tarball(key) <==> !phantoms::is_metadata(key) && exists|
            a: Seq<char>,
            b: Seq<char>,
        | key == #[trigger] (a + "/tarballs/"@ + b),
        phantoms::is_package_file(key) <==> !phantoms::is_metadata(key) && !text::ends_ci(
            key,
            ".md5"@,
        ) && !text::ends_ci(key, ".sha1"@) && !text::ends_ci(key, ".sha256"@) && !text::ends_ci(
            key,
            ".sha512"@,
        ),
{
    path::texts_end_with_their_ends(key, "/metadata.json"@);
    path::contained_texts_stand_between(key, "/tarballs/"@);
}

/// A metadata file counts with all its phantoms where it was rewritten or the
/// run is dry, and not at all otherwise.
pub proof fn rewritten_files_count(seen: Seq<(usize, bool)>, n: usize, rewritten: bool, dry: bool)
    ensures
        phantoms::cleaned_count(Seq::empty(), dry) == 0,
        phantoms::cleaned_count(seen.push((n, rewritten)), dry) == phantoms::cleaned_count(seen, dry)
            + (if dry || rewritten {
            n as int
        } else {
            0
        }),
{
    assert(seen.push((n, rewritten)).drop_last() =~= seen);
}

/// A dry run, and a document without phantoms, change nothing. Else the keys are
/// deleted and the bytes of the cleaned document take the place of the old. The
/// phantoms are counted in any case.
pub proof fn cleanups_rewrite_only_documents_with_phantoms(
    c: MetadataCleanup,
    found: Seq<Seq<char>>,
    deletions: Seq<Seq<char>>,
    cleaned: JsonTree,
    dry: bool,
)
    requires
        phantoms::is_cleanup(c, found, deletions, cleaned, dry),
    ensures
        c.removed == found.len(),
        dry || found.len() == 0 ==> c.delete@.len() == 0 && c.rewrite is None,
        !dry && found.len() > 0 ==> text::texts(c.delete@) == deletions,
        !dry && found.len() > 0 ==> (match json::rendered(cleaned) {
            Some(bytes) => c.rewrite matches Some(b) && b@ == bytes,
            None => c.rewrite is None,
        }),
{
}

} // verus!
