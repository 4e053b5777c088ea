//! What proxy-cache eviction may take and what it may not, told by the shape of
//! the keys.

use vstd::prelude::*;

use crate::order;
use crate::path;
use crate::proxy_cache::{self, Cached};
use crate::sidecar::{self, Format};
use crate::table::FileMeta;
use crate::text;

verus! {

/// The index files of a deb repository, in whatever directory, are index
/// files.
pub proof fn deb_indexes_are_index_files(dir: Seq<char>)
    ensures
        proxy_cache::is_index(dir + "/"@ + "Packages"@),
        proxy_cache::is_index(dir + "/"@ + "Packages.gz"@),
        proxy_cache::is_index(dir + "/"@ + "Packages.bz2"@),
        proxy_cache::is_index(dir + "/"@ + "Packages.xz"@),
        proxy_cache::is_index(dir + "/"@ + "Release"@),
        proxy_cache::is_index(dir + "/"@ + "Release.gpg"@),
        proxy_cache::is_index(dir + "/"@ + "InRelease"@),
{
    reveal_strlit("Packages");
    reveal_strlit("Packages.gz");
    reveal_strlit("Packages.bz2");
    reveal_strlit("Packages.xz");
    reveal_strlit("Release");
    reveal_strlit("Release.gpg");
    reveal_strlit("InRelease");
    path::file_names_come_off(dir, "Packages"@);
    path::file_names_come_off(dir, "Packages.gz"@);
    path::file_names_come_off(dir, "Packages.bz2"@);
    path::file_names_come_off(dir, "Packages.xz"@);
    path::file_names_come_off(dir, "Release"@);
    path::file_names_come_off(dir, "Release.gpg"@);
    path::file_names_come_off(dir, "InRelease"@);
}

/// Whatever lies under `repodata` is an index file.
pub proof fn repodata_files_are_index_files(dir: Seq<char>, name: Seq<char>)
    ensures
        proxy_cache::is_index(dir + "/repodata/"@ + name),
{
    path::lemma_stands_between(dir, "/repodata/"@, name);
}

/// A file outside `repodata` by another name is no index file.
pub proof fn other_files_are_no_index_files(dir: Seq<char>, name: Seq<char>)
    requires
        !name.contains('/'),
        !text::has(dir + "/"@ + name, "/repodata/"@),
        name != "Packages"@,
        name != "Packages.gz"@,
        name != "Packages.bz2"@,
        name != "Packages.xz"@,
        name != "Release"@,
        name != "Release.gpg"@,
        name != "InRelease"@,
    ensures
        !proxy_cache::is_index(dir + "/"@ + name),
{
    path::file_names_come_off(dir, name);
}

/// No index file of a deb repository, and nothing under `repodata`, is
/// evicted.
pub proof fn index_files_are_never_evicted(
    rpm: Seq<(Seq<char>, FileMeta)>,
    deb: Seq<(Seq<char>, FileMeta)>,
    max_bytes: u64,
    i: int,
    dir: Seq<char>,
    name: Seq<char>,
)
    requires
        0 <= i < proxy_cache::evicted(proxy_cache::all_proxy_files(rpm, deb), max_bytes).len(),
    ensures
        ({
            let key = proxy_cache::evicted(
                proxy_cache::all_proxy_files(rpm, deb),
                max_bytes,
            )[i].key;
            &&& key != dir + "/"@ + "Packages"@
            &&& key != dir + "/"@ + "Packages.gz"@
            &&& key != dir + "/"@ + "Packages.bz2"@
            &&& key != dir + "/"@ + "Packages.xz"@
            &&& key != dir + "/"@ + "Release"@
            &&& key != dir + "/"@ + "Release.gpg"@
            &&& key != dir + "/"@ + "InRelease"@
            &&& key != dir + "/repodata/"@ + name
            &&& key != dir + "/.nora-meta/"@ + name
        }),
{
    proxy_cache::hosted_and_index_files_stay(rpm, deb, max_bytes, i);
    deb_indexes_are_index_files(dir);
    repodata_files_are_index_files(dir, name);
    path::lemma_stands_between(dir, "/.nora-meta/"@, name);
}

/// A sidecar lies in its repository under the path of its package, and stands
/// for that package.
pub proof fn sidecars_stand_for_their_packages(repo: Seq<char>, file: Seq<char>)
    requires
        !text::has(repo + "/"@, "/.nora-meta/"@),
    ensures
        sidecar::sidecar_target(Format::Rpm, "rpm/"@ + repo + "/.nora-meta/"@ + file + ".json"@)
            == Some((repo, file)),
        sidecar::sidecar_target(Format::Deb, "deb/"@ + repo + "/.nora-meta/"@ + file + ".json"@)
            == Some((repo, file)),
{
    reveal_strlit("/.nora-meta/");
    reveal_strlit("rpm");
    reveal_strlit("rpm/");
    reveal_strlit("deb");
    reveal_strlit("deb/");
    reveal_strlit("/");
    assert("rpm"@ + "/"@ =~= "rpm/"@);
    assert("deb"@ + "/"@ =~= "deb/"@);
    lemma_sidecar_key("rpm/"@, repo, file);
    lemma_sidecar_key("deb/"@, repo, file);
    path::suffixes_come_off(file, ".json"@);
}

proof fn lemma_sidecar_key(p: Seq<char>, repo: Seq<char>, file: Seq<char>)
    requires
        !text::has(repo + "/"@, "/.nora-meta/"@),
    ensures
        text::without_prefix(p + repo + "/.nora-meta/"@ + file + ".json"@, p) == Some(
            repo + "/.nora-meta/"@ + (file + ".json"@),
        ),
        text::halves(repo + "/.nora-meta/"@ + (file + ".json"@), "/.nora-meta/"@) == Some(
            (repo, file + ".json"@),
        ),
{
    reveal_strlit("/.nora-meta/");
    let rest = repo + "/.nora-meta/"@ + (file + ".json"@);
    assert(p + repo + "/.nora-meta/"@ + file + ".json"@ =~= p + rest);
    path::prefixes_come_off(p, rest);
    path::directories_come_apart(repo, "/.nora-meta/"@, file + ".json"@);
}

/// Only such keys are sidecars.
pub proof fn only_sidecars_stand_for_packages(format: Format, key: Seq<char>)
    ensures
        sidecar::sidecar_target(format, key) matches Some((repo, file)) ==> (format == Format::Rpm
            ==> key == "rpm/"@ + repo + "/.nora-meta/"@ + file + ".json"@) && (format == Format::Deb
            ==> key == "deb/"@ + repo + "/.nora-meta/"@ + file + ".json"@),
{
    reveal_strlit("rpm");
    reveal_strlit("rpm/");
    reveal_strlit("deb");
    reveal_strlit("deb/");
    reveal_strlit("/");
    assert("rpm"@ + "/"@ =~= "rpm/"@);
    assert("deb"@ + "/"@ =~= "deb/"@);
    let p = sidecar::format_name(format) + "/"@;
    if let Some((repo, file)) = sidecar::sidecar_target(format, key) {
        path::prefixed_texts_are_put_together(key, p);
        let rest = text::without_prefix(key, p)->0;
        path::halves_stand_around_the_first(rest, "/.nora-meta/"@);
        let (a, b) = text::halves(rest, "/.nora-meta/"@)->0;
        path::suffixed_texts_are_put_together(b, ".json"@);
        assert(p + (repo + "/.nora-meta/"@ + (file + ".json"@)) =~= p + repo + "/.nora-meta/"@ + file
            + ".json"@);
    }
}

/// A package is described exactly where one of the listed keys is its sidecar.
pub proof fn described_packages_have_a_sidecar(
    format: Format,
    entries: Seq<(Seq<char>, FileMeta)>,
    x: Seq<char>,
)
    ensures
        proxy_cache::covered(format, entries).contains(x) <==> exists|k: int|
            0 <= k < entries.len() && (sidecar::sidecar_target(
                format,
                (#[trigger] entries[k]).0,
            ) matches Some((repo, file)) && x == sidecar::format_name(format) + "/"@ + repo + "/"@
                + file),
    decreases entries.len(),
{
    if entries.len() > 0 {
        let front = entries.drop_last();
        let n = entries.len() - 1;
        described_packages_have_a_sidecar(format, front, x);
        assert(forall|i: int| 0 <= i < front.len() ==> front[i] == #[trigger] entries[i]);
        assert(entries[n] == entries.last());
        let head = sidecar::format_name(format) + "/"@;
        if proxy_cache::covered(format, front).contains(x) {
            let k = choose|k: int|
                0 <= k < front.len() && (sidecar::sidecar_target(
                    format,
                    (#[trigger] front[k]).0,
                ) matches Some((repo, file)) && x == head + repo + "/"@ + file);
            assert(entries[k] == front[k]);
        }
        if exists|k: int|
            0 <= k < entries.len() && (sidecar::sidecar_target(
                format,
                (#[trigger] entries[k]).0,
            ) matches Some((repo, file)) && x == head + repo + "/"@ + file) {
            let k = choose|k: int|
                0 <= k < entries.len() && (sidecar::sidecar_target(
                    format,
                    (#[trigger] entries[k]).0,
                ) matches Some((repo, file)) && x == head + repo + "/"@ + file);
            if k < n {
                assert(entries[k] == front[k]);
            }
        }
    }
}

/// A package with a sidecar in the listing is never evicted.
pub proof fn hosted_packages_are_never_evicted(
    rpm: Seq<(Seq<char>, FileMeta)>,
    deb: Seq<(Seq<char>, FileMeta)>,
    max_bytes: u64,
    i: int,
    k: int,
    repo: Seq<char>,
    file: Seq<char>,
)
    requires
        0 <= i < proxy_cache::evicted(proxy_cache::all_proxy_files(rpm, deb), max_bytes).len(),
        !text::has(repo + "/"@, "/.nora-meta/"@),
    ensures
        0 <= k < rpm.len() && rpm[k].0 == "rpm/"@ + repo + "/.nora-meta/"@ + file + ".json"@
            ==> proxy_cache::evicted(proxy_cache::all_proxy_files(rpm, deb), max_bytes)[i].key
            != "rpm/"@ + repo + "/"@ + file,
        0 <= k < deb.len() && deb[k].0 == "deb/"@ + repo + "/.nora-meta/"@ + file + ".json"@ && (
        forall|j: int| 0 <= j < rpm.len() ==> "rpm/"@.is_prefix_of((#[trigger] rpm[j]).0))
            ==> proxy_cache::evicted(proxy_cache::all_proxy_files(rpm, deb), max_bytes)[i].key
            != "deb/"@ + repo + "/"@ + file,
{
    reveal_strlit("rpm");
    reveal_strlit("rpm/");
    reveal_strlit("deb");
    reveal_strlit("deb/");
    reveal_strlit("/");
    assert("rpm"@ + "/"@ =~= "rpm/"@);
    assert("deb"@ + "/"@ =~= "deb/"@);
    sidecars_stand_for_their_packages(repo, file);
    if 0 <= k < rpm.len() && rpm[k].0 == "rpm/"@ + repo + "/.nora-meta/"@ + file + ".json"@ {
        proxy_cache::hosted_and_index_files_stay(rpm, deb, max_bytes, i);
        assert(sidecar::sidecar_target(Format::Rpm, rpm[k].0) == Some((repo, file)));
        described_packages_have_a_sidecar(Format::Rpm, rpm, "rpm/"@ + repo + "/"@ + file);
    }
    if 0 <= k < deb.len() && deb[k].0 == "deb/"@ + repo + "/.nora-meta/"@ + file + ".json"@ && (
    forall|j: int| 0 <= j < rpm.len() ==> "rpm/"@.is_prefix_of((#[trigger] rpm[j]).0)) {
        proxy_cache::hosted_deb_packages_stay(rpm, deb, max_bytes, i);
        assert(sidecar::sidecar_target(Format::Deb, deb[k].0) == Some((repo, file)));
        described_packages_have_a_sidecar(Format::Deb, deb, "deb/"@ + repo + "/"@ + file);
    }
}

/// A listed file counts as cached, with its size and time, exactly where it is
/// no sidecar, no index file and not described.
pub proof fn cached_files_are_the_rest(
    entries: Seq<(Seq<char>, FileMeta)>,
    hosted: Set<Seq<char>>,
    key: Seq<char>,
    meta: FileMeta,
)
    ensures
        proxy_cache::proxy_files(Seq::empty(), hosted).len() == 0,
        proxy_cache::proxy_files(entries.push((key, meta)), hosted) == (if text::has(
            key,
            "/.nora-meta/"@,
        ) || proxy_cache::is_index(key) || hosted.contains(key) {
            proxy_cache::proxy_files(entries, hosted)
        } else {
            proxy_cache::proxy_files(entries, hosted).push(
                Cached { key, size: meta.size, modified: meta.modified },
            )
        }),
{
    assert(entries.push((key, meta)).drop_last() =~= entries);
}

/// Files are counted by their size.
pub proof fn cached_bytes_add_up(files: Seq<Cached>, f: Cached)
    ensures
        proxy_cache::bytes(Seq::empty()) == 0,
        proxy_cache::bytes(files.push(f)) == proxy_cache::bytes(files) + f.size,
{
    assert(files.push(f).drop_last() =~= files);
}

/// Of the files of both formats each counts, those that deb sidecars describe
/// excepted for deb only.
pub proof fn both_formats_are_cached(
    rpm: Seq<(Seq<char>, FileMeta)>,
    deb: Seq<(Seq<char>, FileMeta)>,
)
    ensures
        proxy_cache::all_proxy_files(rpm, deb) == proxy_cache::proxy_files(
            rpm,
            proxy_cache::covered(Format::Rpm, rpm),
        ) + proxy_cache::proxy_files(
            deb,
            proxy_cache::covered(Format::Rpm, rpm).union(proxy_cache::covered(Format::Deb, deb)),
        ),
{
}

/// Every file that goes is a cached one that is there.
pub proof fn only_cached_files_go(files: Seq<Cached>, max_bytes: u64, i: int)
    requires
        0 <= i < proxy_cache::evicted(files, max_bytes).len(),
    ensures
        files.contains(proxy_cache::evicted(files, max_bytes)[i]),
        max_bytes > 0,
        proxy_cache::bytes(files) > max_bytes,
{
    proxy_cache::lemma_older();
    let sorted = proxy_cache::oldest_first(files);
    proxy_cache::lemma_bytes_sorted(files);
    proxy_cache::lemma_victims(sorted, proxy_cache::bytes(files) - max_bytes);
    let f = proxy_cache::evicted(files, max_bytes)[i];
    assert(sorted[i] == f);
    assert(sorted.contains(f));
    order::lemma_sorted_members(files, proxy_cache::older(), f);
}

/// A file counts as gone where it was deleted, or the run is dry.
pub proof fn gone_files_are_those_deleted(
    seen: Seq<(Cached, bool)>,
    f: Cached,
    deleted: bool,
    dry: bool,
)
    ensures
        proxy_cache::gone(Seq::empty(), dry).len() == 0,
        proxy_cache::gone(seen.push((f, deleted)), dry) == (if dry || deleted {
            proxy_cache::gone(seen, dry).push(f)
        } else {
            proxy_cache::gone(seen, dry)
        }),
{
    assert(seen.push((f, deleted)).drop_last() =~= seen);
}

} // verus!
