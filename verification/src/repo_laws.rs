//! How a hosted rpm repository answers requests, lays out its files and rebuilds
//! itself, case by case.

use vstd::prelude::*;

use crate::cleanup::{self, Ended, Phase};
use crate::digest;
use crate::grouping;
use crate::order;
use crate::path;
use crate::reindex::{self, RebuildStep, ReindexStep};
use crate::repodata::{self, Document};
use crate::repomd::{self, MetaFile};
use crate::rpm_package;
use crate::rpm_record::{self, Pkg};
use crate::rpm_repo::{self, Access, Answer, Route, Step, StepOutcome};
use crate::text;

verus! {

/// A compressed document goes by its own digest and its kind, and gives digest
/// and size of itself and of the document.
pub proof fn documents_are_named_by_their_digest(kind: Seq<char>, doc: Seq<char>)
    ensures
        ({
            let open = vstd::utf8::encode_utf8(doc);
            let gz = digest::gzipped(open);
            let f = repomd::compressed(kind, doc);
            &&& f.kind == kind
            &&& f.gz == gz
            &&& f.checksum == digest::hex_text(digest::sha256(gz))
            &&& f.open_checksum == digest::hex_text(digest::sha256(open))
            &&& f.size == gz.len()
            &&& f.open_size == open.len()
            &&& f.href == "repodata/"@ + digest::hex_text(digest::sha256(gz)) + "-"@ + kind
                + ".xml.gz"@
        }),
{
}

/// The three documents are made over the sorted packages, in this order.
pub proof fn three_documents_are_made(pkgs: Seq<Pkg>)
    ensures
        repomd::repodata_files(pkgs).len() == 3,
        repomd::repodata_files(pkgs)[0] == repomd::compressed(
            "primary"@,
            repodata::document(Document::Primary, repomd::sorted_pkgs(pkgs)),
        ),
        repomd::repodata_files(pkgs)[1] == repomd::compressed(
            "filelists"@,
            repodata::document(Document::Filelists, repomd::sorted_pkgs(pkgs)),
        ),
        repomd::repodata_files(pkgs)[2] == repomd::compressed(
            "other"@,
            repodata::document(Document::Other, repomd::sorted_pkgs(pkgs)),
        ),
{
    reveal(repomd::repodata_file);
}

/// Packages are sorted by name, then epoch, then version, release and
/// architecture, and none is lost or added.
pub proof fn packages_are_sorted(pkgs: Seq<Pkg>, i: int, j: int)
    requires
        0 <= i < j < pkgs.len(),
    ensures
        repomd::sorted_pkgs(pkgs).to_multiset() == pkgs.to_multiset(),
        repomd::sorted_pkgs(pkgs).len() == pkgs.len(),
        ({
            let a = repomd::sorted_pkgs(pkgs)[i];
            let b = repomd::sorted_pkgs(pkgs)[j];
            &&& a.name != b.name ==> text::text_le(a.name, b.name)
            &&& a.name == b.name && a.epoch != b.epoch ==> a.epoch < b.epoch
            &&& a.name == b.name && a.epoch == b.epoch && a.version != b.version ==> text::text_le(
                a.version,
                b.version,
            )
            &&& a.name == b.name && a.epoch == b.epoch && a.version == b.version && a.release
                != b.release ==> text::text_le(a.release, b.release)
            &&& a.name == b.name && a.epoch == b.epoch && a.version == b.version && a.release
                == b.release ==> text::text_le(a.arch, b.arch)
        }),
{
    repomd::pkg_order_is_an_order();
    order::lemma_sorted_by(pkgs, repomd::pkg_order());
    let s = repomd::sorted_pkgs(pkgs);
    assert(repomd::pkg_order()(s[i], s[j]));
}

/// An entry of `repomd.xml` gives kind, digests, place, time and sizes of a
/// document, each in its element.
pub proof fn repomd_entries_are_written(f: MetaFile, files: Seq<MetaFile>, revision: u64)
    ensures
        repomd::repomd_entry(f, revision) == "  <data type=\""@ + f.kind
            + "\">\n    <checksum type=\"sha256\">"@ + f.checksum
            + "</checksum>\n    <open-checksum type=\"sha256\">"@ + f.open_checksum
            + "</open-checksum>\n    <location href=\""@ + f.href + "\"/>\n    <timestamp>"@
            + text::decimal(revision as nat) + "</timestamp>\n    <size>"@ + text::decimal(f.size)
            + "</size>\n    <open-size>"@ + text::decimal(f.open_size)
            + "</open-size>\n  </data>\n"@,
        repomd::repomd_entries(Seq::empty(), revision).len() == 0,
        repomd::repomd_entries(files.push(f), revision) == repomd::repomd_entries(files, revision)
            + repomd::repomd_entry(f, revision),
        repomd::repomd(files, revision)
            == "<?xml version=\"1.0\" encoding=\"UTF-8\"?>\n<repomd xmlns=\"http://linux.duke.edu/metadata/repo\" xmlns:rpm=\"http://linux.duke.edu/metadata/rpm\">\n  <revision>"@
            + text::decimal(revision as nat) + "</revision>\n"@ + repomd::repomd_entries(
            files,
            revision,
        ) + "</repomd>\n"@,
{
    assert(files.push(f).drop_last() =~= files);
}

/// The files of a repository lie at these keys.
pub proof fn repository_files_lie_here(repo: Seq<char>, file: Seq<char>, f: MetaFile)
    ensures
        rpm_repo::package_path(repo, file) == "rpm/"@ + repo + "/"@ + file,
        rpm_repo::sidecar_path(repo, file) == "rpm/"@ + repo + "/.nora-meta/"@ + file + ".json"@,
        repomd::repomd_path(repo) == "rpm/"@ + repo + "/repodata/repomd.xml"@,
        repomd::file_path(repo, f) == "rpm/"@ + repo + "/"@ + f.href,
        rpm_repo::repo_prefix(repo) == "rpm/"@ + repo + "/"@,
{
}

/// A key is of an earlier generation exactly where it ends neither in
/// `repomd.xml` nor in `repomd.xml.asc` and is none of the current documents.
pub proof fn earlier_generations_are_stale(
    key: Seq<char>,
    repo: Seq<char>,
    files: Seq<MetaFile>,
    dir: Seq<char>,
)
    ensures
        !repomd::is_stale(dir + "repomd.xml"@, repo, files),
        !repomd::is_stale(dir + "repomd.xml.asc"@, repo, files),
        repomd::is_stale(key, repo, files) <==> {
            &&& !exists|d: Seq<char>| key == #[trigger] (d + "repomd.xml"@)
            &&& !exists|d: Seq<char>| key == #[trigger] (d + "repomd.xml.asc"@)
            &&& forall|i: int|
                0 <= i < files.len() ==> key != "rpm/"@ + repo + "/"@ + (#[trigger] files[i]).href
        },
{
    path::suffixes_come_off(dir, "repomd.xml"@);
    path::suffixes_come_off(dir, "repomd.xml.asc"@);
    path::suffixed_texts_are_put_together(key, "repomd.xml"@);
    path::suffixed_texts_are_put_together(key, "repomd.xml.asc"@);
    let paths = repomd::file_paths(repo, files);
    assert forall|i: int| 0 <= i < files.len() implies #[trigger] paths[i] == "rpm/"@ + repo + "/"@
        + files[i].href by {}
    if paths.contains(key) {
        let i = choose|i: int| 0 <= i < paths.len() && paths[i] == key;
        assert(key == "rpm/"@ + repo + "/"@ + files[i].href);
    } else {
        assert forall|i: int| 0 <= i < files.len() implies key != "rpm/"@ + repo + "/"@ + (
        #[trigger] files[i]).href by {
            assert(paths[i] != key);
        }
    }
    if text::without_suffix(key, "repomd.xml"@) is Some {
        let d = text::without_suffix(key, "repomd.xml"@)->0;
        assert(key == d + "repomd.xml"@);
    }
    if text::without_suffix(key, "repomd.xml.asc"@) is Some {
        let d = text::without_suffix(key, "repomd.xml.asc"@)->0;
        assert(key == d + "repomd.xml.asc"@);
    }
}

/// A repository name is one visible segment in ASCII.
pub proof fn repository_names_are_single_segments(repo: Seq<char>)
    ensures
        rpm_repo::repo_ok(repo) <==> {
            &&& repo.len() > 0
            &&& repo[0] != '.'
            &&& !repo.contains('/')
            &&& vstd::utf8::is_ascii_chars(repo)
        },
{
    reveal_strlit("/");
    reveal_strlit(".");
    path::contained_texts_stand_between(repo, "/"@);
    if text::has(repo, "/"@) {
        let (a, b) = choose|a: Seq<char>, b: Seq<char>| repo == #[trigger] (a + "/"@ + b);
        assert(repo[a.len() as int] == '/');
    }
    if repo.contains('/') {
        let i = choose|i: int| 0 <= i < repo.len() && repo[i] == '/';
        assert(repo =~= repo.subrange(0, i) + "/"@ + repo.subrange(i + 1, repo.len() as int));
    }
    if repo.len() > 0 {
        assert(repo.subrange(0, 1) =~= seq![repo[0]]);
        assert("."@ =~= seq!['.']);
        if "."@.is_prefix_of(repo) {
            assert(repo.subrange(0, 1)[0] == '.');
        }
    }
}

/// A path has a bad segment exactly where one of the segments that it is joined
/// from is empty or starts with a dot.
pub proof fn bad_segments_are_empty_or_hidden(parts: Seq<Seq<char>>)
    requires
        parts.len() > 0,
        forall|i: int| 0 <= i < parts.len() ==> !(#[trigger] parts[i]).contains('/'),
    ensures
        rpm_repo::has_bad_segment(text::joined(parts, seq!['/'])) <==> exists|i: int|
            0 <= i < parts.len() && ((#[trigger] parts[i]).len() == 0 || parts[i][0] == '.'),
{
    reveal_strlit(".");
    path::joined_texts_come_apart(parts, '/');
    assert("."@ =~= seq!['.']);
    assert forall|i: int| 0 <= i < parts.len() && (#[trigger] parts[i]).len() > 0 implies (
    "."@.is_prefix_of(parts[i]) <==> parts[i][0] == '.') by {
        assert(parts[i].subrange(0, 1) =~= seq![parts[i][0]]);
        if "."@.is_prefix_of(parts[i]) {
            assert(parts[i].subrange(0, 1)[0] == '.');
        }
    }
}

/// A package path is refused, in this order, for its repository, for characters
/// or steps that no path may have, for not ending in `.rpm`, for a bad segment,
/// and for lying in `repodata`; otherwise it is accepted.
pub proof fn paths_are_refused_in_order(repo: Seq<char>, file: Seq<char>)
    ensures
        ({
            let foul = !vstd::utf8::is_ascii_chars(file) || text::has(file, ".."@) || text::has(
                file,
                "\0"@,
            ) || "/"@.is_prefix_of(file);
            let rpm = text::ends_ci(file, ".rpm"@);
            let bad = rpm_repo::has_bad_segment(file);
            let generated = "repodata/"@.is_prefix_of(file);
            let e = rpm_repo::path_error(repo, file);
            &&& !rpm_repo::repo_ok(repo) ==> e == Some("Invalid repository name"@)
            &&& rpm_repo::repo_ok(repo) && foul ==> e == Some("Invalid path"@)
            &&& rpm_repo::repo_ok(repo) && !foul && !rpm ==> e == Some(
                "Only .rpm files can be published"@,
            )
            &&& rpm_repo::repo_ok(repo) && !foul && rpm && bad ==> e == Some("Invalid path"@)
            &&& rpm_repo::repo_ok(repo) && !foul && rpm && !bad && generated ==> e == Some(
                "repodata/ is server-generated"@,
            )
            &&& rpm_repo::repo_ok(repo) && !foul && rpm && !bad && !generated ==> e is None
        }),
{
}

/// Paths have the media type of their ending.
pub proof fn media_types_go_by_the_ending(stem: Seq<char>, file: Seq<char>)
    ensures
        rpm_repo::media_type(stem + ".rpm"@) == "application/x-rpm"@,
        rpm_repo::media_type(stem + ".xml"@) == "application/xml"@,
        rpm_repo::media_type(stem + ".xml.gz"@) == "application/gzip"@,
        !".rpm"@.is_suffix_of(file) && !".xml"@.is_suffix_of(file) && !".xml.gz"@.is_suffix_of(file)
            ==> rpm_repo::media_type(file) == "application/octet-stream"@,
{
    reveal_strlit(".rpm");
    reveal_strlit(".xml");
    reveal_strlit(".xml.gz");
    path::suffixes_come_off(stem, ".rpm"@);
    path::suffixes_come_off(stem, ".xml"@);
    path::suffixes_come_off(stem, ".xml.gz"@);
    path::other_suffixes_stay(stem, ".xml"@, ".rpm"@);
    path::other_suffixes_stay(stem, ".xml.gz"@, ".rpm"@);
    path::other_suffixes_stay(stem, ".xml.gz"@, ".xml"@);
}

/// A change is refused, in this order, where the registry is disabled, the
/// repository is a proxy, the path is wrong, or the caller may not; otherwise it
/// is not.
pub proof fn changes_are_refused_in_order(access: Access, repo: Seq<char>, file: Seq<char>)
    ensures
        ({
            let r = rpm_repo::change_refusal(access, repo, file);
            let e = rpm_repo::path_error(repo, file);
            &&& !access.enabled ==> r == Some(Answer::NotFound)
            &&& access.enabled && access.proxied ==> r == Some(Answer::ProxiedConflict)
            &&& access.enabled && !access.proxied && e is Some ==> r == Some(
                Answer::Rejected(e->0),
            )
            &&& access.enabled && !access.proxied && e is None && !access.in_scope ==> r == Some(
                Answer::Forbidden,
            )
            &&& access.enabled && !access.proxied && e is None && access.in_scope ==> r is None
        }),
{
}

/// An upload that may be made is refused where it is above the limit, and a
/// deletion where storage does not take the key; otherwise they are not.
pub proof fn uploads_and_deletions_are_refused(
    access: Access,
    repo: Seq<char>,
    file: Seq<char>,
    size: int,
    max: u64,
    key_ok: bool,
)
    ensures
        rpm_repo::change_refusal(access, repo, file) is Some ==> rpm_repo::upload_refusal(
            access,
            repo,
            file,
            size,
            max,
        ) == rpm_repo::change_refusal(access, repo, file) && rpm_repo::deletion_refusal(
            access,
            repo,
            file,
            key_ok,
        ) == rpm_repo::change_refusal(access, repo, file),
        rpm_repo::change_refusal(access, repo, file) is None && size > max
            ==> rpm_repo::upload_refusal(access, repo, file, size, max) == Some(
            Answer::TooLarge(
                "File too large. Max size: "@ + text::decimal(max as nat) + " bytes"@,
            ),
        ),
        rpm_repo::change_refusal(access, repo, file) is None && size <= max
            ==> rpm_repo::upload_refusal(access, repo, file, size, max) is None,
        rpm_repo::change_refusal(access, repo, file) is None && !key_ok
            ==> rpm_repo::deletion_refusal(access, repo, file, key_ok) == Some(Answer::BadRequest),
        rpm_repo::change_refusal(access, repo, file) is None && key_ok
            ==> rpm_repo::deletion_refusal(access, repo, file, key_ok) is None,
{
}

/// An upload comes to the record of its bytes where they are in bounds, `rpm`
/// parses them and the header has what a record needs; else to a refusal that
/// says which of these failed.
pub proof fn uploads_come_to_their_record(
    body: Seq<u8>,
    file: Seq<char>,
    time: u64,
    limit: int,
)
    ensures
        ({
            let r = rpm_repo::upload_result(body, file, time, limit);
            let h = rpm_package::header_in(body);
            let bounds = rpm_package::in_bounds(body);
            let parse = rpm_package::parse_error(body);
            let record = rpm_record::record_error(h);
            &&& !bounds ==> r == Err::<Pkg, Answer>(
                Answer::Rejected("Not a valid RPM: "@ + "header index out of bounds"@),
            )
            &&& bounds && parse is Some ==> r == Err::<Pkg, Answer>(
                Answer::Rejected("Not a valid RPM: "@ + parse->0),
            )
            &&& bounds && parse is None && record is Some ==> r == Err::<Pkg, Answer>(
                Answer::Rejected("RPM header missing required tags: "@ + record->0),
            )
            &&& bounds && parse is None && record is None ==> r == Ok::<Pkg, Answer>(
                rpm_record::record_of(h, body, file, time, limit),
            )
        }),
{
}

/// An upload is stored exactly where nothing refuses it, its bytes come to a
/// record, and storage takes its key.
pub proof fn uploads_are_stored_unless_refused(
    access: Access,
    repo: Seq<char>,
    file: Seq<char>,
    body: Seq<u8>,
    max: u64,
    time: u64,
    limit: int,
    key_ok: bool,
)
    ensures
        ({
            let d = rpm_repo::upload_decision(
                access,
                repo,
                file,
                body,
                max,
                time,
                limit,
                key_ok,
            );
            let refusal = rpm_repo::upload_refusal(access, repo, file, body.len() as int, max);
            let result = rpm_repo::upload_result(body, file, time, limit);
            &&& refusal is Some ==> d == Err::<Pkg, Answer>(refusal->0)
            &&& refusal is None && result is Err ==> d == result
            &&& refusal is None && result is Ok && !key_ok ==> d == Err::<Pkg, Answer>(
                Answer::BadRequest,
            )
            &&& refusal is None && result is Ok && key_ok ==> d == result
        }),
{
}

/// A package is logged by name, version, release and architecture.
pub proof fn packages_are_logged(p: Pkg)
    ensures
        rpm_repo::nevra_of(p) == p.name + "-"@ + p.version + "-"@ + p.release + "."@ + p.arch,
{
}

/// The steps of an upload: the package, its sidecar, the metadata; a failure
/// ends it.
pub proof fn uploads_go_step_by_step(outcome: StepOutcome)
    ensures
        rpm_repo::step_after(Step::StorePackage, StepOutcome::Done) == Step::StoreSidecar,
        rpm_repo::step_after(Step::StoreSidecar, StepOutcome::Done) == Step::RebuildStored,
        rpm_repo::step_after(Step::RebuildStored, StepOutcome::Done) == Step::Done(Answer::Created),
        outcome != StepOutcome::Done ==> rpm_repo::step_after(Step::StorePackage, outcome)
            == Step::Done(Answer::ServerError),
        outcome != StepOutcome::Done ==> rpm_repo::step_after(Step::StoreSidecar, outcome)
            == Step::Done(Answer::ServerError),
        outcome != StepOutcome::Done ==> rpm_repo::step_after(Step::RebuildStored, outcome)
            == Step::Done(Answer::Failed("Package stored but repodata regeneration failed"@)),
{
}

/// The steps of a deletion: the package, its sidecar, whose deletion may fail,
/// and the metadata.
pub proof fn deletions_go_step_by_step(outcome: StepOutcome)
    ensures
        rpm_repo::step_after(Step::DeletePackage, StepOutcome::Done) == Step::DeleteSidecar,
        rpm_repo::step_after(Step::DeletePackage, StepOutcome::NotFound) == Step::Done(
            Answer::NotFound,
        ),
        rpm_repo::step_after(Step::DeletePackage, StepOutcome::Failed) == Step::Done(
            Answer::ServerError,
        ),
        rpm_repo::step_after(Step::DeleteSidecar, outcome) == Step::RebuildDeleted,
        rpm_repo::step_after(Step::RebuildDeleted, StepOutcome::Done) == Step::Done(
            Answer::NoContent,
        ),
        outcome != StepOutcome::Done ==> rpm_repo::step_after(Step::RebuildDeleted, outcome)
            == Step::Done(Answer::Failed("Package deleted but repodata regeneration failed"@)),
{
}

/// A download of a proxied repository goes upstream, to its URL without the
/// slashes at its end and the path, and packages are kept for good.
pub proof fn proxied_downloads_go_upstream(
    base: Seq<char>,
    slashes: nat,
    repo: Seq<char>,
    file: Seq<char>,
    key_ok: bool,
    signed: bool,
)
    requires
        base.len() > 0,
        base.last() != '/',
    ensures
        ({
            let upstream = base + Seq::new(slashes, |i: int| '/');
            let refused = !key_ok || ".nora-meta"@.is_prefix_of(file);
            let r = rpm_repo::route_of(true, Some(upstream), repo, file, key_ok, signed);
            &&& refused ==> r == Route::Answer(Answer::BadRequest)
            &&& !refused ==> r == (Route::Upstream {
                key: "rpm/"@ + repo + "/"@ + file,
                url: base + "/"@ + file,
                immutable: text::ends_ci(file, ".rpm"@) || text::ends_ci(file, ".drpm"@),
                content_type: rpm_repo::media_type(file),
            })
        }),
{
    path::trimmed_ends_are_gone(base, '/', slashes);
}

/// A download of a hosted repository is the signing key where its path is that
/// of the key, and else comes from storage; packages can be had by parts, and
/// `repomd.xml` is not to be cached.
pub proof fn hosted_downloads_come_from_storage(
    repo: Seq<char>,
    file: Seq<char>,
    key_ok: bool,
    signed: bool,
)
    ensures
        ({
            let refused = !key_ok || ".nora-meta"@.is_prefix_of(file);
            let r = rpm_repo::route_of(true, None, repo, file, key_ok, signed);
            &&& file == "repodata/repomd.xml.key"@ && signed ==> r == Route::SigningKey
            &&& file == "repodata/repomd.xml.key"@ && !signed ==> r == Route::Answer(
                Answer::NotFound,
            )
            &&& file != "repodata/repomd.xml.key"@ && refused ==> r == Route::Answer(
                Answer::BadRequest,
            )
            &&& file != "repodata/repomd.xml.key"@ && !refused ==> r == (Route::Stored {
                key: "rpm/"@ + repo + "/"@ + file,
                content_type: rpm_repo::media_type(file),
                ranged: text::ends_ci(file, ".rpm"@) || text::ends_ci(file, ".drpm"@),
                no_cache: file == "repodata/repomd.xml"@,
            })
        }),
{
}

/// The sidecar of a package stands for it, and a package file for itself.
pub proof fn keys_name_their_package(repo: Seq<char>, file: Seq<char>)
    ensures
        reindex::sidecar_name(repo, "rpm/"@ + repo + "/.nora-meta/"@ + file + ".json"@) == Some(
            file,
        ),
        reindex::package_name(repo, "rpm/"@ + repo + "/"@ + file) == (if !".nora-meta/"@.is_prefix_of(
            file,
        ) && !"repodata/"@.is_prefix_of(file) && text::ends_ci(file, ".rpm"@) {
            Some(file)
        } else {
            None
        }),
{
    reveal_strlit("/.nora-meta/");
    reveal_strlit(".nora-meta/");
    reveal_strlit("/");
    let p = "rpm/"@ + repo + "/.nora-meta/"@;
    let q = "rpm/"@ + repo + "/"@;
    assert(p + file + ".json"@ =~= p + (file + ".json"@));
    path::prefixes_come_off(p, file + ".json"@);
    path::suffixes_come_off(file, ".json"@);
    path::prefixes_come_off(q, file);
    let key = q + file;
    assert(p =~= q + ".nora-meta/"@);
    if p.is_prefix_of(key) {
        assert(key.subrange(q.len() as int, p.len() as int) =~= file.subrange(0, 11));
        assert(key.subrange(0, p.len() as int).subrange(q.len() as int, p.len() as int)
            =~= ".nora-meta/"@);
        assert(file.subrange(0, 11) =~= ".nora-meta/"@);
    }
    if ".nora-meta/"@.is_prefix_of(file) {
        assert(file.subrange(0, 11) =~= ".nora-meta/"@);
        assert(key.subrange(0, p.len() as int) =~= p);
    }
}

proof fn lemma_names(repo: Seq<char>, keys: Seq<Seq<char>>, n: Seq<char>, sidecars: bool)
    ensures
        reindex::names_in(repo, keys, sidecars).contains(n) <==> exists|i: int|
            0 <= i < keys.len() && (if sidecars {
                reindex::sidecar_name(repo, #[trigger] keys[i])
            } else {
                reindex::package_name(repo, keys[i])
            }) == Some(n),
    decreases keys.len(),
{
    if keys.len() > 0 {
        let front = keys.drop_last();
        lemma_names(repo, front, n, sidecars);
        assert(forall|i: int| 0 <= i < front.len() ==> front[i] == #[trigger] keys[i]);
        let before = reindex::names_in(repo, front, sidecars);
        let all = reindex::names_in(repo, keys, sidecars);
        if all.contains(n) {
            let k = choose|k: int| 0 <= k < all.len() && all[k] == n;
            if k < before.len() {
                assert(before[k] == n);
                assert(before.contains(n));
                let i = choose|i: int|
                    0 <= i < front.len() && (if sidecars {
                        reindex::sidecar_name(repo, #[trigger] front[i])
                    } else {
                        reindex::package_name(repo, front[i])
                    }) == Some(n);
                assert(keys[i] == front[i]);
            } else {
                assert(keys[keys.len() - 1] == keys.last());
            }
        }
        if exists|i: int|
            0 <= i < keys.len() && (if sidecars {
                reindex::sidecar_name(repo, #[trigger] keys[i])
            } else {
                reindex::package_name(repo, keys[i])
            }) == Some(n) {
            let i = choose|i: int|
                0 <= i < keys.len() && (if sidecars {
                    reindex::sidecar_name(repo, #[trigger] keys[i])
                } else {
                    reindex::package_name(repo, keys[i])
                }) == Some(n);
            if i < front.len() {
                assert(front[i] == keys[i]);
                assert(before.contains(n));
                let k = choose|k: int| 0 <= k < before.len() && before[k] == n;
                assert(all[k] == n);
            } else {
                assert(all[before.len() as int] == n);
            }
        }
    }
}

/// A reindex finds exactly the packages and the sidecars that are listed: a
/// package under its path, outside the metadata, and a sidecar under
/// `.nora-meta`.
pub proof fn reindexing_finds_packages_and_sidecars(
    repo: Seq<char>,
    keys: Seq<Seq<char>>,
    file: Seq<char>,
)
    requires
        text::ends_ci(file, ".rpm"@),
        !".nora-meta/"@.is_prefix_of(file),
        !"repodata/"@.is_prefix_of(file),
    ensures
        reindex::packages_in(repo, keys).contains(file) <==> keys.contains(
            "rpm/"@ + repo + "/"@ + file,
        ),
        reindex::sidecars_in(repo, keys).contains(file) <==> keys.contains(
            "rpm/"@ + repo + "/.nora-meta/"@ + file + ".json"@,
        ),
{
    let q = "rpm/"@ + repo + "/"@;
    let p = "rpm/"@ + repo + "/.nora-meta/"@;
    keys_name_their_package(repo, file);
    lemma_names(repo, keys, file, false);
    lemma_names(repo, keys, file, true);
    grouping::sorted_names_are_a_set(reindex::names_in(repo, keys, false));
    grouping::sorted_names_are_a_set(reindex::names_in(repo, keys, true));
    if reindex::names_in(repo, keys, false).contains(file) {
        let i = choose|i: int|
            0 <= i < keys.len() && reindex::package_name(repo, #[trigger] keys[i]) == Some(file);
        path::prefixed_texts_are_put_together(keys[i], q);
        assert(keys[i] == q + file);
    }
    if keys.contains(q + file) {
        let i = choose|i: int| 0 <= i < keys.len() && keys[i] == q + file;
        assert(reindex::package_name(repo, keys[i]) == Some(file));
    }
    if reindex::names_in(repo, keys, true).contains(file) {
        let i = choose|i: int|
            0 <= i < keys.len() && reindex::sidecar_name(repo, #[trigger] keys[i]) == Some(file);
        path::prefixed_texts_are_put_together(keys[i], p);
        let rest = text::without_prefix(keys[i], p)->0;
        path::suffixed_texts_are_put_together(rest, ".json"@);
        assert(keys[i] =~= p + file + ".json"@);
    }
    if keys.contains(p + file + ".json"@) {
        let i = choose|i: int| 0 <= i < keys.len() && keys[i] == p + file + ".json"@;
        assert(reindex::sidecar_name(repo, keys[i]) == Some(file));
    }
}

/// A reindex is refused, in this order, where the registry is disabled, the name
/// is wrong, the repository is a proxy, or the caller may not; otherwise it is
/// not.
pub proof fn reindexes_are_refused_in_order(access: Access, repo: Seq<char>)
    ensures
        ({
            let r = reindex::reindex_refusal(access, repo);
            let ok = rpm_repo::repo_ok(repo);
            &&& !access.enabled ==> r == Some(Answer::NotFound)
            &&& access.enabled && !ok ==> r == Some(Answer::Rejected("Invalid repository name"@))
            &&& access.enabled && ok && access.proxied ==> r == Some(Answer::ProxiedConflict)
            &&& access.enabled && ok && !access.proxied && !access.in_scope ==> r == Some(
                Answer::Forbidden,
            )
            &&& access.enabled && ok && !access.proxied && access.in_scope ==> r is None
        }),
{
}

/// A stored package comes to the same record as an upload of its bytes; where
/// there is none, the answer names the package.
pub proof fn stored_packages_come_to_their_record(
    body: Seq<u8>,
    file: Seq<char>,
    time: u64,
    limit: int,
)
    ensures
        reindex::reindex_result(body, file, time, limit) is Ok <==> rpm_repo::upload_result(
            body,
            file,
            time,
            limit,
        ) is Ok,
        reindex::reindex_result(body, file, time, limit) is Ok ==> reindex::reindex_result(
            body,
            file,
            time,
            limit,
        ) == rpm_repo::upload_result(body, file, time, limit),
        rpm_repo::parse_refusal(body) matches Some(e) ==> reindex::reindex_result(
            body,
            file,
            time,
            limit,
        ) == Err::<Pkg, Answer>(Answer::Unprocessable(file + " is not a valid RPM: "@ + e)),
        rpm_repo::parse_refusal(body) is None && (rpm_record::record_error(
            rpm_package::header_in(body),
        ) is Some) ==> reindex::reindex_result(body, file, time, limit) == Err::<Pkg, Answer>(
            Answer::Unprocessable(
                file + ": RPM header missing required tags: "@ + rpm_record::record_error(
                    rpm_package::header_in(body),
                )->0,
            ),
        ),
{
}

/// Each step of a reindex that succeeds leads to the next of its plan, and one
/// that fails ends it.
pub proof fn reindexes_go_step_by_step(
    i: usize,
    stale: int,
    missing: int,
    outcome: StepOutcome,
    step: ReindexStep,
)
    requires
        0 <= stale <= usize::MAX,
        0 <= missing <= usize::MAX,
        i < usize::MAX,
    ensures
        ({
            let make = if missing > 0 {
                ReindexStep::ReadPackage(0)
            } else {
                ReindexStep::Rebuild
            };
            let done = StepOutcome::Done;
            &&& stale > 0 ==> reindex::reindex_after(ReindexStep::List, done, stale, missing)
                == ReindexStep::DeleteSidecar(0)
            &&& stale == 0 ==> reindex::reindex_after(ReindexStep::List, done, stale, missing)
                == make
            &&& i + 1 < stale ==> reindex::reindex_after(
                ReindexStep::DeleteSidecar(i),
                done,
                stale,
                missing,
            ) == ReindexStep::DeleteSidecar((i + 1) as usize)
            &&& i + 1 >= stale ==> reindex::reindex_after(
                ReindexStep::DeleteSidecar(i),
                done,
                stale,
                missing,
            ) == make
            &&& reindex::reindex_after(ReindexStep::ReadPackage(i), done, stale, missing)
                == ReindexStep::StoreSidecar(i)
            &&& i + 1 < missing ==> reindex::reindex_after(
                ReindexStep::StoreSidecar(i),
                done,
                stale,
                missing,
            ) == ReindexStep::ReadPackage((i + 1) as usize)
            &&& i + 1 >= missing ==> reindex::reindex_after(
                ReindexStep::StoreSidecar(i),
                done,
                stale,
                missing,
            ) == ReindexStep::Rebuild
            &&& reindex::reindex_after(ReindexStep::Rebuild, done, stale, missing)
                == ReindexStep::Finished
        }),
        outcome != StepOutcome::Done && step != ReindexStep::Finished ==> reindex::reindex_after(
            step,
            outcome,
            stale,
            missing,
        ) == ReindexStep::Aborted,
{
}

/// Each write of a rebuild that succeeds leads to the next; then the signature
/// is written, or, without a signing key, one that is found is deleted; then the
/// earlier generation is pruned, which may fail.
pub proof fn rebuilds_go_step_by_step(
    i: usize,
    writes: int,
    signed: bool,
    outcome: StepOutcome,
)
    requires
        1 <= writes <= usize::MAX,
        i < writes,
    ensures
        ({
            let done = StepOutcome::Done;
            let failed = outcome != done;
            &&& i + 1 < writes ==> reindex::rebuild_after(
                RebuildStep::Write(i),
                done,
                writes,
                signed,
            ) == RebuildStep::Write((i + 1) as usize)
            &&& i + 1 == writes && signed ==> reindex::rebuild_after(
                RebuildStep::Write(i),
                done,
                writes,
                signed,
            ) == RebuildStep::WriteSignature
            &&& i + 1 == writes && !signed ==> reindex::rebuild_after(
                RebuildStep::Write(i),
                done,
                writes,
                signed,
            ) == RebuildStep::FindSignature
            &&& failed ==> reindex::rebuild_after(RebuildStep::Write(i), outcome, writes, signed)
                == RebuildStep::Aborted
            &&& reindex::rebuild_after(RebuildStep::WriteSignature, done, writes, signed)
                == RebuildStep::Prune
            &&& failed ==> reindex::rebuild_after(
                RebuildStep::WriteSignature,
                outcome,
                writes,
                signed,
            ) == RebuildStep::Aborted
            &&& reindex::rebuild_after(RebuildStep::FindSignature, done, writes, signed)
                == RebuildStep::DeleteSignature
            &&& failed ==> reindex::rebuild_after(
                RebuildStep::FindSignature,
                outcome,
                writes,
                signed,
            ) == RebuildStep::Prune
            &&& reindex::rebuild_after(RebuildStep::DeleteSignature, done, writes, signed)
                == RebuildStep::Prune
            &&& failed ==> reindex::rebuild_after(
                RebuildStep::DeleteSignature,
                outcome,
                writes,
                signed,
            ) == RebuildStep::Aborted
            &&& reindex::rebuild_after(RebuildStep::Prune, outcome, writes, signed)
                == RebuildStep::Finished
        }),
{
}

/// The task sleeps, waits for the lock, runs, and sleeps again; cancelling ends
/// either wait.
pub proof fn cleanup_goes_round(ended: Ended)
    ensures
        cleanup::phase_after(Phase::Sleep, Ended::Through) == Phase::WaitForLock,
        cleanup::phase_after(Phase::WaitForLock, Ended::Through) == Phase::Run,
        cleanup::phase_after(Phase::Sleep, Ended::Cancelled) == Phase::Stop,
        cleanup::phase_after(Phase::WaitForLock, Ended::Cancelled) == Phase::Stop,
        cleanup::phase_after(Phase::Run, ended) == Phase::Sleep,
        cleanup::phase_after(Phase::Stop, ended) == Phase::Stop,
{
}

/// The next time to wake is the earliest that a pass is due; there is none where
/// there are no passes.
pub proof fn cleanup_wakes_at_the_earliest(due: Seq<u64>)
    ensures
        match cleanup::earliest(due) {
            Some(t) => due.contains(t) && forall|i: int| 0 <= i < due.len() ==> t <= #[trigger] due[i],
            None => due.len() == 0,
        },
    decreases due.len(),
{
    if due.len() > 0 {
        let front = due.drop_last();
        cleanup_wakes_at_the_earliest(front);
        assert(forall|i: int| 0 <= i < front.len() ==> front[i] == #[trigger] due[i]);
        assert(due[due.len() - 1] == due.last());
        let t = cleanup::earliest(due)->0;
        if t != due.last() {
            let i = choose|i: int| 0 <= i < front.len() && front[i] == t;
            assert(due[i] == t);
        }
    }
}

/// Sorting puts one more element behind those that are at or before it, and
/// before all others: elements that the order does not tell apart keep theirs.
pub proof fn sorting_is_stable<T>(s: Seq<T>, x: T, le: spec_fn(T, T) -> bool)
    requires
        order::is_preorder(le),
    ensures
        exists|k: int|
            0 <= k <= s.len() && #[trigger] order::sorted_by(s, le).insert(k, x)
                == order::sorted_by(s.push(x), le) && (forall|i: int|
                0 <= i < k ==> le(#[trigger] order::sorted_by(s, le)[i], x)) && (forall|i: int|
                k <= i < s.len() ==> !le(#[trigger] order::sorted_by(s, le)[i], x)),
{
    assert(s.push(x).drop_last() =~= s);
    let sorted = order::sorted_by(s, le);
    order::lemma_sorted_by(s, le);
    let k = lemma_boundary(sorted, x, le);
    order::lemma_insert_at(sorted, x, le, k);
    assert(sorted.insert(k, x) == order::sorted_by(s.push(x), le));
}

proof fn lemma_boundary<T>(s: Seq<T>, x: T, le: spec_fn(T, T) -> bool) -> (k: int)
    requires
        order::is_preorder(le),
        order::ascending(s, le),
    ensures
        0 <= k <= s.len(),
        forall|i: int| 0 <= i < k ==> le(#[trigger] s[i], x),
        forall|i: int| k <= i < s.len() ==> !le(#[trigger] s[i], x),
    decreases s.len(),
{
    if s.len() == 0 {
        0
    } else if le(s.last(), x) {
        let n = s.len() as int;
        assert forall|i: int| 0 <= i < n implies le(#[trigger] s[i], x) by {
            if i < n - 1 {
                assert(le(s[i], s[n - 1]));
            }
        }
        n
    } else {
        let front = s.drop_last();
        assert(forall|i: int| 0 <= i < front.len() ==> front[i] == #[trigger] s[i]);
        let k = lemma_boundary(front, x, le);
        assert forall|i: int| k <= i < s.len() implies !le(#[trigger] s[i], x) by {
            if i < front.len() {
                assert(front[i] == s[i]);
            }
        }
        assert forall|i: int| 0 <= i < k implies le(#[trigger] s[i], x) by {
            assert(front[i] == s[i]);
        }
        k
    }
}

/// A sidecar is stale exactly where there is no package for it, and missing
/// exactly where a package has none.
pub proof fn stale_and_missing_sidecars(
    packages: Seq<Seq<char>>,
    sidecars: Seq<Seq<char>>,
    name: Seq<char>,
)
    ensures
        reindex::minus(sidecars, packages).contains(name) <==> sidecars.contains(name)
            && !packages.contains(name),
        reindex::minus(packages, sidecars).contains(name) <==> packages.contains(name)
            && !sidecars.contains(name),
{
    reindex::lemma_minus(sidecars, packages, name);
    reindex::lemma_minus(packages, sidecars, name);
}

/// The room that an item of the type takes in a list.
pub open spec fn room(kind: int) -> int {
    if kind == 3 {
        2
    } else if kind == 4 {
        4
    } else if kind == 5 {
        8
    } else if kind == 8 || kind == 9 {
        16
    } else {
        0
    }
}

/// A header index that is there with all that it claims is in bounds exactly
/// where it ends below four gibibytes and each entry points into its data; one
/// that is cut short, where its claim is a size that can be set aside; and where
/// none starts, there is nothing to check.
pub proof fn indexes_are_in_bounds(d: Seq<u8>, at: int)
    requires
        at >= 0,
    ensures
        ({
            let starts = at + 16 <= d.len() && d[at] == 142 && d[at + 1] == 173 && d[at + 3] == 1;
            let entries = rpm_package::be32(d, at + 8);
            let data = rpm_package::be32(d, at + 12);
            let end = at + 16 + 16 * entries + data;
            &&& !starts ==> rpm_package::section_ok(d, at)
            &&& starts && end <= d.len() ==> (rpm_package::section_ok(d, at) <==> end
                < 0x1_0000_0000 && forall|k: int|
                0 <= k < entries ==> {
                    let place = #[trigger] rpm_package::entry_place(at, k);
                    &&& rpm_package::be32(d, place + 8) <= data
                    &&& rpm_package::be32(d, place + 8) < 0x8000_0000
                    &&& usize::BITS == 32 ==> room(rpm_package::be32(d, place + 4))
                        * rpm_package::be32(d, place + 12) <= 0x7fff_ffff
                })
            &&& starts && end > d.len() ==> (rpm_package::section_ok(d, at) <==> 16 * entries + data
                < 0x1_0000_0000 && 16 * entries + data <= isize::MAX)
        }),
        forall|k: int| #[trigger] rpm_package::entry_place(at, k) == at + 16 + 16 * k,
{
    let entries = rpm_package::be32(d, at + 8);
    let data = rpm_package::be32(d, at + 12);
    assert forall|k: int| #[trigger] rpm_package::entry_ok(d, at, k) <==> {
        let place = rpm_package::entry_place(at, k);
        &&& rpm_package::be32(d, place + 8) <= data
        &&& rpm_package::be32(d, place + 8) < 0x8000_0000
        &&& usize::BITS == 32 ==> room(rpm_package::be32(d, place + 4)) * rpm_package::be32(
            d,
            place + 12,
        ) <= 0x7fff_ffff
    } by {}
    if rpm_package::starts_index(d, at) && rpm_package::is_complete(d, at) {
        if rpm_package::section_ok(d, at) {
            assert forall|k: int| 0 <= k < entries implies {
                let place = #[trigger] rpm_package::entry_place(at, k);
                &&& rpm_package::be32(d, place + 8) <= data
                &&& rpm_package::be32(d, place + 8) < 0x8000_0000
                &&& usize::BITS == 32 ==> room(rpm_package::be32(d, place + 4))
                    * rpm_package::be32(d, place + 12) <= 0x7fff_ffff
            } by {
                assert(rpm_package::entry_ok(d, at, k));
            }
        }
        if forall|k: int|
            0 <= k < entries ==> {
                let place = #[trigger] rpm_package::entry_place(at, k);
                &&& rpm_package::be32(d, place + 8) <= data
                &&& rpm_package::be32(d, place + 8) < 0x8000_0000
                &&& usize::BITS == 32 ==> room(rpm_package::be32(d, place + 4))
                    * rpm_package::be32(d, place + 12) <= 0x7fff_ffff
            } {
            assert forall|k: int| 0 <= k < entries implies #[trigger] rpm_package::entry_ok(
                d,
                at,
                k,
            ) by {
                let place = rpm_package::entry_place(at, k);
                assert(rpm_package::be32(d, place + 8) <= data);
            }
        }
    }
}

/// The indexes of a package are those behind its lead: that of the signature,
/// and, where that is there in full, that of the main header, at the next
/// multiple of eight.
pub proof fn both_indexes_are_checked(d: Seq<u8>)
    ensures
        ({
            let size = 16 + 16 * rpm_package::be32(d, 104) + rpm_package::be32(d, 108);
            let main = 96 + size + (8 - rpm_package::be32(d, 108) % 8) % 8;
            let full = 112 <= d.len() && d[96] == 142 && d[97] == 173 && d[99] == 1 && 96 + size
                <= d.len();
            rpm_package::in_bounds(d) <==> rpm_package::section_ok(d, 96) && (full
                ==> rpm_package::section_ok(d, main))
        }),
{
}

} // verus!
