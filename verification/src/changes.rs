//! What the upload and the deletion of an rpm package leave in storage.
//!
//! Storage is a map from keys to contents that does what it is asked: it
//! deletes a key that is there, says so where it is not, and keeps what is
//! written. The steps of a change are carried out on it one after the other.

use vstd::prelude::*;

use crate::digest;
use crate::order;
use crate::repodata::{self, Document};
use crate::repomd;
use crate::rpm_record::Pkg;
use crate::rpm_repo::{self, Access, Answer, Step, StepOutcome};
use crate::text;

verus! {

/// Where the metadata of a repository lies.
pub open spec fn repodata_prefix(repo: Seq<char>) -> Seq<char> {
    "rpm/"@ + repo + "/repodata/"@
}

/// Where the sidecars of a repository lie.
pub open spec fn sidecar_prefix(repo: Seq<char>) -> Seq<char> {
    "rpm/"@ + repo + "/.nora-meta/"@
}

/// The listing holds the sidecars of the repository in storage, each once.
pub open spec fn lists_sidecars(
    listing: Seq<Seq<char>>,
    store: Map<Seq<char>, Seq<u8>>,
    repo: Seq<char>,
) -> bool {
    &&& listing.no_duplicates()
    &&& forall|k: Seq<char>| #[trigger]
        listing.contains(k) <==> store.contains_key(k) && sidecar_prefix(repo).is_prefix_of(k)
}

/// The packages that the listed sidecars describe. `read` makes a package of
/// the content of a sidecar.
pub open spec fn described(
    listing: Seq<Seq<char>>,
    store: Map<Seq<char>, Seq<u8>>,
    read: spec_fn(Seq<u8>) -> Pkg,
) -> Seq<Pkg> {
    listing.map_values(|k: Seq<char>| read(store[k]))
}

/// Storage after the writes, in their order.
pub open spec fn put_all(
    store: Map<Seq<char>, Seq<u8>>,
    writes: Seq<(Seq<char>, Seq<u8>)>,
) -> Map<Seq<char>, Seq<u8>>
    decreases writes.len(),
{
    if writes.len() == 0 {
        store
    } else {
        put_all(store, writes.drop_last()).insert(writes.last().0, writes.last().1)
    }
}

/// Storage after a rebuild over the packages: the documents and `repomd.xml`
/// are written, the signature is written or, without one, deleted, and what is
/// left of an earlier generation is pruned.
pub open spec fn rebuilt(
    store: Map<Seq<char>, Seq<u8>>,
    repo: Seq<char>,
    pkgs: Seq<Pkg>,
    revision: u64,
    signature: Option<Seq<u8>>,
) -> Map<Seq<char>, Seq<u8>> {
    let files = repomd::repodata_files(pkgs);
    let written = put_all(store, repomd::update_writes(repo, files, revision));
    let asc = repomd::repomd_path(repo) + ".asc"@;
    let signed = match signature {
        Some(s) => written.insert(asc, s),
        None => written.remove(asc),
    };
    Map::new(
        |k: Seq<char>|
            signed.contains_key(k) && !(repodata_prefix(repo).is_prefix_of(k) && repomd::is_stale(
                k,
                repo,
                files,
            )),
        |k: Seq<char>| signed[k],
    )
}

/// What a rebuild works with, besides storage.
pub struct Rebuild {
    /// The sidecars, in the order in which they are listed.
    pub listing: Seq<Seq<char>>,
    pub revision: u64,
    /// The signature of `repomd.xml`, where the repository is signed.
    pub signature: Option<Seq<u8>>,
}

/// What an upload stores: the package as it came, and the sidecar made for it.
/// A deletion stores neither.
pub struct Upload {
    pub body: Seq<u8>,
    pub sidecar: Seq<u8>,
}

/// How a step of a change goes.
pub open spec fn went(
    step: Step,
    store: Map<Seq<char>, Seq<u8>>,
    repo: Seq<char>,
    path: Seq<char>,
) -> StepOutcome {
    let gone = match step {
        Step::DeletePackage => !store.contains_key(rpm_repo::package_path(repo, path)),
        Step::DeleteSidecar => !store.contains_key(rpm_repo::sidecar_path(repo, path)),
        _ => false,
    };
    if gone {
        StepOutcome::NotFound
    } else {
        StepOutcome::Done
    }
}

/// Storage after a step of a change.
pub open spec fn leaves(
    step: Step,
    store: Map<Seq<char>, Seq<u8>>,
    repo: Seq<char>,
    path: Seq<char>,
    upload: Upload,
    with: Rebuild,
    read: spec_fn(Seq<u8>) -> Pkg,
) -> Map<Seq<char>, Seq<u8>> {
    match step {
        Step::StorePackage => store.insert(rpm_repo::package_path(repo, path), upload.body),
        Step::StoreSidecar => store.insert(rpm_repo::sidecar_path(repo, path), upload.sidecar),
        Step::DeletePackage => store.remove(rpm_repo::package_path(repo, path)),
        Step::DeleteSidecar => store.remove(rpm_repo::sidecar_path(repo, path)),
        Step::RebuildStored => rebuilt(
            store,
            repo,
            described(with.listing, store, read),
            with.revision,
            with.signature,
        ),
        Step::RebuildDeleted => rebuilt(
            store,
            repo,
            described(with.listing, store, read),
            with.revision,
            with.signature,
        ),
        Step::Done(_) => store,
    }
}

/// How many steps are left at most.
pub open spec fn steps_left(step: Step) -> nat {
    match step {
        Step::StorePackage => 3,
        Step::StoreSidecar => 2,
        Step::RebuildStored => 1,
        Step::DeletePackage => 3,
        Step::DeleteSidecar => 2,
        Step::RebuildDeleted => 1,
        Step::Done(_) => 0,
    }
}

/// Carries out the steps of a change from `step` on: the answer, and storage
/// after it.
pub open spec fn carried_out(
    step: Step,
    store: Map<Seq<char>, Seq<u8>>,
    repo: Seq<char>,
    path: Seq<char>,
    upload: Upload,
    with: Rebuild,
    read: spec_fn(Seq<u8>) -> Pkg,
) -> (Answer, Map<Seq<char>, Seq<u8>>)
    decreases steps_left(step),
{
    match step {
        Step::Done(a) => (a, store),
        _ => carried_out(
            rpm_repo::step_after(step, went(step, store, repo, path)),
            leaves(step, store, repo, path, upload, with, read),
            repo,
            path,
            upload,
            with,
            read,
        ),
    }
}

/// The answer to a request to delete a package, and storage after it.
pub open spec fn deleted(
    access: Access,
    key_ok: bool,
    store: Map<Seq<char>, Seq<u8>>,
    repo: Seq<char>,
    path: Seq<char>,
    with: Rebuild,
    read: spec_fn(Seq<u8>) -> Pkg,
) -> (Answer, Map<Seq<char>, Seq<u8>>) {
    match rpm_repo::deletion_refusal(access, repo, path, key_ok) {
        Some(a) => (a, store),
        None => carried_out(
            Step::DeletePackage,
            store,
            repo,
            path,
            Upload { body: Seq::empty(), sidecar: Seq::empty() },
            with,
            read,
        ),
    }
}

/// What an upload is decided by, besides the package: the caller's access, the
/// largest size, the time, and how many changelog entries are kept.
pub struct UploadTerms {
    pub access: Access,
    pub max_size: u64,
    pub file_time: u64,
    pub changelog_limit: usize,
}

/// What an upload to a key that storage takes is decided to be.
pub open spec fn decision(
    terms: UploadTerms,
    repo: Seq<char>,
    path: Seq<char>,
    body: Seq<u8>,
) -> Result<Pkg, Answer> {
    rpm_repo::upload_decision(
        terms.access,
        repo,
        path,
        body,
        terms.max_size,
        terms.file_time,
        terms.changelog_limit as int,
        true,
    )
}

/// The answer to an upload, and storage after it.
pub open spec fn uploaded(
    terms: UploadTerms,
    store: Map<Seq<char>, Seq<u8>>,
    repo: Seq<char>,
    path: Seq<char>,
    upload: Upload,
    with: Rebuild,
    read: spec_fn(Seq<u8>) -> Pkg,
) -> (Answer, Map<Seq<char>, Seq<u8>>) {
    match decision(terms, repo, path, upload.body) {
        Err(a) => (a, store),
        Ok(_) => carried_out(Step::StorePackage, store, repo, path, upload, with, read),
    }
}

/// Storage with a package and its sidecar.
pub open spec fn with_package(
    store: Map<Seq<char>, Seq<u8>>,
    repo: Seq<char>,
    path: Seq<char>,
    upload: Upload,
) -> Map<Seq<char>, Seq<u8>> {
    store.insert(rpm_repo::package_path(repo, path), upload.body).insert(
        rpm_repo::sidecar_path(repo, path),
        upload.sidecar,
    )
}

/// Storage without a package and its sidecar.
pub open spec fn without_package(
    store: Map<Seq<char>, Seq<u8>>,
    repo: Seq<char>,
    path: Seq<char>,
) -> Map<Seq<char>, Seq<u8>> {
    store.remove(rpm_repo::package_path(repo, path)).remove(rpm_repo::sidecar_path(repo, path))
}

proof fn lemma_put_all(
    store: Map<Seq<char>, Seq<u8>>,
    writes: Seq<(Seq<char>, Seq<u8>)>,
    k: Seq<char>,
)
    ensures
        (forall|i: int| 0 <= i < writes.len() ==> (#[trigger] writes[i]).0 != k) ==> (put_all(
            store,
            writes,
        ).contains_key(k) == store.contains_key(k) && (store.contains_key(k) ==> put_all(
            store,
            writes,
        )[k] == store[k])),
    decreases writes.len(),
{
    if writes.len() > 0 {
        let front = writes.drop_last();
        lemma_put_all(store, front, k);
        assert(forall|i: int| 0 <= i < front.len() ==> front[i] == #[trigger] writes[i]);
        assert(writes[writes.len() - 1] == writes.last());
    }
}

proof fn lemma_written(
    store: Map<Seq<char>, Seq<u8>>,
    writes: Seq<(Seq<char>, Seq<u8>)>,
    i: int,
)
    requires
        0 <= i < writes.len(),
        forall|a: int, b: int|
            0 <= a < b < writes.len() ==> (#[trigger] writes[a]).0 != (#[trigger] writes[b]).0,
    ensures
        put_all(store, writes).contains_key(writes[i].0),
        put_all(store, writes)[writes[i].0] == writes[i].1,
    decreases writes.len(),
{
    let front = writes.drop_last();
    if i < front.len() {
        assert(forall|a: int| 0 <= a < front.len() ==> front[a] == #[trigger] writes[a]);
        lemma_written(store, front, i);
        assert(writes[i].0 != writes[writes.len() - 1].0);
    }
}

/// The keys of the three documents and of `repomd.xml` are four, all under the
/// metadata of the repository, and none is that of the signature.
proof fn lemma_write_keys(repo: Seq<char>, pkgs: Seq<Pkg>, revision: u64)
    ensures
        ({
            let writes = repomd::update_writes(repo, repomd::repodata_files(pkgs), revision);
            let asc = repomd::repomd_path(repo) + ".asc"@;
            &&& writes.len() == 4
            &&& forall|a: int, b: int|
                0 <= a < b < writes.len() ==> (#[trigger] writes[a]).0 != (#[trigger] writes[b]).0
            &&& forall|a: int|
                0 <= a < writes.len() ==> repodata_prefix(repo).is_prefix_of(
                    (#[trigger] writes[a]).0,
                ) && writes[a].0 != asc
            &&& repodata_prefix(repo).is_prefix_of(asc)
        }),
{
    reveal(repomd::repodata_file);
    reveal_strlit("/");
    reveal_strlit("repodata/");
    reveal_strlit("/repodata/");
    reveal_strlit("/repodata/repomd.xml");
    reveal_strlit(".asc");
    reveal_strlit(".xml.gz");
    reveal_strlit("primary");
    reveal_strlit("filelists");
    reveal_strlit("other");
    let files = repomd::repodata_files(pkgs);
    let writes = repomd::update_writes(repo, files, revision);
    let p = repodata_prefix(repo);
    let asc = repomd::repomd_path(repo) + ".asc"@;
    assert(writes.len() == 4);
    assert(asc.subrange(0, p.len() as int) =~= p);
    assert(asc[asc.len() - 1] == 'c');
    assert(writes[3].0 == repomd::repomd_path(repo));
    assert(writes[3].0.subrange(0, p.len() as int) =~= p);
    assert(writes[3].0[writes[3].0.len() - 1] == 'l');
    lemma_document_key(repo, files[0], 'y');
    lemma_document_key(repo, files[1], 's');
    lemma_document_key(repo, files[2], 'r');
    assert(writes[0].0 == repomd::file_path(repo, files[0]));
    assert(writes[1].0 == repomd::file_path(repo, files[1]));
    assert(writes[2].0 == repomd::file_path(repo, files[2]));
    assert forall|a: int| 0 <= a < writes.len() implies p.is_prefix_of((#[trigger] writes[a]).0)
        && writes[a].0 != asc by {
        assert(a == 0 || a == 1 || a == 2 || a == 3);
    }
    assert forall|a: int, b: int| 0 <= a < b < writes.len() implies (#[trigger] writes[a]).0 != (
    #[trigger] writes[b]).0 by {
        assert(a == 0 || a == 1 || a == 2);
        assert(b == 1 || b == 2 || b == 3);
    }
}

/// The key of a document lies under the metadata of the repository; the end of
/// its kind can be read off it.
proof fn lemma_document_key(repo: Seq<char>, f: repomd::MetaFile, c: char)
    requires
        f.href == "repodata/"@ + f.checksum + "-"@ + f.kind + ".xml.gz"@,
        f.kind.len() > 0,
        f.kind.last() == c,
    ensures
        repodata_prefix(repo).is_prefix_of(repomd::file_path(repo, f)),
        repomd::file_path(repo, f).len() > 8,
        repomd::file_path(repo, f)[repomd::file_path(repo, f).len() - 8] == c,
        repomd::file_path(repo, f).last() == 'z',
{
    reveal_strlit("/");
    reveal_strlit("repodata/");
    reveal_strlit("/repodata/");
    reveal_strlit(".xml.gz");
    let key = repomd::file_path(repo, f);
    let p = repodata_prefix(repo);
    assert(key.subrange(0, p.len() as int) =~= p);
    assert(f.href[f.href.len() - 8] == f.kind[f.kind.len() - 1]);
    assert(key[key.len() - 8] == f.href[f.href.len() - 8]);
    assert(key[key.len() - 1] == f.href[f.href.len() - 1]);
}

/// A rebuild leaves what lies outside the metadata as it is, and puts its
/// documents and `repomd.xml` in place.
pub proof fn rebuilds_replace_the_metadata(
    store: Map<Seq<char>, Seq<u8>>,
    repo: Seq<char>,
    pkgs: Seq<Pkg>,
    revision: u64,
    signature: Option<Seq<u8>>,
)
    ensures
        ({
            let files = repomd::repodata_files(pkgs);
            let after = rebuilt(store, repo, pkgs, revision, signature);
            &&& forall|k: Seq<char>|
                !repodata_prefix(repo).is_prefix_of(k) ==> #[trigger] after.contains_key(k)
                    == store.contains_key(k) && (store.contains_key(k) ==> after[k] == store[k])
            &&& after.contains_key(repomd::repomd_path(repo))
            &&& after[repomd::repomd_path(repo)] == repomd::utf8(repomd::repomd(files, revision))
            &&& forall|i: int|
                0 <= i < 3 ==> after.contains_key(repomd::file_path(repo, #[trigger] files[i]))
                    && after[repomd::file_path(repo, files[i])] == files[i].gz
        }),
{
    let files = repomd::repodata_files(pkgs);
    let writes = repomd::update_writes(repo, files, revision);
    let written = put_all(store, writes);
    let after = rebuilt(store, repo, pkgs, revision, signature);
    lemma_write_keys(repo, pkgs, revision);
    repomd::repomd_is_written_last(repo, files, revision);
    assert forall|k: Seq<char>| !repodata_prefix(repo).is_prefix_of(k) implies #[trigger]
        after.contains_key(k) == store.contains_key(k) && (store.contains_key(k) ==> after[k]
        == store[k]) by {
        lemma_put_all(store, writes, k);
    }
    lemma_written(store, writes, 3);
    repomd::current_metadata_is_not_pruned(repo, files, 0);
    assert(writes[3] == writes.last());
    assert forall|i: int| 0 <= i < 3 implies after.contains_key(
        repomd::file_path(repo, #[trigger] files[i]),
    ) && after[repomd::file_path(repo, files[i])] == files[i].gz by {
        lemma_written(store, writes, i);
        repomd::current_metadata_is_not_pruned(repo, files, i);
        assert(writes[i] == (repomd::file_path(repo, files[i]), files[i].gz));
    }
}

/// The sidecar of a package lies outside the metadata, and apart from it.
proof fn lemma_sidecar_key(repo: Seq<char>, path: Seq<char>)
    requires
        rpm_repo::path_error(repo, path) is None,
    ensures
        !repodata_prefix(repo).is_prefix_of(rpm_repo::sidecar_path(repo, path)),
        rpm_repo::sidecar_path(repo, path) != rpm_repo::package_path(repo, path),
{
    reveal_strlit("rpm/");
    reveal_strlit("/repodata/");
    reveal_strlit("/.nora-meta/");
    let key = rpm_repo::sidecar_path(repo, path);
    let p = repodata_prefix(repo);
    let n: int = 5 + repo.len() as int;
    assert(key[n] == '.');
    if p.is_prefix_of(key) {
        assert(key.subrange(0, p.len() as int)[n] == p[n]);
    }
    rpm_repo::packages_stay_out_of_reserved_places(repo, path);
    let q = sidecar_prefix(repo);
    assert(key.subrange(0, q.len() as int) =~= q);
}

/// A package is deleted once. The first request for one that is in storage is
/// answered as done: the package and its sidecar are gone, nothing else outside
/// the metadata changes, and the metadata is that of the packages that are left.
/// A second request is answered as not found and changes nothing.
pub proof fn a_package_is_deleted_once(
    access: Access,
    store: Map<Seq<char>, Seq<u8>>,
    repo: Seq<char>,
    path: Seq<char>,
    first: Rebuild,
    second: Rebuild,
    read: spec_fn(Seq<u8>) -> Pkg,
)
    requires
        access.enabled,
        !access.proxied,
        access.in_scope,
        rpm_repo::path_error(repo, path) is None,
        store.contains_key(rpm_repo::package_path(repo, path)),
        lists_sidecars(first.listing, without_package(store, repo, path), repo),
    ensures
        ({
            let (answer, after) = deleted(access, true, store, repo, path, first, read);
            let left = described(first.listing, store, read);
            &&& answer == Answer::NoContent
            &&& !after.contains_key(rpm_repo::package_path(repo, path))
            &&& !after.contains_key(rpm_repo::sidecar_path(repo, path))
            &&& forall|k: Seq<char>|
                !repodata_prefix(repo).is_prefix_of(k) && k != rpm_repo::package_path(repo, path)
                    && k != rpm_repo::sidecar_path(repo, path) ==> #[trigger] after.contains_key(k)
                    == store.contains_key(k) && (store.contains_key(k) ==> after[k] == store[k])
            &&& !first.listing.contains(rpm_repo::sidecar_path(repo, path))
            &&& after.contains_key(repomd::repomd_path(repo))
            &&& after == rebuilt(
                without_package(store, repo, path),
                repo,
                left,
                first.revision,
                first.signature,
            )
            &&& deleted(access, true, after, repo, path, second, read) == (Answer::NotFound, after)
        }),
{
    reveal_with_fuel(carried_out, 4);
    let package = rpm_repo::package_path(repo, path);
    let sidecar = rpm_repo::sidecar_path(repo, path);
    let bare = without_package(store, repo, path);
    let left = described(first.listing, store, read);
    rpm_repo::packages_stay_out_of_reserved_places(repo, path);
    lemma_sidecar_key(repo, path);
    assert(described(first.listing, bare, read) =~= left) by {
        assert forall|i: int| 0 <= i < first.listing.len() implies bare[#[trigger] first.listing[i]]
            == store[first.listing[i]] by {
            assert(first.listing.contains(first.listing[i]));
            assert(bare.contains_key(first.listing[i]));
        }
    }
    rebuilds_replace_the_metadata(bare, repo, left, first.revision, first.signature);
    let after = rebuilt(bare, repo, left, first.revision, first.signature);
    assert(deleted(access, true, store, repo, path, first, read) == (Answer::NoContent, after));
    assert(after.remove(package) =~= after);
}

/// An uploaded package is served as it came. An upload that is accepted is
/// answered as created: the package lies byte for byte where downloads of its
/// path are served from, its sidecar lies beside it, and nothing else outside the
/// metadata changes. Its record, which names the path and the digest of the
/// bytes, is among the packages that every document describes.
pub proof fn uploads_are_served(
    terms: UploadTerms,
    store: Map<Seq<char>, Seq<u8>>,
    repo: Seq<char>,
    path: Seq<char>,
    upload: Upload,
    record: Pkg,
    with: Rebuild,
    read: spec_fn(Seq<u8>) -> Pkg,
    signed: bool,
)
    requires
        decision(terms, repo, path, upload.body) == Ok::<Pkg, Answer>(record),
        read(upload.sidecar) == record,
        lists_sidecars(with.listing, with_package(store, repo, path, upload), repo),
    ensures
        ({
            let (answer, after) = uploaded(terms, store, repo, path, upload, with, read);
            let key = rpm_repo::package_path(repo, path);
            let sidecar = rpm_repo::sidecar_path(repo, path);
            let full = with_package(store, repo, path, upload);
            let pkgs = described(with.listing, full, read);
            &&& answer == Answer::Created
            &&& after.contains_key(key) && after[key] == upload.body
            &&& after.contains_key(sidecar) && after[sidecar] == upload.sidecar
            &&& forall|k: Seq<char>|
                !repodata_prefix(repo).is_prefix_of(k) && k != key && k != sidecar
                    ==> #[trigger] after.contains_key(k) == store.contains_key(k) && (
                store.contains_key(k) ==> after[k] == store[k])
            &&& after == rebuilt(full, repo, pkgs, with.revision, with.signature)
            &&& after.contains_key(repomd::repomd_path(repo))
            &&& after[repomd::repomd_path(repo)] == repomd::utf8(
                repomd::repomd(repomd::repodata_files(pkgs), with.revision),
            )
            &&& repomd::sorted_pkgs(pkgs).contains(record)
            &&& record.href == path
            &&& record.pkgid == digest::sha256_text(upload.body)
            &&& rpm_repo::route_of(true, None, repo, path, true, signed) == (
            rpm_repo::Route::Stored {
                key,
                content_type: rpm_repo::media_type(path),
                ranged: true,
                no_cache: false,
            })
        }),
{
    reveal_with_fuel(carried_out, 4);
    assert(rpm_repo::path_error(repo, path) is None);
    let key = rpm_repo::package_path(repo, path);
    let sidecar = rpm_repo::sidecar_path(repo, path);
    let full = with_package(store, repo, path, upload);
    let pkgs = described(with.listing, full, read);
    rpm_repo::packages_stay_out_of_reserved_places(repo, path);
    lemma_sidecar_key(repo, path);
    rebuilds_replace_the_metadata(full, repo, pkgs, with.revision, with.signature);
    let after = rebuilt(full, repo, pkgs, with.revision, with.signature);
    assert(uploaded(terms, store, repo, path, upload, with, read) == (Answer::Created, after));
    assert(after.contains_key(key));
    assert(after.contains_key(sidecar));
    let q = sidecar_prefix(repo);
    assert(sidecar.subrange(0, q.len() as int) =~= q);
    assert(with.listing.contains(sidecar));
    let i = choose|i: int| 0 <= i < with.listing.len() && with.listing[i] == sidecar;
    assert(pkgs[i] == record);
    assert(pkgs.contains(record));
    repomd::pkg_order_is_an_order();
    order::lemma_sorted_members(pkgs, repomd::pkg_order(), record);
    rpm_repo::packages_are_served_from_storage(repo, path, signed);
}

/// Once no package is left, each document says that it holds none, and
/// `repomd.xml` still describes all three.
pub proof fn emptied_repositories_are_described(doc: Document)
    ensures
        repomd::sorted_pkgs(Seq::<Pkg>::empty()) == Seq::<Pkg>::empty(),
        repodata::document(doc, Seq::<Pkg>::empty()) == repodata::document_open(doc) + "0"@
            + "\">\n"@ + repodata::document_close(doc),
        repomd::repodata_files(Seq::<Pkg>::empty()).len() == 3,
{
    reveal_strlit("0");
    assert(text::decimal(0) =~= "0"@);
    assert(repodata::packages_in(doc, Seq::<Pkg>::empty()) =~= Seq::<char>::empty());
    assert(repodata::document(doc, Seq::<Pkg>::empty()) =~= repodata::document_open(doc) + "0"@
        + "\">\n"@ + repodata::document_close(doc));
}

} // verus!
