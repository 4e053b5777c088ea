//! What the stored values hold: every model shows the fields of its value, each
//! under its own name, and lists show their elements in order.

use vstd::prelude::*;

use crate::collect::{self, Row};
use crate::gc;
use crate::json::{self, Json, JsonTree};
use crate::phantoms;
use crate::proxy_cache::{self, CachedFile};
use crate::repodata;
use crate::repomd::{self, RepodataFile};
use crate::retention::{self, DeletionPlan, RetentionRule, VersionEntry};
use crate::retention_run;
use crate::rpm_package::{self, RpmChange, RpmDependency, RpmFile, RpmHeader};
use crate::rpm_record::{self, ChangelogRecord, DepRecord, FileRecord, PkgRecord};
use crate::rpm_repo::{Answer, ChangeStep, DownloadRoute, Reply, Route, Step};
use crate::sidecar::{self, SidecarVersion};
use crate::table::FileMeta;
use crate::text;

verus! {

/// A version shows its name, keys, time and size.
pub proof fn versions_show_their_fields(v: Seq<VersionEntry>, i: int)
    requires
        0 <= i < v.len(),
    ensures
        retention::versions_of(v).len() == v.len(),
        retention::versions_of(v)[i].name == v[i].name@,
        retention::versions_of(v)[i].keys == text::texts(v[i].keys@),
        retention::versions_of(v)[i].modified == v[i].modified,
        retention::versions_of(v)[i].size == v[i].size,
{
}

/// A planned deletion shows its version, keys, size and reason.
pub proof fn deletions_show_their_fields(v: Seq<DeletionPlan>, i: int)
    requires
        0 <= i < v.len(),
    ensures
        retention::deletions_of(v).len() == v.len(),
        retention::deletions_of(v)[i].version_name == v[i].version_name@,
        retention::deletions_of(v)[i].keys == text::texts(v[i].keys@),
        retention::deletions_of(v)[i].size == v[i].size,
        retention::deletions_of(v)[i].reason == v[i].reason@,
{
}

/// A rule shows its registry, pattern, conditions and excluded tags.
pub proof fn rules_show_their_fields(v: Seq<RetentionRule>, i: int)
    requires
        0 <= i < v.len(),
    ensures
        retention::rules_of(v).len() == v.len(),
        retention::rules_of(v)[i].registry == v[i].registry@,
        v[i].name_glob is None <==> retention::rules_of(v)[i].name_glob is None,
        v[i].name_glob matches Some(g) ==> retention::rules_of(v)[i].name_glob == Some(g@),
        retention::rules_of(v)[i].keep_last == v[i].keep_last,
        retention::rules_of(v)[i].older_than_days == v[i].older_than_days,
        retention::rules_of(v)[i].exclude_tags == text::texts(v[i].exclude_tags@),
{
}

/// Groups, plans and rows show their names and what stands under them.
pub proof fn groups_show_their_fields(
    groups: Seq<(String, Vec<VersionEntry>)>,
    plans: Seq<(String, Vec<DeletionPlan>)>,
    rows: Seq<(String, VersionEntry)>,
    placed: Seq<Row>,
    i: int,
)
    ensures
        0 <= i < groups.len() ==> collect::groups_of(groups).len() == groups.len()
            && collect::groups_of(groups)[i] == (
            groups[i].0@,
            retention::versions_of(groups[i].1@),
        ),
        0 <= i < plans.len() ==> retention_run::plans_of(plans).len() == plans.len()
            && retention_run::plans_of(plans)[i] == (
            plans[i].0@,
            retention::deletions_of(plans[i].1@),
        ),
        0 <= i < rows.len() ==> sidecar::rows_of(rows).len() == rows.len() && sidecar::rows_of(
            rows,
        )[i] == (rows[i].0@, rows[i].1@),
        0 <= i < placed.len() ==> placed[i]@.group == placed[i].group@ && placed[i]@.version
            == placed[i].version@ && placed[i]@.key == placed[i].key@,
{
}

/// Lists of texts show each text in its place.
pub proof fn texts_show_their_characters(v: Seq<String>, i: int)
    requires
        0 <= i < v.len(),
    ensures
        text::texts(v).len() == v.len(),
        text::texts(v)[i] == v[i]@,
{
}

/// A sidecar shows its fields.
pub proof fn sidecars_show_their_fields(s: SidecarVersion)
    ensures
        s@.package == s.package@,
        s@.version == s.version@,
        s@.arch == s.arch@,
        s@.href == s.href@,
        s@.size == s.size,
        s@.modified == s.modified,
        s.placement is None <==> s@.placement is None,
        s.placement matches Some(p) ==> s@.placement == Some(p@),
{
}

/// A cached file shows its key, size and time; listings show keys and metadata.
pub proof fn cached_files_show_their_fields(
    files: Seq<CachedFile>,
    seen: Seq<(CachedFile, bool)>,
    entries: Seq<(String, FileMeta)>,
    counts: Seq<(String, usize)>,
    i: int,
)
    ensures
        0 <= i < files.len() ==> proxy_cache::cached_of(files).len() == files.len()
            && proxy_cache::cached_of(files)[i].key == files[i].key@ && proxy_cache::cached_of(
            files,
        )[i].size == files[i].size && proxy_cache::cached_of(files)[i].modified
            == files[i].modified,
        0 <= i < seen.len() ==> proxy_cache::seen_of(seen).len() == seen.len()
            && proxy_cache::seen_of(seen)[i] == (seen[i].0@, seen[i].1),
        0 <= i < entries.len() ==> proxy_cache::entries_of(entries).len() == entries.len()
            && proxy_cache::entries_of(entries)[i] == (entries[i].0@, entries[i].1),
        0 <= i < counts.len() ==> gc::counts_of(counts).len() == counts.len() && gc::counts_of(
            counts,
        )[i] == (counts[i].0@, counts[i].1),
{
}

/// Where nothing is evicted, the size is told, and nothing has gone.
pub proof fn idle_evictions_free_nothing(total: u64)
    ensures
        proxy_cache::nothing_evicted(total).total_bytes == total,
        proxy_cache::nothing_evicted(total).evicted_files == 0,
        proxy_cache::nothing_evicted(total).bytes_freed == 0,
{
}

/// A compressed document shows its fields.
pub proof fn documents_show_their_fields(v: Seq<RepodataFile>, i: int)
    requires
        0 <= i < v.len(),
    ensures
        repomd::meta_files(v).len() == v.len(),
        repomd::meta_files(v)[i].kind == v[i].kind@,
        repomd::meta_files(v)[i].href == v[i].href@,
        repomd::meta_files(v)[i].checksum == v[i].checksum@,
        repomd::meta_files(v)[i].open_checksum == v[i].open_checksum@,
        repomd::meta_files(v)[i].size == v[i].size,
        repomd::meta_files(v)[i].open_size == v[i].open_size,
        repomd::meta_files(v)[i].gz == v[i].gz@,
{
}

/// A write shows its key and content.
pub proof fn writes_show_key_and_content(v: Seq<(String, Vec<u8>)>, i: int)
    requires
        0 <= i < v.len(),
    ensures
        repomd::writes_of(v).len() == v.len(),
        repomd::writes_of(v)[i] == (v[i].0@, v[i].1@),
{
}

/// The records of dependencies, files and changes show their fields.
pub proof fn entries_show_their_fields(d: DepRecord, f: FileRecord, c: ChangelogRecord)
    ensures
        d@.name == d.name@,
        d@.flags == rpm_package::text_of(d.flags),
        d@.epoch == rpm_package::text_of(d.epoch),
        d@.ver == rpm_package::text_of(d.ver),
        d@.rel == rpm_package::text_of(d.rel),
        d@.pre == d.pre,
        f@.path == f.path@,
        f@.kind == f.kind@,
        c@.author == c.author@,
        c@.date == c.date,
        c@.text == c.text@,
{
}

/// The record of a package shows its fields, and its lists in order.
pub proof fn records_show_their_fields(v: Seq<PkgRecord>, i: int, k: int)
    requires
        0 <= i < v.len(),
    ensures
        repodata::pkgs_of(v).len() == v.len(),
        ({
            let p = v[i];
            let shown = repodata::pkgs_of(v)[i];
            &&& shown.name == p.name@ && shown.epoch == p.epoch && shown.version == p.version@
            &&& shown.release == p.release@ && shown.arch == p.arch@
            &&& shown.summary == p.summary@ && shown.description == p.description@
            &&& shown.packager == p.packager@ && shown.url == p.url@
            &&& shown.license == p.license@ && shown.vendor == p.vendor@
            &&& shown.group == p.group@ && shown.buildhost == p.buildhost@
            &&& shown.sourcerpm == p.sourcerpm@
            &&& shown.build_time == p.build_time && shown.file_time == p.file_time
            &&& shown.size_package == p.size_package
            &&& shown.size_installed == p.size_installed
            &&& shown.header_start == p.header_start && shown.header_end == p.header_end
            &&& shown.href == p.href@ && shown.pkgid == p.pkgid@
            &&& shown.provides.len() == p.provides@.len()
            &&& shown.requires.len() == p.requires@.len()
            &&& shown.conflicts.len() == p.conflicts@.len()
            &&& shown.obsoletes.len() == p.obsoletes@.len()
            &&& shown.files.len() == p.files@.len()
            &&& shown.changelogs.len() == p.changelogs@.len()
            &&& 0 <= k < p.provides@.len() ==> shown.provides[k] == p.provides@[k]@
            &&& 0 <= k < p.requires@.len() ==> shown.requires[k] == p.requires@[k]@
            &&& 0 <= k < p.conflicts@.len() ==> shown.conflicts[k] == p.conflicts@[k]@
            &&& 0 <= k < p.obsoletes@.len() ==> shown.obsoletes[k] == p.obsoletes@[k]@
            &&& 0 <= k < p.files@.len() ==> shown.files[k] == p.files@[k]@
            &&& 0 <= k < p.changelogs@.len() ==> shown.changelogs[k] == p.changelogs@[k]@
        }),
{
}

/// What is read from a package shows its fields.
pub proof fn read_entries_show_their_fields(d: RpmDependency, f: RpmFile, c: RpmChange)
    ensures
        d@.name == d.name@,
        d@.flags == d.flags,
        d@.version == d.version@,
        f@.path == f.path@,
        f@.flags == f.flags,
        f@.is_dir == f.is_dir,
        c@.author == c.author@,
        c@.date == c.date,
        c@.text == c.text@,
{
}

/// Optional texts and texts or errors show what they hold.
pub proof fn optional_values_show_what_they_hold(
    s: Option<String>,
    r: Result<String, String>,
    bytes: Option<Vec<u8>>,
)
    ensures
        rpm_package::text_of(s) is Some <==> s is Some,
        s matches Some(t) ==> rpm_package::text_of(s) == Some(t@),
        rpm_package::text_or_error(r) is Ok <==> r is Ok,
        r matches Ok(t) ==> rpm_package::text_or_error(r) == Ok::<Seq<char>, Seq<char>>(t@),
        r matches Err(e) ==> rpm_package::text_or_error(r) == Err::<Seq<char>, Seq<char>>(e@),
        phantoms::bytes_of(bytes) is Some <==> bytes is Some,
        bytes matches Some(b) ==> phantoms::bytes_of(bytes) == Some(b@),
{
}

/// The header of a package shows its fields, and its lists in order.
pub proof fn headers_show_their_fields(h: RpmHeader, k: int)
    ensures
        h@.name == rpm_package::text_or_error(h.name),
        h@.version == rpm_package::text_or_error(h.version),
        h@.release == rpm_package::text_or_error(h.release),
        h@.arch == rpm_package::text_of(h.arch),
        h@.summary == rpm_package::text_of(h.summary),
        h@.description == rpm_package::text_of(h.description),
        h@.packager == rpm_package::text_of(h.packager),
        h@.url == rpm_package::text_of(h.url),
        h@.license == rpm_package::text_of(h.license),
        h@.vendor == rpm_package::text_of(h.vendor),
        h@.group == rpm_package::text_of(h.group),
        h@.buildhost == rpm_package::text_of(h.buildhost),
        h@.sourcerpm == rpm_package::text_of(h.sourcerpm),
        h@.epoch == h.epoch,
        h@.build_time == h.build_time,
        h@.installed_size == h.installed_size,
        h@.header_range == h.header_range,
        h.files is Ok <==> h@.files is Ok,
        h.files matches Err(e) ==> h@.files->Err_0 == e@,
        h.files matches Ok(v) ==> h@.files->Ok_0.len() == v@.len() && (0 <= k < v@.len()
            ==> h@.files->Ok_0[k] == v@[k]@),
        h.changelog is Some <==> h@.changelog is Some,
        h.changelog matches Some(v) ==> h@.changelog->0.len() == v@.len() && (0 <= k < v@.len()
            ==> h@.changelog->0[k] == v@[k]@),
        h.provides is Some <==> h@.provides is Some,
        h.provides matches Some(v) ==> h@.provides->0.len() == v@.len() && (0 <= k < v@.len()
            ==> h@.provides->0[k] == v@[k]@),
        h.requires is Some <==> h@.requires is Some,
        h.requires matches Some(v) ==> h@.requires->0.len() == v@.len() && (0 <= k < v@.len()
            ==> h@.requires->0[k] == v@[k]@),
        h.conflicts is Some <==> h@.conflicts is Some,
        h.conflicts matches Some(v) ==> h@.conflicts->0.len() == v@.len() && (0 <= k < v@.len()
            ==> h@.conflicts->0[k] == v@[k]@),
        h.obsoletes is Some <==> h@.obsoletes is Some,
        h.obsoletes matches Some(v) ==> h@.obsoletes->0.len() == v@.len() && (0 <= k < v@.len()
            ==> h@.obsoletes->0[k] == v@[k]@),
{
}

/// An answer is of the kind of the reply, with its text.
pub proof fn replies_show_their_answer(r: Reply)
    ensures
        r is NotFound <==> r@ is NotFound,
        r is Missing <==> r@ is Missing,
        r is ProxiedConflict <==> r@ is ProxiedConflict,
        r is BadRequest <==> r@ is BadRequest,
        r is Rejected <==> r@ is Rejected,
        r is Forbidden <==> r@ is Forbidden,
        r is TooLarge <==> r@ is TooLarge,
        r is Unprocessable <==> r@ is Unprocessable,
        r is ServerError <==> r@ is ServerError,
        r is Failed <==> r@ is Failed,
        r is Created <==> r@ is Created,
        r is NoContent <==> r@ is NoContent,
        r matches Reply::Missing(s) ==> r@ == Answer::Missing(s@),
        r matches Reply::Rejected(s) ==> r@ == Answer::Rejected(s@),
        r matches Reply::TooLarge(s) ==> r@ == Answer::TooLarge(s@),
        r matches Reply::Unprocessable(s) ==> r@ == Answer::Unprocessable(s@),
        r matches Reply::Failed(s) ==> r@ == Answer::Failed(s@),
{
}

/// A step is of its own kind, and the last one gives its answer.
pub proof fn steps_show_their_kind(s: ChangeStep)
    ensures
        s is StorePackage <==> s@ is StorePackage,
        s is StoreSidecar <==> s@ is StoreSidecar,
        s is RebuildStored <==> s@ is RebuildStored,
        s is DeletePackage <==> s@ is DeletePackage,
        s is DeleteSidecar <==> s@ is DeleteSidecar,
        s is RebuildDeleted <==> s@ is RebuildDeleted,
        s is Done <==> s@ is Done,
        s matches ChangeStep::Done(r) ==> s@ == Step::Done(r@),
{
}

/// A route is of its own kind, with its fields.
pub proof fn routes_show_their_fields(d: DownloadRoute)
    ensures
        d is SigningKey <==> d@ is SigningKey,
        d matches DownloadRoute::Answer(r) ==> d@ == Route::Answer(r@),
        d matches DownloadRoute::Upstream { key, url, immutable, content_type } ==> d@ == (
        Route::Upstream { key: key@, url: url@, immutable, content_type: content_type@ }),
        d matches DownloadRoute::Stored { key, content_type, ranged, no_cache } ==> d@ == (
        Route::Stored { key: key@, content_type: content_type@, ranged, no_cache }),
{
}

proof fn lemma_trees(v: Seq<Json>, i: int)
    requires
        0 <= i < v.len(),
    ensures
        json::trees(v).len() == v.len(),
        json::trees(v)[i] == v[i]@,
    decreases v.len(),
{
    lemma_trees_len(v.drop_last());
    if i < v.len() - 1 {
        lemma_trees(v.drop_last(), i);
    }
}

proof fn lemma_trees_len(v: Seq<Json>)
    ensures
        json::trees(v).len() == v.len(),
    decreases v.len(),
{
    if v.len() > 0 {
        lemma_trees_len(v.drop_last());
    }
}

proof fn lemma_members(m: Seq<(String, Json)>, i: int)
    requires
        0 <= i < m.len(),
    ensures
        json::members(m).len() == m.len(),
        json::members(m)[i] == (m[i].0@, m[i].1@),
    decreases m.len(),
{
    lemma_members_len(m.drop_last());
    if i < m.len() - 1 {
        lemma_members(m.drop_last(), i);
    }
}

proof fn lemma_members_len(m: Seq<(String, Json)>)
    ensures
        json::members(m).len() == m.len(),
    decreases m.len(),
{
    if m.len() > 0 {
        lemma_members_len(m.drop_last());
    }
}

/// A document shows its value: plain values as they are, arrays and objects
/// with their elements and members in order.
pub proof fn documents_show_their_value(j: Json, i: int)
    ensures
        j is Null <==> j@ is Null,
        j matches Json::Bool(b) ==> j@ == JsonTree::Bool(b),
        j matches Json::Unsigned(n) ==> j@ == JsonTree::Unsigned(n),
        j matches Json::Negative(n) ==> j@ == JsonTree::Negative(n),
        j matches Json::OtherNumber(n) ==> j@ == JsonTree::OtherNumber(n),
        j matches Json::Text(s) ==> j@ == JsonTree::Text(s@),
        j matches Json::Array(v) ==> (j@ matches JsonTree::Array(t) && t.len() == v@.len() && (0
            <= i < v@.len() ==> t[i] == v@[i]@)),
        j matches Json::Object(m) ==> (j@ matches JsonTree::Object(t) && t.len() == m@.len() && (0
            <= i < m@.len() ==> t[i] == (m@[i].0@, m@[i].1@))),
{
    match j {
        Json::Array(v) => {
            lemma_trees_len(v@);
            if 0 <= i < v@.len() {
                lemma_trees(v@, i);
            }
        },
        Json::Object(m) => {
            lemma_members_len(m@);
            if 0 <= i < m@.len() {
                lemma_members(m@, i);
            }
        },
        _ => {},
    }
}

} // verus!
