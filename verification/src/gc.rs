//! A garbage collection run.
//!
//! The detections of all registries are put together into one list of orphans,
//! blobs before manifests. Each orphan is then judged by its age: one that is
//! younger than the grace period, or whose age is unknown, is kept.

use vstd::prelude::*;

use crate::docker_gc;
use crate::proxy_cache::ProxyCacheEviction;
use crate::registry_gc;
use crate::table::{FileMeta, FileTable, StatTable};
use crate::text;

verus! {

/// Outcome of a garbage collection run.
#[derive(Debug)]
pub struct GcResult {
    pub total_candidates: usize,
    pub orphaned: usize,
    pub deleted: usize,
    pub bytes_freed: u64,
    pub orphan_keys: Vec<String>,
    /// Registries with data but no orphan detection: name and file count.
    pub uncovered: Vec<(String, usize)>,
    /// Phantom version entries cleaned from metadata files.
    pub metadata_phantoms_removed: usize,
    /// Orphans kept because they are younger than the grace period.
    pub skipped_recent: usize,
    /// Orphans kept because their age could not be determined.
    pub stat_failures: usize,
    /// Proxy-cache eviction result.
    pub proxy_cache_eviction: ProxyCacheEviction,
}

/// What was read from storage for the detections.
pub struct GcSnapshot {
    /// Keys under `docker/`.
    pub docker_keys: Vec<String>,
    /// The Docker manifests that could be read.
    pub docker_files: FileTable,
    /// Keys under `maven/`, `npm/` and `pypi/`, in this order.
    pub checksum_keys: Vec<String>,
    /// The artifacts of their sidecars that are in storage.
    pub primaries: StatTable,
    /// Keys under `go/`.
    pub go_keys: Vec<String>,
    /// Keys under `cargo/`.
    pub cargo_keys: Vec<String>,
}

/// The orphans of a run.
pub struct GcPlan {
    /// How many keys were candidates.
    pub total_candidates: usize,
    /// The orphans in the order in which they are swept.
    pub orphans: Vec<String>,
}

/// The key is swept after the others: it lies under a manifests directory.
pub open spec fn swept_last(key: Seq<char>) -> bool {
    text::has(key, "/manifests/"@)
}

/// The keys for which `swept_last` is `last`, in their order.
pub open spec fn part(keys: Seq<Seq<char>>, last: bool) -> Seq<Seq<char>>
    decreases keys.len(),
{
    if keys.len() == 0 {
        Seq::empty()
    } else {
        let before = part(keys.drop_last(), last);
        if swept_last(keys.last()) == last {
            before.push(keys.last())
        } else {
            before
        }
    }
}

/// The order of the sweep: manifests last, so that an interrupted run leaves no
/// manifest that refers to a swept blob.
pub open spec fn sweep_order(keys: Seq<Seq<char>>) -> Seq<Seq<char>> {
    part(keys, false) + part(keys, true)
}

/// All orphans, as the detections give them.
pub open spec fn all_orphans(s: GcSnapshot) -> Seq<Seq<char>> {
    let go = text::texts(s.go_keys@);
    docker_gc::docker_orphans(text::texts(s.docker_keys@), s.docker_files@)
        + registry_gc::checksum_orphans(text::texts(s.checksum_keys@), s.primaries@)
        + registry_gc::go_orphans(go, go) + registry_gc::cargo_orphans(
        text::texts(s.cargo_keys@),
    )
}

/// How many keys were candidates.
pub open spec fn all_candidates(s: GcSnapshot) -> nat {
    docker_gc::blob_count(text::texts(s.docker_keys@)) + registry_gc::sidecar_count(
        text::texts(s.checksum_keys@),
    ) + registry_gc::go_count(text::texts(s.go_keys@)) + registry_gc::cargo_count(
        text::texts(s.cargo_keys@),
    )
}

/// Puts the keys of the part behind what is there.
fn push_part(keys: &Vec<String>, last: bool, out: &mut Vec<String>)
    ensures
        text::texts(final(out)@) == text::texts(old(out)@) + part(text::texts(keys@), last),
{
    let ghost all = text::texts(keys@);
    let ghost start = text::texts(out@);
    let mut i: usize = 0;
    proof {
        assert(start + part(all.take(0), last) =~= start);
    }
    while i < keys.len()
        invariant
            i <= keys@.len(),
            all == text::texts(keys@),
            text::texts(out@) == start + part(all.take(i as int), last),
        decreases keys@.len() - i,
    {
        let ghost before = out@;
        proof {
            assert(all.take(i + 1).drop_last() =~= all.take(i as int));
            assert(all.take(i + 1).last() == keys@[i as int]@);
        }
        if text::contains(keys[i].as_str(), "/manifests/") == last {
            out.push(keys[i].clone());
            proof {
                let so_far = part(all.take(i as int), last);
                assert(text::texts(out@) =~= text::texts(before).push(keys@[i as int]@));
                assert((start + so_far).push(all[i as int]) =~= start + so_far.push(
                    all[i as int],
                ));
            }
        }
        i = i + 1;
    }
    proof {
        assert(all.take(i as int) =~= all);
    }
}

/// The keys in the order of the sweep.
pub fn order_for_sweep(keys: &Vec<String>) -> (r: Vec<String>)
    ensures
        text::texts(r@) == sweep_order(text::texts(keys@)),
{
    let mut r: Vec<String> = Vec::new();
    push_part(keys, false, &mut r);
    push_part(keys, true, &mut r);
    proof {
        let all = text::texts(keys@);
        assert(text::texts(Seq::<String>::empty()) =~= Seq::<Seq<char>>::empty());
        assert(text::texts(r@) =~= sweep_order(all));
    }
    r
}

fn append_orphans(out: &mut Vec<String>, more: Vec<String>)
    ensures
        text::texts(final(out)@) == text::texts(old(out)@) + text::texts(more@),
{
    let mut more = more;
    let ghost a = out@;
    let ghost b = more@;
    out.append(&mut more);
    proof {
        assert(out@ =~= a + b);
        assert(text::texts(out@) =~= text::texts(a) + text::texts(b));
    }
}

/// Detects the orphans of all registries. There is no plan where the number of
/// candidates does not fit the machine.
pub fn plan_gc(snapshot: &GcSnapshot) -> (r: Option<GcPlan>)
    ensures
        match r {
            Some(plan) => plan.total_candidates == all_candidates(*snapshot) && text::texts(
                plan.orphans@,
            ) == sweep_order(all_orphans(*snapshot)),
            None => all_candidates(*snapshot) > usize::MAX,
        },
{
    let docker = docker_gc::detect_docker_orphans(&snapshot.docker_keys, &snapshot.docker_files);
    let checksums = registry_gc::detect_checksum_orphans(
        &snapshot.checksum_keys,
        &snapshot.primaries,
    );
    let go = registry_gc::detect_go_incomplete_versions(&snapshot.go_keys);
    let cargo = registry_gc::detect_cargo_orphans(&snapshot.cargo_keys);
    let total: usize = docker.total.checked_add(checksums.total)?;
    let total: usize = total.checked_add(go.total)?;
    let total: usize = total.checked_add(cargo.total)?;
    let mut found = docker.orphans;
    append_orphans(&mut found, checksums.orphans);
    append_orphans(&mut found, go.orphans);
    append_orphans(&mut found, cargo.orphans);
    Some(GcPlan { total_candidates: total, orphans: order_for_sweep(&found) })
}

/// What becomes of an orphan.
#[derive(Debug, Clone, Copy, PartialEq, Eq, Structural)]
pub enum Verdict {
    /// Kept: its age is unknown.
    KeepUnknown,
    /// Kept: it is younger than the grace period.
    KeepRecent,
    /// Reported by a dry run.
    Report,
    /// Deleted.
    Delete,
}

/// The orphan is younger than the grace period. One from the future is.
pub open spec fn is_recent(meta: FileMeta, now: u64, grace: u64) -> bool {
    grace > 0 && (now <= meta.modified || now - meta.modified < grace)
}

/// What becomes of an orphan of which this is known.
pub open spec fn verdict(meta: Option<FileMeta>, now: u64, grace: u64, dry_run: bool) -> Verdict {
    match meta {
        None => Verdict::KeepUnknown,
        Some(m) => if is_recent(m, now, grace) {
            Verdict::KeepRecent
        } else if dry_run {
            Verdict::Report
        } else {
            Verdict::Delete
        },
    }
}

/// Judges an orphan by what storage knows of it.
pub fn judge_orphan(meta: Option<FileMeta>, now: u64, grace_secs: u64, dry_run: bool) -> (r:
    Verdict)
    ensures
        r == verdict(meta, now, grace_secs, dry_run),
{
    match meta {
        None => Verdict::KeepUnknown,
        Some(m) => if grace_secs > 0 && now.saturating_sub(m.modified) < grace_secs {
            Verdict::KeepRecent
        } else if dry_run {
            Verdict::Report
        } else {
            Verdict::Delete
        },
    }
}

/// The counts of a sweep.
#[derive(Debug, Clone, Copy, PartialEq, Eq, Structural)]
pub struct Tally {
    pub deleted: usize,
    pub bytes_freed: u64,
    pub skipped_recent: usize,
    pub stat_failures: usize,
}

/// What the sweep saw of one orphan: what storage knew of it, and whether its
/// deletion, if it came to one, succeeded.
#[derive(Debug, Clone, Copy, PartialEq, Eq, Structural)]
pub struct Sighting {
    pub meta: Option<FileMeta>,
    pub deleted: bool,
}

/// The orphan is gone, or would be but for a dry run.
pub open spec fn counts_as_freed(s: Sighting, now: u64, grace: u64, dry_run: bool) -> bool {
    match verdict(s.meta, now, grace, dry_run) {
        Verdict::Report => true,
        Verdict::Delete => s.deleted,
        _ => false,
    }
}

/// How many of the orphans were deleted.
pub open spec fn deleted_count(seen: Seq<Sighting>, now: u64, grace: u64, dry_run: bool) -> nat
    decreases seen.len(),
{
    if seen.len() == 0 {
        0
    } else {
        deleted_count(seen.drop_last(), now, grace, dry_run) + if verdict(
            seen.last().meta,
            now,
            grace,
            dry_run,
        ) == Verdict::Delete && seen.last().deleted {
            1nat
        } else {
            0
        }
    }
}

/// The size of the orphans that are gone, or would be but for a dry run.
pub open spec fn freed_bytes(seen: Seq<Sighting>, now: u64, grace: u64, dry_run: bool) -> nat
    decreases seen.len(),
{
    if seen.len() == 0 {
        0
    } else {
        freed_bytes(seen.drop_last(), now, grace, dry_run) + if counts_as_freed(
            seen.last(),
            now,
            grace,
            dry_run,
        ) {
            seen.last().meta->0.size as nat
        } else {
            0
        }
    }
}

/// How many of the orphans came to the verdict.
pub open spec fn verdict_count(
    seen: Seq<Sighting>,
    now: u64,
    grace: u64,
    dry_run: bool,
    v: Verdict,
) -> nat
    decreases seen.len(),
{
    if seen.len() == 0 {
        0
    } else {
        verdict_count(seen.drop_last(), now, grace, dry_run, v) + if verdict(
            seen.last().meta,
            now,
            grace,
            dry_run,
        ) == v {
            1nat
        } else {
            0
        }
    }
}

/// The counts of a sweep, from what it saw of each orphan. There are none
/// where the freed bytes do not fit in 64 bits.
pub fn tally_sweep(seen: &Vec<Sighting>, now: u64, grace_secs: u64, dry_run: bool) -> (r: Option<
    Tally,
>)
    ensures
        match r {
            Some(t) => {
                &&& t.deleted == deleted_count(seen@, now, grace_secs, dry_run)
                &&& t.bytes_freed == freed_bytes(seen@, now, grace_secs, dry_run)
                &&& t.skipped_recent == verdict_count(
                    seen@,
                    now,
                    grace_secs,
                    dry_run,
                    Verdict::KeepRecent,
                )
                &&& t.stat_failures == verdict_count(
                    seen@,
                    now,
                    grace_secs,
                    dry_run,
                    Verdict::KeepUnknown,
                )
            },
            None => freed_bytes(seen@, now, grace_secs, dry_run) > u64::MAX,
        },
{
    let mut t = Tally { deleted: 0, bytes_freed: 0, skipped_recent: 0, stat_failures: 0 };
    let mut i: usize = 0;
    while i < seen.len()
        invariant
            i <= seen@.len(),
            t.deleted <= i,
            t.skipped_recent <= i,
            t.stat_failures <= i,
            t.deleted == deleted_count(seen@.take(i as int), now, grace_secs, dry_run),
            t.bytes_freed == freed_bytes(seen@.take(i as int), now, grace_secs, dry_run),
            t.skipped_recent == verdict_count(
                seen@.take(i as int),
                now,
                grace_secs,
                dry_run,
                Verdict::KeepRecent,
            ),
            t.stat_failures == verdict_count(
                seen@.take(i as int),
                now,
                grace_secs,
                dry_run,
                Verdict::KeepUnknown,
            ),
        decreases seen@.len() - i,
    {
        proof {
            assert(seen@.take(i + 1).drop_last() =~= seen@.take(i as int));
            lemma_freed_grows(seen@, now, grace_secs, dry_run, i + 1);
        }
        let s = seen[i];
        match judge_orphan(s.meta, now, grace_secs, dry_run) {
            Verdict::KeepUnknown => {
                t.stat_failures = t.stat_failures + 1;
            },
            Verdict::KeepRecent => {
                t.skipped_recent = t.skipped_recent + 1;
            },
            Verdict::Report => {
                if let Some(m) = s.meta {
                    t.bytes_freed = t.bytes_freed.checked_add(m.size)?;
                }
            },
            Verdict::Delete => {
                if s.deleted {
                    t.deleted = t.deleted + 1;
                    if let Some(m) = s.meta {
                        t.bytes_freed = t.bytes_freed.checked_add(m.size)?;
                    }
                }
            },
        }
        i = i + 1;
    }
    proof {
        assert(seen@.take(i as int) =~= seen@);
    }
    Some(t)
}

proof fn lemma_freed_grows(seen: Seq<Sighting>, now: u64, grace: u64, dry_run: bool, n: int)
    requires
        0 <= n <= seen.len(),
    ensures
        freed_bytes(seen.take(n), now, grace, dry_run) <= freed_bytes(seen, now, grace, dry_run),
    decreases seen.len(),
{
    if n == seen.len() {
        assert(seen.take(n) =~= seen);
    } else {
        lemma_freed_grows(seen.drop_last(), now, grace, dry_run, n);
        assert(seen.drop_last().take(n) =~= seen.take(n));
    }
}

/// The registries without an orphan detection.
pub open spec fn uncovered_names() -> Seq<Seq<char>> {
    seq![
        "raw"@,
        "terraform"@,
        "pub"@,
        "ansible"@,
        "nuget"@,
        "gems"@,
        "conan"@,
        "rpm"@,
        "deb"@,
    ]
}

/// The registries without an orphan detection.
pub fn uncovered_registries() -> (r: Vec<String>)
    ensures
        text::texts(r@) == uncovered_names(),
{
    let mut r: Vec<String> = Vec::new();
    r.push("raw".to_owned());
    r.push("terraform".to_owned());
    r.push("pub".to_owned());
    r.push("ansible".to_owned());
    r.push("nuget".to_owned());
    r.push("gems".to_owned());
    r.push("conan".to_owned());
    r.push("rpm".to_owned());
    r.push("deb".to_owned());
    proof {
        assert(text::texts(r@) =~= uncovered_names());
    }
    r
}

/// What a list of registries with counts holds.
pub open spec fn counts_of(v: Seq<(String, usize)>) -> Seq<(Seq<char>, usize)> {
    v.map_values(|c: (String, usize)| (c.0@, c.1))
}

/// The registries that hold files, with how many.
pub open spec fn with_data(v: Seq<(Seq<char>, usize)>) -> Seq<(Seq<char>, usize)>
    decreases v.len(),
{
    if v.len() == 0 {
        Seq::empty()
    } else {
        let before = with_data(v.drop_last());
        if v.last().1 > 0 {
            before.push(v.last())
        } else {
            before
        }
    }
}

/// Reports the registries that hold files, given how many each holds.
pub fn report_uncovered(counts: &Vec<(String, usize)>) -> (r: Vec<(String, usize)>)
    ensures
        counts_of(r@) == with_data(counts_of(counts@)),
{
    let ghost all = counts_of(counts@);
    let mut r: Vec<(String, usize)> = Vec::new();
    let mut i: usize = 0;
    proof {
        assert(counts_of(r@) =~= with_data(all.take(0)));
    }
    while i < counts.len()
        invariant
            i <= counts@.len(),
            all == counts_of(counts@),
            counts_of(r@) == with_data(all.take(i as int)),
        decreases counts@.len() - i,
    {
        let ghost before = r@;
        proof {
            assert(all.take(i + 1).drop_last() =~= all.take(i as int));
        }
        if counts[i].1 > 0 {
            r.push((counts[i].0.clone(), counts[i].1));
            proof {
                assert(counts_of(r@) =~= counts_of(before).push(all[i as int]));
            }
        }
        i = i + 1;
    }
    proof {
        assert(all.take(i as int) =~= all);
    }
    r
}

/// Puts the outcome of a run together.
pub fn gc_result(
    plan: GcPlan,
    tally: Tally,
    metadata_phantoms_removed: usize,
    proxy_cache_eviction: ProxyCacheEviction,
    uncovered: Vec<(String, usize)>,
) -> (r: GcResult)
    ensures
        r.total_candidates == plan.total_candidates,
        r.orphaned == plan.orphans@.len(),
        r.orphan_keys == plan.orphans,
        r.deleted == tally.deleted,
        r.bytes_freed == tally.bytes_freed,
        r.skipped_recent == tally.skipped_recent,
        r.stat_failures == tally.stat_failures,
        r.metadata_phantoms_removed == metadata_phantoms_removed,
        r.proxy_cache_eviction == proxy_cache_eviction,
        r.uncovered == uncovered,
{
    GcResult {
        total_candidates: plan.total_candidates,
        orphaned: plan.orphans.len(),
        deleted: tally.deleted,
        bytes_freed: tally.bytes_freed,
        orphan_keys: plan.orphans,
        uncovered,
        metadata_phantoms_removed,
        skipped_recent: tally.skipped_recent,
        stat_failures: tally.stat_failures,
        proxy_cache_eviction,
    }
}

/// An orphan younger than the grace period is never deleted, and neither is
/// one of unknown age.
pub proof fn grace_protects(meta: Option<FileMeta>, now: u64, grace: u64, dry_run: bool)
    requires
        match meta {
            Some(m) => grace > 0 && m.modified + grace > now,
            None => true,
        },
    ensures
        verdict(meta, now, grace, dry_run) != Verdict::Delete,
        verdict(meta, now, grace, dry_run) != Verdict::Report,
{
}

/// Without a grace period every orphan of known age goes, however young.
pub proof fn no_grace_spares_none(meta: FileMeta, now: u64)
    ensures
        verdict(Some(meta), now, 0, false) == Verdict::Delete,
{
}

/// A dry run reports exactly what a real one would delete.
pub proof fn dry_run_previews(meta: Option<FileMeta>, now: u64, grace: u64)
    ensures
        verdict(meta, now, grace, true) == Verdict::Report <==> verdict(meta, now, grace, false)
            == Verdict::Delete,
        verdict(meta, now, grace, true) != Verdict::Delete,
{
}

/// A dry run deletes nothing, and frees on paper what a run would free whose
/// deletions all succeed.
pub proof fn dry_run_deletes_nothing(seen: Seq<Sighting>, now: u64, grace: u64)
    requires
        forall|i: int| 0 <= i < seen.len() ==> (#[trigger] seen[i]).deleted,
    ensures
        deleted_count(seen, now, grace, true) == 0,
        freed_bytes(seen, now, grace, true) == freed_bytes(seen, now, grace, false),
    decreases seen.len(),
{
    if seen.len() > 0 {
        let front = seen.drop_last();
        assert forall|i: int| 0 <= i < front.len() implies (#[trigger] front[i]).deleted by {
            assert(seen[i].deleted);
        }
        assert(seen[seen.len() - 1].deleted);
        dry_run_deletes_nothing(front, now, grace);
    }
}

/// Every orphan is deleted, kept, reported, or failed to delete.
pub proof fn every_orphan_is_accounted_for(seen: Seq<Sighting>, now: u64, grace: u64, dry_run: bool)
    ensures
        verdict_count(seen, now, grace, dry_run, Verdict::KeepUnknown) + verdict_count(
            seen,
            now,
            grace,
            dry_run,
            Verdict::KeepRecent,
        ) + verdict_count(seen, now, grace, dry_run, Verdict::Report) + verdict_count(
            seen,
            now,
            grace,
            dry_run,
            Verdict::Delete,
        ) == seen.len(),
        deleted_count(seen, now, grace, dry_run) <= verdict_count(
            seen,
            now,
            grace,
            dry_run,
            Verdict::Delete,
        ),
    decreases seen.len(),
{
    if seen.len() > 0 {
        every_orphan_is_accounted_for(seen.drop_last(), now, grace, dry_run);
    }
}

proof fn lemma_part(keys: Seq<Seq<char>>, last: bool)
    ensures
        forall|i: int|
            0 <= i < part(keys, last).len() ==> swept_last(#[trigger] part(keys, last)[i]) == last,
        part(keys, true).len() + part(keys, false).len() == keys.len(),
        part(keys, true).to_multiset().add(part(keys, false).to_multiset())
            == keys.to_multiset(),
    decreases keys.len(),
{
    broadcast use vstd::seq_lib::group_to_multiset_ensures;

    if keys.len() > 0 {
        let front = keys.drop_last();
        lemma_part(front, last);
        assert(keys =~= front.push(keys.last()));
        let a = part(front, true).to_multiset();
        let b = part(front, false).to_multiset();
        if swept_last(keys.last()) {
            assert(a.insert(keys.last()).add(b) =~= a.add(b).insert(keys.last()));
        } else {
            assert(a.add(b.insert(keys.last())) =~= a.add(b).insert(keys.last()));
        }
        assert(part(keys, true).to_multiset().add(part(keys, false).to_multiset())
            =~= keys.to_multiset());
    } else {
        assert(part(keys, true).to_multiset().add(part(keys, false).to_multiset())
            =~= keys.to_multiset());
    }
}

/// The sweep takes every orphan once, and no blob after a manifest.
pub proof fn blobs_are_swept_before_manifests(keys: Seq<Seq<char>>)
    ensures
        sweep_order(keys).to_multiset() == keys.to_multiset(),
        forall|i: int, j: int|
            0 <= i < j < sweep_order(keys).len() && swept_last(#[trigger] sweep_order(keys)[i])
                ==> swept_last(#[trigger] sweep_order(keys)[j]),
{
    lemma_part(keys, true);
    lemma_part(keys, false);
    let a = part(keys, false);
    let b = part(keys, true);
    vstd::seq_lib::lemma_multiset_commutative(a, b);
    assert(b.to_multiset().add(a.to_multiset()) =~= a.to_multiset().add(b.to_multiset()));
    assert forall|i: int, j: int|
        0 <= i < j < (a + b).len() && swept_last(#[trigger] (a + b)[i]) implies swept_last(
        #[trigger] (a + b)[j],
    ) by {
        if i < a.len() {
            assert((a + b)[i] == a[i]);
        }
        assert((a + b)[j] == b[j - a.len()]);
    }
}

} // verus!
