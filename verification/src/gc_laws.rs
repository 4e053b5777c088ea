//! What a garbage collection sweeps, in which order, and how it adds up.

use vstd::prelude::*;

use crate::docker_gc;
use crate::gc::{self, GcSnapshot, Sighting, Verdict};
use crate::registry_gc;
use crate::table::FileMeta;
use crate::text;

verus! {

/// A run finds the orphans of all four detections, and nothing else.
pub proof fn runs_find_the_orphans_of_every_registry(s: GcSnapshot, x: Seq<char>)
    ensures
        gc::all_orphans(s).contains(x) <==> {
            ||| docker_gc::docker_orphans(text::texts(s.docker_keys@), s.docker_files@).contains(x)
            ||| registry_gc::checksum_orphans(
                text::texts(s.checksum_keys@),
                s.primaries@,
            ).contains(x)
            ||| registry_gc::go_orphans(
                text::texts(s.go_keys@),
                text::texts(s.go_keys@),
            ).contains(x)
            ||| registry_gc::cargo_orphans(text::texts(s.cargo_keys@)).contains(x)
        },
        gc::all_orphans(s).len() == docker_gc::docker_orphans(
            text::texts(s.docker_keys@),
            s.docker_files@,
        ).len() + registry_gc::checksum_orphans(
            text::texts(s.checksum_keys@),
            s.primaries@,
        ).len() + registry_gc::go_orphans(
            text::texts(s.go_keys@),
            text::texts(s.go_keys@),
        ).len() + registry_gc::cargo_orphans(text::texts(s.cargo_keys@)).len(),
        gc::all_candidates(s) == docker_gc::blob_count(text::texts(s.docker_keys@))
            + registry_gc::sidecar_count(text::texts(s.checksum_keys@)) + registry_gc::go_count(
            text::texts(s.go_keys@),
        ) + registry_gc::cargo_count(text::texts(s.cargo_keys@)),
{
    let a = docker_gc::docker_orphans(text::texts(s.docker_keys@), s.docker_files@);
    let b = registry_gc::checksum_orphans(text::texts(s.checksum_keys@), s.primaries@);
    let c = registry_gc::go_orphans(text::texts(s.go_keys@), text::texts(s.go_keys@));
    let d = registry_gc::cargo_orphans(text::texts(s.cargo_keys@));
    lemma_in_a_row(a, b, x);
    lemma_in_a_row(a + b, c, x);
    lemma_in_a_row(a + b + c, d, x);
}

/// Of two lists in a row an element is in one or the other.
pub proof fn lemma_in_a_row<T>(a: Seq<T>, b: Seq<T>, x: T)
    ensures
        (a + b).contains(x) <==> a.contains(x) || b.contains(x),
{
    if (a + b).contains(x) {
        let k = choose|k: int| 0 <= k < (a + b).len() && (a + b)[k] == x;
        if k < a.len() {
            assert(a[k] == x);
        } else {
            assert(b[k - a.len()] == x);
        }
    }
    if a.contains(x) {
        let k = choose|k: int| 0 <= k < a.len() && a[k] == x;
        assert((a + b)[k] == x);
    }
    if b.contains(x) {
        let k = choose|k: int| 0 <= k < b.len() && b[k] == x;
        assert((a + b)[a.len() + k] == x);
    }
}

proof fn lemma_part(keys: Seq<Seq<char>>, last: bool)
    ensures
        gc::part(keys, last) == keys.filter(
            |k: Seq<char>| text::has(k, "/manifests/"@) == last,
        ),
    decreases keys.len(),
{
    reveal(Seq::filter);
    if keys.len() > 0 {
        lemma_part(keys.drop_last(), last);
    }
}

/// A sweep takes what lies under no `manifests` directory first, and then what
/// does, each in the order in which it was found.
pub proof fn manifests_are_swept_last_in_order(keys: Seq<Seq<char>>)
    ensures
        gc::sweep_order(keys) == keys.filter(
            |k: Seq<char>| text::has(k, "/manifests/"@) == false,
        ) + keys.filter(|k: Seq<char>| text::has(k, "/manifests/"@) == true),
{
    lemma_part(keys, false);
    lemma_part(keys, true);
}

/// What becomes of an orphan: it is kept where its age is unknown or the grace
/// period since its last change is not over; else a dry run reports it and a
/// real one deletes it.
pub proof fn orphans_are_judged_by_age(meta: FileMeta, now: u64, grace: u64, dry: bool)
    ensures
        gc::verdict(None, now, grace, dry) == Verdict::KeepUnknown,
        grace > 0 && meta.modified + grace > now ==> gc::verdict(Some(meta), now, grace, dry)
            == Verdict::KeepRecent,
        !(grace > 0 && meta.modified + grace > now) && dry ==> gc::verdict(
            Some(meta),
            now,
            grace,
            dry,
        ) == Verdict::Report,
        !(grace > 0 && meta.modified + grace > now) && !dry ==> gc::verdict(
            Some(meta),
            now,
            grace,
            dry,
        ) == Verdict::Delete,
{
}

/// An orphan counts as deleted where a real run deleted it, and its size as
/// freed then and in a dry run; nothing else counts.
pub proof fn swept_orphans_add_up(
    seen: Seq<Sighting>,
    meta: FileMeta,
    deleted: bool,
    now: u64,
    grace: u64,
)
    ensures
        ({
            let known = Sighting { meta: Some(meta), deleted };
            let unknown = Sighting { meta: None, deleted };
            let kept = grace > 0 && meta.modified + grace > now;
            let gone = !kept && deleted;
            &&& gc::deleted_count(seen.push(known), now, grace, false) == gc::deleted_count(
                seen,
                now,
                grace,
                false,
            ) + (if gone {
                1int
            } else {
                0
            })
            &&& gc::freed_bytes(seen.push(known), now, grace, false) == gc::freed_bytes(
                seen,
                now,
                grace,
                false,
            ) + (if gone {
                meta.size as int
            } else {
                0
            })
            &&& gc::deleted_count(seen.push(known), now, grace, true) == gc::deleted_count(
                seen,
                now,
                grace,
                true,
            )
            &&& gc::freed_bytes(seen.push(known), now, grace, true) == gc::freed_bytes(
                seen,
                now,
                grace,
                true,
            ) + (if kept {
                0
            } else {
                meta.size as int
            })
            &&& gc::deleted_count(seen.push(unknown), now, grace, false) == gc::deleted_count(
                seen,
                now,
                grace,
                false,
            )
            &&& gc::freed_bytes(seen.push(unknown), now, grace, false) == gc::freed_bytes(
                seen,
                now,
                grace,
                false,
            )
            &&& gc::freed_bytes(seen.push(unknown), now, grace, true) == gc::freed_bytes(
                seen,
                now,
                grace,
                true,
            )
        }),
        gc::deleted_count(Seq::empty(), now, grace, false) == 0,
        gc::freed_bytes(Seq::empty(), now, grace, false) == 0,
        gc::freed_bytes(Seq::empty(), now, grace, true) == 0,
{
    let known = Sighting { meta: Some(meta), deleted };
    let unknown = Sighting { meta: None, deleted };
    assert(seen.push(known).drop_last() =~= seen);
    assert(seen.push(unknown).drop_last() =~= seen);
    orphans_are_judged_by_age(meta, now, grace, false);
    orphans_are_judged_by_age(meta, now, grace, true);
}

/// Each orphan counts once for the verdict that it came to.
pub proof fn verdicts_are_counted(
    seen: Seq<Sighting>,
    s: Sighting,
    now: u64,
    grace: u64,
    dry: bool,
    v: Verdict,
)
    ensures
        gc::verdict_count(Seq::empty(), now, grace, dry, v) == 0,
        gc::verdict_count(seen.push(s), now, grace, dry, v) == gc::verdict_count(
            seen,
            now,
            grace,
            dry,
            v,
        ) + (if gc::verdict(s.meta, now, grace, dry) == v {
            1int
        } else {
            0
        }),
{
    assert(seen.push(s).drop_last() =~= seen);
}

/// The registries without a detection are these nine.
pub proof fn nine_registries_are_uncovered(name: Seq<char>)
    ensures
        gc::uncovered_names().contains(name) <==> {
            ||| name == "raw"@
            ||| name == "terraform"@
            ||| name == "pub"@
            ||| name == "ansible"@
            ||| name == "nuget"@
            ||| name == "gems"@
            ||| name == "conan"@
            ||| name == "rpm"@
            ||| name == "deb"@
        },
        gc::uncovered_names().len() == 9,
{
    let u = gc::uncovered_names();
    assert(u[0] == "raw"@ && u[1] == "terraform"@ && u[2] == "pub"@ && u[3] == "ansible"@ && u[4]
        == "nuget"@ && u[5] == "gems"@ && u[6] == "conan"@ && u[7] == "rpm"@ && u[8] == "deb"@);
}

/// Of the registries without a detection those that hold files are reported.
pub proof fn registries_with_data_are_reported(v: Seq<(Seq<char>, usize)>)
    ensures
        gc::with_data(v) == v.filter(|c: (Seq<char>, usize)| c.1 > 0),
    decreases v.len(),
{
    reveal(Seq::filter);
    if v.len() > 0 {
        registries_with_data_are_reported(v.drop_last());
    }
}

} // verus!
