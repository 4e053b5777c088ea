//! A retention run over all registries.
//!
//! The run plans every group under its rule, deletes the keys of the plans,
//! and rebuilds the index of each rpm or deb repository that lost a package. A
//! dry run only plans.

use vstd::prelude::*;

use crate::collect::{self, Registry};
use crate::grouping;
use crate::retention::{self, Deletion, DeletionPlan, RetentionRule, Rule, Version, VersionEntry};
use crate::sidecar::{self, Format};
use crate::table::{FileTable, StatTable};
use crate::text;

verus! {

/// Outcome of a retention run.
#[derive(Debug)]
pub struct RetentionResult {
    /// Versions planned for deletion.
    pub planned: usize,
    /// Keys that were deleted.
    pub deleted_keys: usize,
    /// Size of the planned versions.
    pub bytes_freed: u64,
    /// The plans, by group.
    pub plans: Vec<(String, Vec<DeletionPlan>)>,
}

/// What a run does to storage.
#[derive(Debug)]
pub struct RetentionWork {
    /// Keys to delete, in this order.
    pub deletions: Vec<String>,
    /// Repositories whose deb indexes to rebuild, in this order.
    pub rebuild_deb: Vec<String>,
    /// Repositories whose rpm indexes to rebuild after those.
    pub rebuild_rpm: Vec<String>,
}

/// The deletions planned for a group: none where no rule matches it.
pub open spec fn group_plan(
    name: Seq<char>,
    versions: Seq<Version>,
    rules: Seq<Rule>,
    now: u64,
) -> Seq<Deletion> {
    match retention::rule_for(rules, retention::registry_of(name), name) {
        Some(k) => retention::planned(versions, rules[k], now),
        None => Seq::empty(),
    }
}

/// The groups with something to delete, with their plans.
pub open spec fn run_plan(
    groups: Seq<(Seq<char>, Seq<Version>)>,
    rules: Seq<Rule>,
    now: u64,
) -> Seq<(Seq<char>, Seq<Deletion>)>
    decreases groups.len(),
{
    if groups.len() == 0 {
        Seq::empty()
    } else {
        let before = run_plan(groups.drop_last(), rules, now);
        let (name, versions) = groups.last();
        let plan = group_plan(name, versions, rules, now);
        if plan.len() == 0 {
            before
        } else {
            before.push((name, plan))
        }
    }
}

/// What a list of plans holds.
pub open spec fn plans_of(v: Seq<(String, Vec<DeletionPlan>)>) -> Seq<
    (Seq<char>, Seq<Deletion>),
> {
    v.map_values(|g: (String, Vec<DeletionPlan>)| (g.0@, retention::deletions_of(g.1@)))
}

/// The keys of the deletions, in order.
pub open spec fn keys_in(plan: Seq<Deletion>) -> Seq<Seq<char>>
    decreases plan.len(),
{
    if plan.len() == 0 {
        Seq::empty()
    } else {
        keys_in(plan.drop_last()) + plan.last().keys
    }
}

/// The keys of all plans, in order.
pub open spec fn doomed_keys(plans: Seq<(Seq<char>, Seq<Deletion>)>) -> Seq<Seq<char>>
    decreases plans.len(),
{
    if plans.len() == 0 {
        Seq::empty()
    } else {
        doomed_keys(plans.drop_last()) + keys_in(plans.last().1)
    }
}

/// The size of the deletions.
pub open spec fn bytes_in(plan: Seq<Deletion>) -> nat
    decreases plan.len(),
{
    if plan.len() == 0 {
        0
    } else {
        bytes_in(plan.drop_last()) + plan.last().size as nat
    }
}

/// The size of all plans.
pub open spec fn planned_bytes(plans: Seq<(Seq<char>, Seq<Deletion>)>) -> nat
    decreases plans.len(),
{
    if plans.len() == 0 {
        0
    } else {
        planned_bytes(plans.drop_last()) + bytes_in(plans.last().1)
    }
}

/// The number of versions in all plans.
pub open spec fn planned_count(plans: Seq<(Seq<char>, Seq<Deletion>)>) -> nat
    decreases plans.len(),
{
    if plans.len() == 0 {
        0
    } else {
        planned_count(plans.drop_last()) + plans.last().1.len()
    }
}

/// The repository of a group of the format.
pub open spec fn repo_of_group(format: Format, group: Seq<char>) -> Option<Seq<char>> {
    match text::without_prefix(group, sidecar::format_name(format) + ":"@) {
        Some(rest) => Some(text::pieces(rest, '/')[0]),
        None => None,
    }
}

/// The repositories of the format among the plans.
pub open spec fn repos_among(format: Format, plans: Seq<(Seq<char>, Seq<Deletion>)>) -> Seq<
    Seq<char>,
>
    decreases plans.len(),
{
    if plans.len() == 0 {
        Seq::empty()
    } else {
        let before = repos_among(format, plans.drop_last());
        match repo_of_group(format, plans.last().0) {
            Some(repo) => before.push(repo),
            None => before,
        }
    }
}

/// The repositories of the format to rebuild, each once, in order.
pub open spec fn repos_to_rebuild(format: Format, plans: Seq<(Seq<char>, Seq<Deletion>)>) -> Seq<
    Seq<char>,
> {
    grouping::sorted_names(repos_among(format, plans))
}

/// The publish lock under which a repository's index is rebuilt.
pub open spec fn rebuild_lock(format: Format, repo: Seq<char>) -> Seq<char> {
    match format {
        Format::Rpm => "rpm/"@ + repo + "/repodata/repomd.xml"@,
        Format::Deb => "deb/"@ + repo + "/Release"@,
    }
}

/// Plans every group under the first rule that matches it. Groups without a
/// rule, and groups with nothing to delete, are left out.
pub fn plan_retention(
    groups: Vec<(String, Vec<VersionEntry>)>,
    rules: &[RetentionRule],
    now_secs: u64,
) -> (plans: Vec<(String, Vec<DeletionPlan>)>)
    ensures
        plans_of(plans@) == run_plan(
            collect::groups_of(groups@),
            retention::rules_of(rules@),
            now_secs,
        ),
{
    let ghost all = collect::groups_of(groups@);
    let ghost gs = groups@;
    let ghost rs = retention::rules_of(rules@);
    let mut groups = groups;
    let mut plans: Vec<(String, Vec<DeletionPlan>)> = Vec::new();
    let n: usize = groups.len();
    let mut i: usize = 0;
    proof {
        assert(plans_of(plans@) =~= run_plan(all.take(0), rs, now_secs));
    }
    while i < n
        invariant
            i <= n,
            n == gs.len(),
            groups@.len() == n,
            all == collect::groups_of(gs),
            rs == retention::rules_of(rules@),
            forall|k: int| i <= k < n ==> #[trigger] groups@[k] == gs[k],
            plans_of(plans@) == run_plan(all.take(i as int), rs, now_secs),
        decreases n - i,
    {
        let mut slot: (String, Vec<VersionEntry>) = (String::new(), Vec::new());
        std::mem::swap(&mut slot, &mut groups[i]);
        let (name, versions) = slot;
        proof {
            assert(all.take(i + 1).drop_last() =~= all.take(i as int));
            assert(all.take(i + 1).last() == (name@, retention::versions_of(versions@)));
        }
        let registry = match text::split_once(name.as_str(), ":") {
            Some((r, _)) => r,
            None => name.as_str(),
        };
        if let Some(rule) = retention::find_matching_rule(rules, registry, name.as_str()) {
            let plan = retention::plan_deletions(versions, rule, now_secs);
            if plan.len() > 0 {
                let ghost before = plans@;
                plans.push((name, plan));
                proof {
                    assert(plans_of(plans@) =~= plans_of(before).push(
                        (name@, retention::deletions_of(plan@)),
                    ));
                }
            }
        }
        i = i + 1;
    }
    proof {
        assert(all.take(i as int) =~= all);
    }
    plans
}

/// The keys of one plan, put behind those already there.
fn push_keys(out: &mut Vec<String>, plan: &Vec<DeletionPlan>)
    ensures
        text::texts(final(out)@) == text::texts(old(out)@) + keys_in(
            retention::deletions_of(plan@),
        ),
{
    let ghost all = retention::deletions_of(plan@);
    let ghost start = text::texts(out@);
    let mut i: usize = 0;
    proof {
        assert(start + keys_in(all.take(0)) =~= start);
    }
    while i < plan.len()
        invariant
            i <= plan@.len(),
            all == retention::deletions_of(plan@),
            text::texts(out@) == start + keys_in(all.take(i as int)),
        decreases plan@.len() - i,
    {
        let ghost before = text::texts(out@);
        proof {
            assert(all.take(i + 1).drop_last() =~= all.take(i as int));
            assert(all.take(i + 1).last() == plan@[i as int]@);
        }
        let keys = &plan[i].keys;
        let ghost ks = text::texts(keys@);
        let mut k: usize = 0;
        proof {
            assert(before + ks.take(0) =~= before);
        }
        while k < keys.len()
            invariant
                k <= keys@.len(),
                ks == text::texts(keys@),
                text::texts(out@) == before + ks.take(k as int),
            decreases keys@.len() - k,
        {
            let ghost prior = out@;
            out.push(keys[k].clone());
            proof {
                assert(text::texts(out@) =~= text::texts(prior).push(ks[k as int]));
                assert(before + ks.take(k + 1) =~= (before + ks.take(k as int)).push(
                    ks[k as int],
                ));
            }
            k = k + 1;
        }
        proof {
            assert(ks.take(k as int) =~= ks);
            assert(before + ks =~= start + (keys_in(all.take(i as int)) + ks));
        }
        i = i + 1;
    }
    proof {
        assert(all.take(i as int) =~= all);
    }
}

/// The keys of all plans, in order.
fn flatten_keys(plans: &Vec<(String, Vec<DeletionPlan>)>) -> (r: Vec<String>)
    ensures
        text::texts(r@) == doomed_keys(plans_of(plans@)),
{
    let ghost all = plans_of(plans@);
    let mut r: Vec<String> = Vec::new();
    let mut i: usize = 0;
    proof {
        assert(text::texts(r@) =~= doomed_keys(all.take(0)));
    }
    while i < plans.len()
        invariant
            i <= plans@.len(),
            all == plans_of(plans@),
            text::texts(r@) == doomed_keys(all.take(i as int)),
        decreases plans@.len() - i,
    {
        proof {
            assert(all.take(i + 1).drop_last() =~= all.take(i as int));
        }
        push_keys(&mut r, &plans[i].1);
        i = i + 1;
    }
    proof {
        assert(all.take(i as int) =~= all);
    }
    r
}

/// The repository of a group of the format.
fn group_repo(format: Format, group: &str) -> (r: Option<String>)
    ensures
        match r {
            Some(repo) => repo_of_group(format, group@) == Some(repo@),
            None => repo_of_group(format, group@) is None,
        },
{
    let prefix = text::concat2(sidecar::format_text(format), ":");
    let rest = text::strip_prefix(group, prefix.as_str())?;
    let parts = text::split(rest, '/');
    proof {
        assert(text::texts(parts@)[0] == parts@[0]@);
    }
    Some(parts[0].clone())
}

/// The repositories of the format to rebuild, each once, in order.
fn collect_repos(format: Format, plans: &Vec<(String, Vec<DeletionPlan>)>) -> (r: Vec<String>)
    ensures
        text::texts(r@) == repos_to_rebuild(format, plans_of(plans@)),
{
    let ghost all = plans_of(plans@);
    let mut names: Vec<String> = Vec::new();
    let mut i: usize = 0;
    proof {
        assert(text::texts(names@) =~= repos_among(format, all.take(0)));
    }
    while i < plans.len()
        invariant
            i <= plans@.len(),
            all == plans_of(plans@),
            text::texts(names@) == repos_among(format, all.take(i as int)),
        decreases plans@.len() - i,
    {
        let ghost before = names@;
        proof {
            assert(all.take(i + 1).drop_last() =~= all.take(i as int));
        }
        if let Some(repo) = group_repo(format, plans[i].0.as_str()) {
            names.push(repo);
            proof {
                assert(text::texts(names@) =~= text::texts(before).push(repo@));
            }
        }
        i = i + 1;
    }
    proof {
        assert(all.take(i as int) =~= all);
    }
    grouping::sort_names(&names)
}

/// `w` is what a run with these plans does to storage: nothing if it is dry;
/// else the deletions, and then the rebuilds of the repositories that they
/// touch.
pub open spec fn is_work(
    w: RetentionWork,
    plans: Seq<(Seq<char>, Seq<Deletion>)>,
    dry_run: bool,
) -> bool {
    if dry_run {
        w.deletions@.len() == 0 && w.rebuild_deb@.len() == 0 && w.rebuild_rpm@.len() == 0
    } else {
        &&& text::texts(w.deletions@) == doomed_keys(plans)
        &&& text::texts(w.rebuild_deb@) == repos_to_rebuild(Format::Deb, plans)
        &&& text::texts(w.rebuild_rpm@) == repos_to_rebuild(Format::Rpm, plans)
    }
}

/// What a run with these plans does to storage.
pub fn retention_work(plans: &Vec<(String, Vec<DeletionPlan>)>, dry_run: bool) -> (r:
    RetentionWork)
    ensures
        is_work(r, plans_of(plans@), dry_run),
{
    if dry_run {
        return RetentionWork {
            deletions: Vec::new(),
            rebuild_deb: Vec::new(),
            rebuild_rpm: Vec::new(),
        };
    }
    RetentionWork {
        deletions: flatten_keys(plans),
        rebuild_deb: collect_repos(Format::Deb, plans),
        rebuild_rpm: collect_repos(Format::Rpm, plans),
    }
}

/// The publish lock under which a repository's index is rebuilt.
pub fn rebuild_lock_key(format: Format, repo: &str) -> (r: String)
    ensures
        r@ == rebuild_lock(format, repo@),
{
    match format {
        Format::Rpm => text::concat3("rpm/", repo, "/repodata/repomd.xml"),
        Format::Deb => text::concat3("deb/", repo, "/Release"),
    }
}

/// The size of one plan, where it fits.
fn sum_bytes(plan: &Vec<DeletionPlan>) -> (r: Option<u64>)
    ensures
        match r {
            Some(n) => n == bytes_in(retention::deletions_of(plan@)),
            None => bytes_in(retention::deletions_of(plan@)) > u64::MAX,
        },
{
    let ghost all = retention::deletions_of(plan@);
    let mut sum: u64 = 0;
    let mut i: usize = 0;
    while i < plan.len()
        invariant
            i <= plan@.len(),
            all == retention::deletions_of(plan@),
            sum == bytes_in(all.take(i as int)),
        decreases plan@.len() - i,
    {
        proof {
            assert(all.take(i + 1).drop_last() =~= all.take(i as int));
            lemma_bytes_in_grows(all, i + 1);
        }
        match sum.checked_add(plan[i].size) {
            Some(s) => {
                sum = s;
            },
            None => {
                return None;
            },
        }
        i = i + 1;
    }
    proof {
        assert(all.take(i as int) =~= all);
    }
    Some(sum)
}

proof fn lemma_bytes_in_grows(plan: Seq<Deletion>, n: int)
    requires
        0 <= n <= plan.len(),
    ensures
        bytes_in(plan.take(n)) <= bytes_in(plan),
    decreases plan.len(),
{
    if n == plan.len() {
        assert(plan.take(n) =~= plan);
    } else {
        lemma_bytes_in_grows(plan.drop_last(), n);
        assert(plan.drop_last().take(n) =~= plan.take(n));
    }
}

proof fn lemma_totals_grow(plans: Seq<(Seq<char>, Seq<Deletion>)>, n: int)
    requires
        0 <= n <= plans.len(),
    ensures
        planned_bytes(plans.take(n)) <= planned_bytes(plans),
        planned_count(plans.take(n)) <= planned_count(plans),
    decreases plans.len(),
{
    if n == plans.len() {
        assert(plans.take(n) =~= plans);
    } else {
        lemma_totals_grow(plans.drop_last(), n);
        assert(plans.drop_last().take(n) =~= plans.take(n));
    }
}

/// The outcome of a run that deleted so many keys. There is none where the
/// number of versions or their size does not fit the machine.
pub fn retention_result(plans: Vec<(String, Vec<DeletionPlan>)>, deleted_keys: usize) -> (r: Option<
    RetentionResult,
>)
    ensures
        match r {
            Some(res) => res.planned == planned_count(plans_of(plans@)) && res.bytes_freed
                == planned_bytes(plans_of(plans@)) && res.deleted_keys == deleted_keys && res.plans
                == plans,
            None => planned_count(plans_of(plans@)) > usize::MAX || planned_bytes(plans_of(plans@))
                > u64::MAX,
        },
{
    let ghost all = plans_of(plans@);
    let mut planned: usize = 0;
    let mut bytes: u64 = 0;
    let mut i: usize = 0;
    while i < plans.len()
        invariant
            i <= plans@.len(),
            all == plans_of(plans@),
            planned == planned_count(all.take(i as int)),
            bytes == planned_bytes(all.take(i as int)),
        decreases plans@.len() - i,
    {
        proof {
            assert(all.take(i + 1).drop_last() =~= all.take(i as int));
            lemma_totals_grow(all, i + 1);
        }
        match planned.checked_add(plans[i].1.len()) {
            Some(p) => {
                planned = p;
            },
            None => {
                return None;
            },
        }
        match sum_bytes(&plans[i].1) {
            Some(s) => match bytes.checked_add(s) {
                Some(b) => {
                    bytes = b;
                },
                None => {
                    return None;
                },
            },
            None => {
                return None;
            },
        }
        i = i + 1;
    }
    proof {
        assert(all.take(i as int) =~= all);
    }
    Some(RetentionResult { planned, deleted_keys, bytes_freed: bytes, plans })
}

/// What was read from storage for a retention run: the listing of each
/// registry, what is known of the keys, and the sidecars that could be read.
pub struct RetentionSnapshot {
    pub maven: Vec<String>,
    pub docker: Vec<String>,
    pub npm: Vec<String>,
    pub pypi: Vec<String>,
    pub cargo: Vec<String>,
    pub go: Vec<String>,
    pub rpm: Vec<String>,
    pub deb: Vec<String>,
    pub raw: Vec<String>,
    pub stats: StatTable,
    pub files: FileTable,
}

/// The versions of a registry in the snapshot.
pub open spec fn registry_groups(registry: Registry, keys: Vec<String>, s: RetentionSnapshot) -> Seq<
    (Seq<char>, Seq<Version>),
> {
    collect::collected(registry, text::texts(keys@), s.stats@)
}

/// The versions of a format in the snapshot.
pub open spec fn format_groups(format: Format, keys: Vec<String>, s: RetentionSnapshot) -> Seq<
    (Seq<char>, Seq<Version>),
> {
    sidecar::collected_sidecars(format, text::texts(keys@), s.files@, s.stats@)
}

/// The versions of all registries.
pub open spec fn all_groups(s: RetentionSnapshot) -> Seq<(Seq<char>, Seq<Version>)> {
    registry_groups(Registry::Maven, s.maven, s) + registry_groups(Registry::Docker, s.docker, s)
        + registry_groups(Registry::Npm, s.npm, s) + registry_groups(Registry::Pypi, s.pypi, s)
        + registry_groups(Registry::Cargo, s.cargo, s) + registry_groups(Registry::Go, s.go, s)
        + format_groups(Format::Rpm, s.rpm, s) + format_groups(Format::Deb, s.deb, s)
        + registry_groups(Registry::Raw, s.raw, s)
}

/// The Go keys are such as a run accepts.
pub open spec fn snapshot_ok(s: RetentionSnapshot) -> bool {
    collect::layout_ok(Registry::Go, text::texts(s.go@))
}

/// The size of each version fits in 64 bits.
pub open spec fn versions_fit(s: RetentionSnapshot) -> bool {
    &&& collect::sizes_ok(Registry::Maven, text::texts(s.maven@), s.stats@)
    &&& collect::sizes_ok(Registry::Npm, text::texts(s.npm@), s.stats@)
    &&& collect::sizes_ok(Registry::Pypi, text::texts(s.pypi@), s.stats@)
    &&& collect::sizes_ok(Registry::Cargo, text::texts(s.cargo@), s.stats@)
    &&& collect::sizes_ok(Registry::Go, text::texts(s.go@), s.stats@)
    &&& collect::sizes_ok(Registry::Raw, text::texts(s.raw@), s.stats@)
}

/// The snapshot is such as a run accepts.
pub fn snapshot_fits(s: &RetentionSnapshot) -> (r: bool)
    ensures
        r == snapshot_ok(*s),
{
    collect::layout_fits(Registry::Go, &s.go)
}

fn append_groups(
    out: &mut Vec<(String, Vec<VersionEntry>)>,
    more: Vec<(String, Vec<VersionEntry>)>,
)
    ensures
        collect::groups_of(final(out)@) == collect::groups_of(old(out)@) + collect::groups_of(
            more@,
        ),
{
    let mut more = more;
    let ghost a = out@;
    let ghost b = more@;
    out.append(&mut more);
    proof {
        assert(out@ =~= a + b);
        assert(collect::groups_of(out@) =~= collect::groups_of(a) + collect::groups_of(b));
    }
}

/// Collects the versions of all registries. There are none where the size of a
/// version does not fit in 64 bits.
pub fn collect_all_versions(s: &RetentionSnapshot) -> (r: Option<Vec<(String, Vec<VersionEntry>)>>)
    requires
        snapshot_ok(*s),
    ensures
        match r {
            Some(groups) => versions_fit(*s) && collect::groups_of(groups@) == all_groups(*s),
            None => !versions_fit(*s),
        },
{
    let mut r = collect::collect_maven_versions(&s.maven, &s.stats)?;
    append_groups(&mut r, collect::collect_docker_versions(&s.docker, &s.stats));
    append_groups(&mut r, collect::collect_npm_versions(&s.npm, &s.stats)?);
    append_groups(&mut r, collect::collect_pypi_versions(&s.pypi, &s.stats)?);
    append_groups(&mut r, collect::collect_cargo_versions(&s.cargo, &s.stats)?);
    append_groups(&mut r, collect::collect_go_versions(&s.go, &s.stats)?);
    append_groups(&mut r, sidecar::collect_rpm_versions(&s.rpm, &s.files, &s.stats));
    append_groups(&mut r, sidecar::collect_deb_versions(&s.deb, &s.files, &s.stats));
    append_groups(&mut r, collect::collect_raw_versions(&s.raw, &s.stats)?);
    Some(r)
}

/// Plans a retention run over all registries: the plans by group, and what is
/// done to storage. There is none where the size of a version does not fit in
/// 64 bits.
pub fn run_retention(
    snapshot: &RetentionSnapshot,
    rules: &[RetentionRule],
    now_secs: u64,
    dry_run: bool,
) -> (r: Option<(Vec<(String, Vec<DeletionPlan>)>, RetentionWork)>)
    requires
        snapshot_ok(*snapshot),
    ensures
        match r {
            Some((plans, work)) => versions_fit(*snapshot) && plans_of(plans@) == run_plan(
                all_groups(*snapshot),
                retention::rules_of(rules@),
                now_secs,
            ) && is_work(work, plans_of(plans@), dry_run),
            None => !versions_fit(*snapshot),
        },
{
    let groups = collect_all_versions(snapshot)?;
    let plans = plan_retention(groups, rules, now_secs);
    let work = retention_work(&plans, dry_run);
    Some((plans, work))
}

/// A group that no rule matches loses nothing, whatever else is planned.
pub proof fn group_without_rule_is_kept(
    groups: Seq<(Seq<char>, Seq<Version>)>,
    rules: Seq<Rule>,
    now: u64,
    i: int,
)
    requires
        0 <= i < groups.len(),
        retention::rule_for(rules, retention::registry_of(groups[i].0), groups[i].0) is None,
        forall|j: int|
            0 <= j < groups.len() && j != i ==> (#[trigger] groups[j]).0 != groups[i].0,
    ensures
        forall|k: int|
            0 <= k < run_plan(groups, rules, now).len() ==> (#[trigger] run_plan(
                groups,
                rules,
                now,
            )[k]).0 != groups[i].0,
{
    lemma_run_plan_origin(groups, rules, now);
    assert forall|k: int| 0 <= k < run_plan(groups, rules, now).len() implies (#[trigger] run_plan(
        groups,
        rules,
        now,
    )[k]).0 != groups[i].0 by {
        let p = run_plan(groups, rules, now)[k];
        let j = choose|j: int|
            0 <= j < groups.len() && (#[trigger] groups[j]).0 == p.0 && p.1 == group_plan(
                groups[j].0,
                groups[j].1,
                rules,
                now,
            );
        if j == i {
            assert(p.1.len() == 0);
        }
    }
}

/// Every plan is that of one of the groups, and deletes something.
pub proof fn lemma_run_plan_origin(
    groups: Seq<(Seq<char>, Seq<Version>)>,
    rules: Seq<Rule>,
    now: u64,
)
    ensures
        forall|k: int|
            0 <= k < run_plan(groups, rules, now).len() ==> (#[trigger] run_plan(
                groups,
                rules,
                now,
            )[k]).1.len() > 0 && exists|j: int|
                0 <= j < groups.len() && (#[trigger] groups[j]).0 == run_plan(
                    groups,
                    rules,
                    now,
                )[k].0 && run_plan(groups, rules, now)[k].1 == group_plan(
                    groups[j].0,
                    groups[j].1,
                    rules,
                    now,
                ),
    decreases groups.len(),
{
    if groups.len() > 0 {
        let front = groups.drop_last();
        lemma_run_plan_origin(front, rules, now);
        let before = run_plan(front, rules, now);
        let all = run_plan(groups, rules, now);
        assert forall|k: int| 0 <= k < all.len() implies (#[trigger] all[k]).1.len() > 0
            && exists|j: int|
            0 <= j < groups.len() && (#[trigger] groups[j]).0 == all[k].0 && all[k].1 == group_plan(
                groups[j].0,
                groups[j].1,
                rules,
                now,
            ) by {
            if k < before.len() {
                assert(all[k] == before[k]);
                let j = choose|j: int|
                    0 <= j < front.len() && (#[trigger] front[j]).0 == before[k].0 && before[k].1
                        == group_plan(front[j].0, front[j].1, rules, now);
                assert(groups[j] == front[j]);
            } else {
                assert(groups[groups.len() - 1].0 == all[k].0);
            }
        }
    }
}

/// A repository is rebuilt exactly where a plan is for a group of it.
pub proof fn touched_repositories_are_rebuilt(
    format: Format,
    plans: Seq<(Seq<char>, Seq<Deletion>)>,
    repo: Seq<char>,
)
    ensures
        repos_to_rebuild(format, plans).contains(repo) <==> exists|k: int|
            0 <= k < plans.len() && repo_of_group(format, (#[trigger] plans[k]).0) == Some(repo),
{
    grouping::sorted_names_are_a_set(repos_among(format, plans));
    lemma_repos_among(format, plans, repo);
    assert(repos_to_rebuild(format, plans).contains(repo) <==> repos_among(
        format,
        plans,
    ).contains(repo));
}

proof fn lemma_repos_among(
    format: Format,
    plans: Seq<(Seq<char>, Seq<Deletion>)>,
    repo: Seq<char>,
)
    ensures
        repos_among(format, plans).contains(repo) <==> exists|k: int|
            0 <= k < plans.len() && repo_of_group(format, (#[trigger] plans[k]).0) == Some(repo),
    decreases plans.len(),
{
    if plans.len() > 0 {
        let front = plans.drop_last();
        lemma_repos_among(format, front, repo);
        let before = repos_among(format, front);
        let all = repos_among(format, plans);
        assert(forall|k: int| 0 <= k < front.len() ==> #[trigger] plans[k] == front[k]);
        if all.contains(repo) {
            let q = choose|q: int| 0 <= q < all.len() && all[q] == repo;
            if q < before.len() {
                assert(before[q] == repo);
                assert(before.contains(repo));
                let k = choose|k: int|
                    0 <= k < front.len() && repo_of_group(format, (#[trigger] front[k]).0) == Some(
                        repo,
                    );
                assert(repo_of_group(format, plans[k].0) == Some(repo));
            } else {
                assert(repo_of_group(format, plans[plans.len() - 1].0) == Some(repo));
            }
        }
        if exists|k: int|
            0 <= k < plans.len() && repo_of_group(format, (#[trigger] plans[k]).0) == Some(repo) {
            let k = choose|k: int|
                0 <= k < plans.len() && repo_of_group(format, (#[trigger] plans[k]).0) == Some(
                    repo,
                );
            if k < front.len() {
                assert(repo_of_group(format, front[k].0) == Some(repo));
                let q = choose|q: int| 0 <= q < before.len() && before[q] == repo;
                assert(all[q] == repo);
            } else {
                assert(all[before.len() as int] == repo);
            }
        }
    }
}

} // verus!
