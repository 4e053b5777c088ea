//! Reconciling an rpm repository with what is in storage, and the steps of a
//! metadata rebuild.

use vstd::prelude::*;

use crate::grouping;
use crate::rpm_package::{self, PackageError, RpmHeader};
use crate::rpm_record::{self, Pkg, PkgRecord};
use crate::rpm_repo::{self, Access, Answer, Reply, StepOutcome};
use crate::table::KeySet;
use crate::text;

verus! {

/// The package whose sidecar the key is.
pub open spec fn sidecar_name(repo: Seq<char>, key: Seq<char>) -> Option<Seq<char>> {
    match text::without_prefix(key, "rpm/"@ + repo + "/.nora-meta/"@) {
        Some(rest) => text::without_suffix(rest, ".json"@),
        None => None,
    }
}

/// The package that the key is: an `.rpm` outside the metadata and not among
/// the sidecars.
pub open spec fn package_name(repo: Seq<char>, key: Seq<char>) -> Option<Seq<char>> {
    if ("rpm/"@ + repo + "/.nora-meta/"@).is_prefix_of(key) {
        None
    } else {
        match text::without_prefix(key, "rpm/"@ + repo + "/"@) {
            Some(rest) => if text::ends_ci(rest, ".rpm"@) && !"repodata/"@.is_prefix_of(rest) {
                Some(rest)
            } else {
                None
            },
            None => None,
        }
    }
}

/// The packages, or the packages that the sidecars are of, among the keys.
pub open spec fn names_in(repo: Seq<char>, keys: Seq<Seq<char>>, sidecars: bool) -> Seq<Seq<char>>
    decreases keys.len(),
{
    if keys.len() == 0 {
        Seq::empty()
    } else {
        let before = names_in(repo, keys.drop_last(), sidecars);
        let name = if sidecars {
            sidecar_name(repo, keys.last())
        } else {
            package_name(repo, keys.last())
        };
        match name {
            Some(n) => before.push(n),
            None => before,
        }
    }
}

/// The names that are not among the others.
pub open spec fn minus(names: Seq<Seq<char>>, others: Seq<Seq<char>>) -> Seq<Seq<char>> {
    names.filter(|n: Seq<char>| !others.contains(n))
}

/// The packages among the keys, each once, in order.
pub open spec fn packages_in(repo: Seq<char>, keys: Seq<Seq<char>>) -> Seq<Seq<char>> {
    grouping::sorted_names(names_in(repo, keys, false))
}

/// The packages with a sidecar among the keys, each once, in order.
pub open spec fn sidecars_in(repo: Seq<char>, keys: Seq<Seq<char>>) -> Seq<Seq<char>> {
    grouping::sorted_names(names_in(repo, keys, true))
}

/// What a reindex has to do.
#[derive(Debug)]
pub struct ReindexPlan {
    /// How many packages the repository holds.
    pub packages: usize,
    /// Packages that are gone, whose sidecars are deleted.
    pub stale: Vec<String>,
    /// Packages without a sidecar, which are read and get one.
    pub missing: Vec<String>,
}

/// Why a reindex is refused, in this order: the registry is disabled, the name
/// is wrong, the repository is a proxy, the caller may not.
pub open spec fn reindex_refusal(access: Access, repo: Seq<char>) -> Option<Answer> {
    if !access.enabled {
        Some(Answer::NotFound)
    } else if !rpm_repo::repo_ok(repo) {
        Some(Answer::Rejected("Invalid repository name"@))
    } else if access.proxied {
        Some(Answer::ProxiedConflict)
    } else if !access.in_scope {
        Some(Answer::Forbidden)
    } else {
        None
    }
}

/// Refuses a reindex, or lets it pass.
pub fn refuse_reindex(access: Access, repo: &str) -> (r: Option<Reply>)
    ensures
        match r {
            Some(reply) => reindex_refusal(access, repo@) == Some(reply@),
            None => reindex_refusal(access, repo@) is None,
        },
{
    if !access.enabled {
        return Some(Reply::NotFound);
    }
    if !rpm_repo::valid_repo(repo) {
        return Some(Reply::Rejected("Invalid repository name".to_owned()));
    }
    if access.proxied {
        return Some(Reply::ProxiedConflict);
    }
    if !access.in_scope {
        return Some(Reply::Forbidden);
    }
    None
}

fn name_in_key(repo: &str, key: &str, sidecars: bool) -> (r: Option<String>)
    ensures
        rpm_package::text_of(r) == (if sidecars {
            sidecar_name(repo@, key@)
        } else {
            package_name(repo@, key@)
        }),
{
    let meta = text::concat3("rpm/", repo, "/.nora-meta/");
    match text::strip_prefix(key, meta.as_str()) {
        Some(rest) => if sidecars {
            match text::strip_suffix(rest, ".json") {
                Some(name) => Some(name.to_owned()),
                None => None,
            }
        } else {
            None
        },
        None => if sidecars {
            None
        } else {
            let prefix = text::concat3("rpm/", repo, "/");
            match text::strip_prefix(key, prefix.as_str()) {
                Some(rest) => if text::ends_with_ci(rest, ".rpm") && !text::starts_with(
                    rest,
                    "repodata/",
                ) {
                    Some(rest.to_owned())
                } else {
                    None
                },
                None => None,
            }
        },
    }
}

fn collect_names(repo: &str, keys: &Vec<String>, sidecars: bool) -> (r: Vec<String>)
    ensures
        text::texts(r@) == grouping::sorted_names(
            names_in(repo@, text::texts(keys@), sidecars),
        ),
{
    let ghost all = text::texts(keys@);
    let mut names: Vec<String> = Vec::new();
    let mut i: usize = 0;
    proof {
        assert(text::texts(names@) =~= names_in(repo@, all.take(0), sidecars));
    }
    while i < keys.len()
        invariant
            i <= keys@.len(),
            all == text::texts(keys@),
            text::texts(names@) == names_in(repo@, all.take(i as int), sidecars),
        decreases keys@.len() - i,
    {
        let ghost before = names@;
        proof {
            assert(all.take(i + 1).drop_last() =~= all.take(i as int));
            assert(all.take(i + 1).last() == keys@[i as int]@);
        }
        if let Some(name) = name_in_key(repo, keys[i].as_str(), sidecars) {
            names.push(name);
            proof {
                assert(text::texts(names@) =~= text::texts(before).push(name@));
            }
        }
        i = i + 1;
    }
    proof {
        assert(all.take(i as int) =~= all);
    }
    grouping::sort_names(&names)
}

fn key_set(names: &Vec<String>) -> (r: KeySet)
    ensures
        forall|x: Seq<char>| #[trigger] r@.contains(x) <==> text::texts(names@).contains(x),
{
    let ghost all = text::texts(names@);
    let mut r = KeySet::new();
    let mut i: usize = 0;
    while i < names.len()
        invariant
            i <= names@.len(),
            all == text::texts(names@),
            forall|x: Seq<char>| #[trigger]
                r@.contains(x) <==> exists|k: int| 0 <= k < i && #[trigger] all[k] == x,
        decreases names@.len() - i,
    {
        let ghost before = r@;
        r.insert(names[i].clone());
        proof {
            assert forall|x: Seq<char>| #[trigger] r@.contains(x) <==> exists|k: int|
                0 <= k < i + 1 && #[trigger] all[k] == x by {
                if r@.contains(x) && !before.contains(x) {
                    assert(all[i as int] == x);
                }
                if exists|k: int| 0 <= k < i + 1 && #[trigger] all[k] == x {
                    let k = choose|k: int| 0 <= k < i + 1 && #[trigger] all[k] == x;
                    if k < i {
                        assert(before.contains(x));
                    }
                }
            }
        }
        i = i + 1;
    }
    proof {
        assert forall|x: Seq<char>| #[trigger] r@.contains(x) <==> all.contains(x) by {}
    }
    r
}

fn subtract(names: &Vec<String>, others: &Vec<String>) -> (r: Vec<String>)
    ensures
        text::texts(r@) == minus(text::texts(names@), text::texts(others@)),
{
    let set = key_set(others);
    let ghost all = text::texts(names@);
    let ghost out = text::texts(others@);
    let ghost p = |n: Seq<char>| !out.contains(n);
    let mut r: Vec<String> = Vec::new();
    let mut i: usize = 0;
    proof {
        reveal(Seq::filter);
        assert(text::texts(r@) =~= all.take(0).filter(p));
    }
    while i < names.len()
        invariant
            i <= names@.len(),
            all == text::texts(names@),
            p == (|n: Seq<char>| !out.contains(n)),
            forall|x: Seq<char>| #[trigger] set@.contains(x) <==> out.contains(x),
            text::texts(r@) == all.take(i as int).filter(p),
        decreases names@.len() - i,
    {
        let ghost before = r@;
        proof {
            reveal(Seq::filter);
            assert(all.take(i + 1).drop_last() =~= all.take(i as int));
            assert(all.take(i + 1).last() == names@[i as int]@);
        }
        if !set.contains(names[i].as_str()) {
            r.push(names[i].clone());
            proof {
                assert(text::texts(r@) =~= text::texts(before).push(names@[i as int]@));
            }
        }
        i = i + 1;
    }
    proof {
        assert(all.take(i as int) =~= all);
        assert(minus(all, out) == all.filter(p));
    }
    r
}

/// Compares the packages and the sidecars among the keys of a repository.
/// There is no plan, but the answer, where it holds no keys.
pub fn plan_reindex(repo: &str, keys: &Vec<String>) -> (r: Result<ReindexPlan, Reply>)
    ensures
        match r {
            Ok(plan) => {
                let packages = packages_in(repo@, text::texts(keys@));
                let sidecars = sidecars_in(repo@, text::texts(keys@));
                &&& keys@.len() > 0
                &&& plan.packages == packages.len()
                &&& text::texts(plan.stale@) == minus(sidecars, packages)
                &&& text::texts(plan.missing@) == minus(packages, sidecars)
            },
            Err(reply) => keys@.len() == 0 && reply@ == Answer::Missing("No such repository"@),
        },
{
    if keys.len() == 0 {
        return Err(Reply::Missing("No such repository"));
    }
    let packages = collect_names(repo, keys, false);
    let sidecars = collect_names(repo, keys, true);
    proof {
        assert(text::texts(packages@).len() == packages@.len());
    }
    Ok(
        ReindexPlan {
            packages: packages.len(),
            stale: subtract(&sidecars, &packages),
            missing: subtract(&packages, &sidecars),
        },
    )
}

/// A package that was uploaded is found among the keys under its path, and so
/// is its sidecar.
pub proof fn uploads_are_found(repo: Seq<char>, path: Seq<char>)
    requires
        rpm_repo::path_error(repo, path) is None,
    ensures
        package_name(repo, rpm_repo::package_path(repo, path)) == Some(path),
        sidecar_name(repo, rpm_repo::sidecar_path(repo, path)) == Some(path),
{
    rpm_repo::packages_stay_out_of_reserved_places(repo, path);
    let key = rpm_repo::package_path(repo, path);
    let p = "rpm/"@ + repo + "/"@;
    assert(key.subrange(0, p.len() as int) =~= p);
    assert(key.subrange(p.len() as int, key.len() as int) =~= path);
    let side = rpm_repo::sidecar_path(repo, path);
    let q = "rpm/"@ + repo + "/.nora-meta/"@;
    let rest = path + ".json"@;
    assert(side.subrange(0, q.len() as int) =~= q);
    assert(side.subrange(q.len() as int, side.len() as int) =~= rest);
    assert(rest.subrange(path.len() as int, rest.len() as int) =~= ".json"@);
    assert(rest.subrange(0, path.len() as int) =~= path);
}

proof fn lemma_names_in(repo: Seq<char>, keys: Seq<Seq<char>>, sidecars: bool, i: int)
    requires
        0 <= i < keys.len(),
    ensures
        (if sidecars {
            sidecar_name(repo, keys[i])
        } else {
            package_name(repo, keys[i])
        }) matches Some(n) ==> names_in(repo, keys, sidecars).contains(n),
    decreases keys.len(),
{
    let before = names_in(repo, keys.drop_last(), sidecars);
    let all = names_in(repo, keys, sidecars);
    if i < keys.len() - 1 {
        lemma_names_in(repo, keys.drop_last(), sidecars, i);
        let name = if sidecars {
            sidecar_name(repo, keys[i])
        } else {
            package_name(repo, keys[i])
        };
        if let Some(n) = name {
            let k = choose|k: int| 0 <= k < before.len() && before[k] == n;
            assert(all[k] == n);
        }
    } else if all.len() > before.len() {
        assert(all[before.len() as int] == all.last());
    }
}

/// The sidecar of an uploaded package that is in storage is never stale, and
/// the package is never missing one that is there.
pub proof fn sidecars_of_stored_packages_are_kept(
    repo: Seq<char>,
    path: Seq<char>,
    keys: Seq<Seq<char>>,
)
    requires
        rpm_repo::path_error(repo, path) is None,
        keys.contains(rpm_repo::package_path(repo, path)),
    ensures
        packages_in(repo, keys).contains(path),
        !minus(sidecars_in(repo, keys), packages_in(repo, keys)).contains(path),
        keys.contains(rpm_repo::sidecar_path(repo, path)) ==> !minus(
            packages_in(repo, keys),
            sidecars_in(repo, keys),
        ).contains(path),
{
    uploads_are_found(repo, path);
    let packages = packages_in(repo, keys);
    let sidecars = sidecars_in(repo, keys);
    let i = choose|i: int|
        0 <= i < keys.len() && keys[i] == rpm_repo::package_path(repo, path);
    lemma_names_in(repo, keys, false, i);
    grouping::sorted_names_are_a_set(names_in(repo, keys, false));
    lemma_minus(sidecars, packages, path);
    if keys.contains(rpm_repo::sidecar_path(repo, path)) {
        let j = choose|j: int|
            0 <= j < keys.len() && keys[j] == rpm_repo::sidecar_path(repo, path);
        lemma_names_in(repo, keys, true, j);
        grouping::sorted_names_are_a_set(names_in(repo, keys, true));
        lemma_minus(packages, sidecars, path);
    }
}

/// Once stale sidecars are deleted and missing ones made, the sidecars are
/// those of the packages.
pub proof fn reindex_reconciles(repo: Seq<char>, keys: Seq<Seq<char>>, name: Seq<char>)
    ensures
        ({
            let packages = packages_in(repo, keys);
            let sidecars = sidecars_in(repo, keys);
            (sidecars.contains(name) && !minus(sidecars, packages).contains(name)) || minus(
                packages,
                sidecars,
            ).contains(name) <==> packages.contains(name)
        }),
{
    let packages = packages_in(repo, keys);
    let sidecars = sidecars_in(repo, keys);
    lemma_minus(sidecars, packages, name);
    lemma_minus(packages, sidecars, name);
}

pub proof fn lemma_minus(names: Seq<Seq<char>>, others: Seq<Seq<char>>, name: Seq<char>)
    ensures
        minus(names, others).contains(name) <==> names.contains(name) && !others.contains(name),
{
    broadcast use vstd::seq_lib::group_filter_ensures;

    let p = |n: Seq<char>| !others.contains(n);
    if names.contains(name) && !others.contains(name) {
        let i = choose|i: int| 0 <= i < names.len() && names[i] == name;
        assert(p(names[i]));
        assert(names.filter(p).contains(names[i]));
    }
    if minus(names, others).contains(name) {
        let kept = names.filter(p);
        assert(kept == minus(names, others));
        let k = choose|k: int| 0 <= k < kept.len() && kept[k] == name;
        assert(p(kept[k]));
        names.lemma_filter_contains_rev(p, name);
    }
}

/// What a package in storage comes to once its header has been read.
pub open spec fn reindex_outcome(
    header: Result<RpmHeader, PackageError>,
    body: Seq<u8>,
    name: Seq<char>,
    file_time: u64,
    limit: int,
) -> Result<Pkg, Answer> {
    match header {
        Err(e) => Err(
            Answer::Unprocessable(
                name + " is not a valid RPM: "@ + rpm_repo::package_error_text(e),
            ),
        ),
        Ok(h) => match rpm_record::record_error(h@) {
            Some(e) => Err(
                Answer::Unprocessable(name + ": RPM header missing required tags: "@ + e),
            ),
            None => Ok(rpm_record::record_of(h@, body, name, file_time, limit)),
        },
    }
}

/// Makes the record of a package in storage from what was read of its header.
pub fn record_stored(
    header: Result<RpmHeader, PackageError>,
    body: &[u8],
    name: &str,
    file_time: u64,
    changelog_limit: usize,
) -> (r: Result<PkgRecord, Reply>)
    ensures
        match r {
            Ok(record) => reindex_outcome(header, body@, name@, file_time, changelog_limit as int)
                == Ok::<Pkg, Answer>(record@),
            Err(reply) => reindex_outcome(header, body@, name@, file_time, changelog_limit as int)
                == Err::<Pkg, Answer>(reply@),
        },
{
    match header {
        Err(e) => {
            let why = rpm_repo::error_text(&e);
            Err(
                Reply::Unprocessable(text::concat3(name, " is not a valid RPM: ", why.as_str())),
            )
        },
        Ok(h) => match rpm_record::extract_record(&h, body, name, file_time, changelog_limit) {
            Ok(record) => Ok(record),
            Err(e) => Err(
                Reply::Unprocessable(
                    text::concat3(name, ": RPM header missing required tags: ", e.as_str()),
                ),
            ),
        },
    }
}

/// What a package in storage comes to, from its bytes alone.
pub open spec fn reindex_result(body: Seq<u8>, name: Seq<char>, file_time: u64, limit: int) -> Result<
    Pkg,
    Answer,
> {
    match rpm_repo::parse_refusal(body) {
        Some(e) => Err(Answer::Unprocessable(name + " is not a valid RPM: "@ + e)),
        None => match rpm_record::record_error(rpm_package::header_in(body)) {
            Some(e) => Err(
                Answer::Unprocessable(name + ": RPM header missing required tags: "@ + e),
            ),
            None => Ok(
                rpm_record::record_of(
                    rpm_package::header_in(body),
                    body,
                    name,
                    file_time,
                    limit,
                ),
            ),
        },
    }
}

/// Makes the record of a package in storage that has no sidecar.
pub fn index_stored(body: &[u8], name: &str, file_time: u64, changelog_limit: usize) -> (r: Result<
    PkgRecord,
    Reply,
>)
    ensures
        match r {
            Ok(record) => reindex_result(body@, name@, file_time, changelog_limit as int) == Ok::<
                Pkg,
                Answer,
            >(record@),
            Err(reply) => reindex_result(body@, name@, file_time, changelog_limit as int) == Err::<
                Pkg,
                Answer,
            >(reply@),
        },
{
    record_stored(
        rpm_package::parse_package(body),
        body,
        name,
        file_time,
        changelog_limit,
    )
}

/// A step of a reindex, under the repository's lock.
#[derive(Debug, Clone, Copy, PartialEq, Eq, Structural)]
pub enum ReindexStep {
    /// List the keys of the repository.
    List,
    /// Delete the stale sidecar at this place of the plan.
    DeleteSidecar(usize),
    /// Read the package at this place of the plan that has no sidecar.
    ReadPackage(usize),
    /// Store the sidecar made for it.
    StoreSidecar(usize),
    /// Rebuild the metadata.
    Rebuild,
    /// The repository is reindexed.
    Finished,
    /// A step failed: the answer is an internal error.
    Aborted,
}

/// The step that makes the sidecars from place `i` on.
pub open spec fn making_from(i: int, missing: int) -> ReindexStep {
    if i < missing {
        ReindexStep::ReadPackage(i as usize)
    } else {
        ReindexStep::Rebuild
    }
}

/// The step that deletes the stale sidecars from place `i` on.
pub open spec fn deleting_from(i: int, stale: int, missing: int) -> ReindexStep {
    if i < stale {
        ReindexStep::DeleteSidecar(i as usize)
    } else {
        making_from(0, missing)
    }
}

/// What follows a step of a reindex with so many stale and missing sidecars. A
/// failure of any step stops it.
pub open spec fn reindex_after(
    step: ReindexStep,
    outcome: StepOutcome,
    stale: int,
    missing: int,
) -> ReindexStep {
    match step {
        ReindexStep::Finished => ReindexStep::Finished,
        ReindexStep::Aborted => ReindexStep::Aborted,
        _ => if outcome != StepOutcome::Done {
            ReindexStep::Aborted
        } else {
            match step {
                ReindexStep::List => deleting_from(0, stale, missing),
                ReindexStep::DeleteSidecar(i) => deleting_from(i + 1, stale, missing),
                ReindexStep::ReadPackage(i) => ReindexStep::StoreSidecar(i),
                ReindexStep::StoreSidecar(i) => making_from(i + 1, missing),
                _ => ReindexStep::Finished,
            }
        },
    }
}

/// What follows a step of a reindex.
pub fn next_reindex_step(
    step: ReindexStep,
    outcome: StepOutcome,
    stale: usize,
    missing: usize,
) -> (r: ReindexStep)
    ensures
        r == reindex_after(step, outcome, stale as int, missing as int),
{
    match step {
        ReindexStep::Finished => {
            return ReindexStep::Finished;
        },
        ReindexStep::Aborted => {
            return ReindexStep::Aborted;
        },
        _ => {},
    }
    match outcome {
        StepOutcome::Done => {},
        _ => {
            return ReindexStep::Aborted;
        },
    }
    match step {
        ReindexStep::List if stale > 0 => {
            return ReindexStep::DeleteSidecar(0);
        },
        ReindexStep::DeleteSidecar(i) if i < stale && stale - i > 1 => {
            return ReindexStep::DeleteSidecar(i + 1);
        },
        ReindexStep::ReadPackage(i) => {
            return ReindexStep::StoreSidecar(i);
        },
        ReindexStep::StoreSidecar(i) => {
            return if i < missing && missing - i > 1 {
                ReindexStep::ReadPackage(i + 1)
            } else {
                ReindexStep::Rebuild
            };
        },
        ReindexStep::Rebuild => {
            return ReindexStep::Finished;
        },
        _ => {},
    }
    if missing > 0 {
        ReindexStep::ReadPackage(0)
    } else {
        ReindexStep::Rebuild
    }
}

/// The step of a reindex after some outcomes.
pub open spec fn reindex_steps(outcomes: Seq<StepOutcome>, stale: int, missing: int) -> ReindexStep
    decreases outcomes.len(),
{
    if outcomes.len() == 0 {
        ReindexStep::List
    } else {
        reindex_after(
            reindex_steps(outcomes.drop_last(), stale, missing),
            outcomes.last(),
            stale,
            missing,
        )
    }
}

/// A reindex finishes only once the keys were listed, every stale sidecar was
/// deleted, every missing one was made from its package and stored, and the
/// metadata was rebuilt, in this order; each step is taken once those before it
/// succeeded.
pub proof fn reindex_carries_out_its_plan(outcomes: Seq<StepOutcome>, stale: int, missing: int)
    requires
        0 <= stale <= usize::MAX,
        0 <= missing <= usize::MAX,
    ensures
        match reindex_steps(outcomes, stale, missing) {
            ReindexStep::List => outcomes.len() == 0,
            ReindexStep::DeleteSidecar(i) => i < stale && outcomes.len() == 1 + i && all_done(
                outcomes,
                1 + i,
            ),
            ReindexStep::ReadPackage(i) => i < missing && outcomes.len() == 1 + stale + 2 * i
                && all_done(outcomes, 1 + stale + 2 * i),
            ReindexStep::StoreSidecar(i) => i < missing && outcomes.len() == 2 + stale + 2 * i
                && all_done(outcomes, 2 + stale + 2 * i),
            ReindexStep::Rebuild => outcomes.len() == 1 + stale + 2 * missing && all_done(
                outcomes,
                1 + stale + 2 * missing,
            ),
            ReindexStep::Finished => all_done(outcomes, 2 + stale + 2 * missing),
            ReindexStep::Aborted => exists|i: int|
                0 <= i < outcomes.len() && #[trigger] outcomes[i] != StepOutcome::Done,
        },
    decreases outcomes.len(),
{
    if outcomes.len() > 0 {
        let front = outcomes.drop_last();
        reindex_carries_out_its_plan(front, stale, missing);
        assert(forall|i: int| 0 <= i < front.len() ==> front[i] == #[trigger] outcomes[i]);
        assert(outcomes[outcomes.len() - 1] == outcomes.last());
        if reindex_steps(front, stale, missing) == ReindexStep::Aborted {
            let i = choose|i: int|
                0 <= i < front.len() && #[trigger] front[i] != StepOutcome::Done;
            assert(outcomes[i] != StepOutcome::Done);
        }
    }
}

/// What a finished reindex is answered with.
#[derive(Debug, Clone, Copy, PartialEq, Eq, Structural)]
pub struct ReindexSummary {
    /// How many packages the repository holds.
    pub packages: usize,
    /// How many sidecars were made.
    pub sidecars_created: usize,
    /// How many stale sidecars were deleted.
    pub orphans_removed: usize,
    /// The metadata was signed.
    pub signed: bool,
}

/// Sums up a reindex that carried out the plan.
pub fn summarize_reindex(plan: &ReindexPlan, signed: bool) -> (r: ReindexSummary)
    ensures
        r == (ReindexSummary {
            packages: plan.packages,
            sidecars_created: plan.missing@.len() as usize,
            orphans_removed: plan.stale@.len() as usize,
            signed,
        }),
{
    ReindexSummary {
        packages: plan.packages,
        sidecars_created: plan.missing.len(),
        orphans_removed: plan.stale.len(),
        signed,
    }
}

/// A step of a metadata rebuild.
#[derive(Debug, Clone, Copy, PartialEq, Eq, Structural)]
pub enum RebuildStep {
    /// Make the write at this place of the layout.
    Write(usize),
    /// Sign `repomd.xml` and write the signature.
    WriteSignature,
    /// See whether a signature of an earlier time is there.
    FindSignature,
    /// Delete it.
    DeleteSignature,
    /// Delete what is left of an earlier generation.
    Prune,
    /// The metadata is rebuilt.
    Finished,
    /// The rebuild failed.
    Aborted,
}

/// What follows a step of a rebuild with so many writes. A failure stops it; a
/// failure to prune does not.
pub open spec fn rebuild_after(
    step: RebuildStep,
    outcome: StepOutcome,
    writes: int,
    signed: bool,
) -> RebuildStep {
    let ok = outcome == StepOutcome::Done;
    match step {
        RebuildStep::Write(i) => if !ok {
            RebuildStep::Aborted
        } else if i + 1 < writes {
            RebuildStep::Write((i + 1) as usize)
        } else if signed {
            RebuildStep::WriteSignature
        } else {
            RebuildStep::FindSignature
        },
        RebuildStep::WriteSignature => if ok {
            RebuildStep::Prune
        } else {
            RebuildStep::Aborted
        },
        RebuildStep::FindSignature => if ok {
            RebuildStep::DeleteSignature
        } else {
            RebuildStep::Prune
        },
        RebuildStep::DeleteSignature => if ok {
            RebuildStep::Prune
        } else {
            RebuildStep::Aborted
        },
        RebuildStep::Prune => RebuildStep::Finished,
        RebuildStep::Finished => RebuildStep::Finished,
        RebuildStep::Aborted => RebuildStep::Aborted,
    }
}

/// What follows a step of a rebuild.
pub fn next_rebuild_step(
    step: RebuildStep,
    outcome: StepOutcome,
    writes: usize,
    signed: bool,
) -> (r: RebuildStep)
    ensures
        r == rebuild_after(step, outcome, writes as int, signed),
{
    let ok = match outcome {
        StepOutcome::Done => true,
        _ => false,
    };
    match step {
        RebuildStep::Write(i) => if !ok {
            RebuildStep::Aborted
        } else if i < writes && writes - i > 1 {
            RebuildStep::Write(i + 1)
        } else if signed {
            RebuildStep::WriteSignature
        } else {
            RebuildStep::FindSignature
        },
        RebuildStep::WriteSignature => if ok {
            RebuildStep::Prune
        } else {
            RebuildStep::Aborted
        },
        RebuildStep::FindSignature => if ok {
            RebuildStep::DeleteSignature
        } else {
            RebuildStep::Prune
        },
        RebuildStep::DeleteSignature => if ok {
            RebuildStep::Prune
        } else {
            RebuildStep::Aborted
        },
        RebuildStep::Prune => RebuildStep::Finished,
        RebuildStep::Finished => RebuildStep::Finished,
        RebuildStep::Aborted => RebuildStep::Aborted,
    }
}

/// The step of a rebuild after some outcomes.
pub open spec fn rebuild_steps(outcomes: Seq<StepOutcome>, writes: int, signed: bool) -> RebuildStep
    decreases outcomes.len(),
{
    if outcomes.len() == 0 {
        RebuildStep::Write(0)
    } else {
        rebuild_after(
            rebuild_steps(outcomes.drop_last(), writes, signed),
            outcomes.last(),
            writes,
            signed,
        )
    }
}

/// The first `n` steps succeeded.
pub open spec fn all_done(outcomes: Seq<StepOutcome>, n: int) -> bool {
    n <= outcomes.len() && forall|i: int|
        0 <= i < n ==> #[trigger] outcomes[i] == StepOutcome::Done
}

/// Writes are made in their order, each once those before it succeeded; the
/// signature is touched, and the earlier generation pruned, only after all.
pub proof fn rebuild_writes_in_order(outcomes: Seq<StepOutcome>, writes: int, signed: bool)
    requires
        1 <= writes <= usize::MAX,
    ensures
        match rebuild_steps(outcomes, writes, signed) {
            RebuildStep::Write(i) => i < writes && outcomes.len() == i && all_done(
                outcomes,
                i as int,
            ),
            RebuildStep::Aborted => true,
            _ => all_done(outcomes, writes),
        },
    decreases outcomes.len(),
{
    if outcomes.len() > 0 {
        let front = outcomes.drop_last();
        rebuild_writes_in_order(front, writes, signed);
        assert(forall|i: int| 0 <= i < front.len() ==> front[i] == outcomes[i]);
    }
}

/// A rebuild of a signed repository finishes only after the signature was
/// written.
pub proof fn signed_rebuild_signs(outcomes: Seq<StepOutcome>, writes: int)
    requires
        1 <= writes <= usize::MAX,
        rebuild_steps(outcomes, writes, true) == RebuildStep::Finished || rebuild_steps(
            outcomes,
            writes,
            true,
        ) == RebuildStep::Prune,
    ensures
        outcomes.len() > writes,
        outcomes[writes] == StepOutcome::Done,
{
    lemma_signed_steps(outcomes, writes);
}

proof fn lemma_signed_steps(outcomes: Seq<StepOutcome>, writes: int)
    requires
        1 <= writes <= usize::MAX,
    ensures
        match rebuild_steps(outcomes, writes, true) {
            RebuildStep::Write(i) => i < writes && outcomes.len() == i,
            RebuildStep::WriteSignature => outcomes.len() == writes,
            RebuildStep::Prune => outcomes.len() > writes && outcomes[writes] == StepOutcome::Done,
            RebuildStep::Finished => outcomes.len() > writes && outcomes[writes]
                == StepOutcome::Done,
            RebuildStep::Aborted => true,
            _ => false,
        },
    decreases outcomes.len(),
{
    if outcomes.len() > 0 {
        lemma_signed_steps(outcomes.drop_last(), writes);
    }
}

} // verus!
