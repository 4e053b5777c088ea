//! Retention: which versions a rule deletes.
//!
//! [`plan_deletions`] decides for one group of versions, [`find_matching_rule`]
//! which rule a group is under.

use vstd::prelude::*;

use crate::glob;
use crate::order;
use crate::text;
use crate::versions;
use std::cmp::Ordering;

verus! {

/// An artifact version with its metadata.
#[derive(Debug, Clone)]
pub struct VersionEntry {
    /// Version or tag name, as `1.0.0`, `latest` or `lodash-4.17.21.tgz`.
    pub name: String,
    /// Storage keys that belong to the version: artifact, checksums, metadata.
    pub keys: Vec<String>,
    /// Last modification of any of the keys, in Unix seconds.
    pub modified: u64,
    /// Size in bytes of all the keys.
    pub size: u64,
}

/// A version to delete, and why.
#[derive(Debug, Clone)]
pub struct DeletionPlan {
    pub version_name: String,
    pub keys: Vec<String>,
    pub size: u64,
    pub reason: String,
}

/// A retention rule for the groups that it matches.
#[derive(Debug, Clone)]
pub struct RetentionRule {
    /// Registry the rule is for; `*` for all.
    pub registry: String,
    /// Pattern on the group's name within the registry.
    pub name_glob: Option<String>,
    /// Keep this many of the newest versions.
    pub keep_last: Option<u32>,
    /// Delete only versions older than this.
    pub older_than_days: Option<u32>,
    /// Patterns of version names that are never deleted.
    pub exclude_tags: Vec<String>,
}

/// What a [`VersionEntry`] holds.
pub struct Version {
    pub name: Seq<char>,
    pub keys: Seq<Seq<char>>,
    pub modified: u64,
    pub size: u64,
}

/// What a [`DeletionPlan`] holds.
pub struct Deletion {
    pub version_name: Seq<char>,
    pub keys: Seq<Seq<char>>,
    pub size: u64,
    pub reason: Seq<char>,
}

/// What a [`RetentionRule`] holds.
pub struct Rule {
    pub registry: Seq<char>,
    pub name_glob: Option<Seq<char>>,
    pub keep_last: Option<u32>,
    pub older_than_days: Option<u32>,
    pub exclude_tags: Seq<Seq<char>>,
}

impl View for VersionEntry {
    type V = Version;

    open spec fn view(&self) -> Version {
        Version {
            name: self.name@,
            keys: text::texts(self.keys@),
            modified: self.modified,
            size: self.size,
        }
    }
}

impl View for DeletionPlan {
    type V = Deletion;

    open spec fn view(&self) -> Deletion {
        Deletion {
            version_name: self.version_name@,
            keys: text::texts(self.keys@),
            size: self.size,
            reason: self.reason@,
        }
    }
}

impl View for RetentionRule {
    type V = Rule;

    open spec fn view(&self) -> Rule {
        Rule {
            registry: self.registry@,
            name_glob: match self.name_glob {
                Some(g) => Some(g@),
                None => None,
            },
            keep_last: self.keep_last,
            older_than_days: self.older_than_days,
            exclude_tags: text::texts(self.exclude_tags@),
        }
    }
}

/// The versions that a sequence of entries holds.
pub open spec fn versions_of(v: Seq<VersionEntry>) -> Seq<Version> {
    v.map_values(|e: VersionEntry| e@)
}

/// The deletions that a sequence of plans holds.
pub open spec fn deletions_of(v: Seq<DeletionPlan>) -> Seq<Deletion> {
    v.map_values(|d: DeletionPlan| d@)
}

/// The rules that a sequence of rules holds.
pub open spec fn rules_of(v: Seq<RetentionRule>) -> Seq<Rule> {
    v.map_values(|r: RetentionRule| r@)
}

/// `a` is not older than `b`: modified later, or at the same time and not
/// below it in the order of version names.
pub open spec fn not_older(a: Version, b: Version) -> bool {
    a.modified > b.modified || (a.modified == b.modified && versions::version_order(
        versions::name_bytes(a.name),
        versions::name_bytes(b.name),
    ) >= 0)
}

/// [`not_older`] as a value.
pub open spec fn newest() -> spec_fn(Version, Version) -> bool {
    |a: Version, b: Version| not_older(a, b)
}

/// The versions with the newest first.
pub open spec fn newest_first(v: Seq<Version>) -> Seq<Version> {
    order::sorted_by(v, newest())
}

/// Some pattern matches the name.
pub open spec fn excluded(name: Seq<char>, patterns: Seq<Seq<char>>) -> bool {
    exists|i: int| 0 <= i < patterns.len() && glob::glob(#[trigger] patterns[i], name)
}

/// Versions modified before this moment are older than `days`.
pub open spec fn age_limit(now: u64, days: u32) -> int {
    if now >= days * 86400 {
        now - days * 86400
    } else {
        0
    }
}

/// The rule deletes the version at place `i`, counted from the newest: the
/// name is not excluded, and every condition that the rule sets agrees.
pub open spec fn deletes(rule: Rule, i: int, v: Version, now: u64) -> bool {
    &&& !excluded(v.name, rule.exclude_tags)
    &&& rule.keep_last is Some || rule.older_than_days is Some
    &&& rule.keep_last matches Some(n) ==> i >= n
    &&& rule.older_than_days matches Some(d) ==> v.modified < age_limit(now, d)
}

/// The reason given for a deletion under the rule.
pub open spec fn reason(rule: Rule) -> Seq<char> {
    let kept = match rule.keep_last {
        Some(n) => seq!["beyond keep_last="@ + text::decimal(n as nat)],
        None => Seq::<Seq<char>>::empty(),
    };
    let aged = match rule.older_than_days {
        Some(d) => seq!["older than "@ + text::decimal(d as nat) + " days"@],
        None => Seq::<Seq<char>>::empty(),
    };
    text::joined(kept + aged, ", "@)
}

/// The deletion of a version under the rule.
pub open spec fn deletion(rule: Rule, v: Version) -> Deletion {
    Deletion { version_name: v.name, keys: v.keys, size: v.size, reason: reason(rule) }
}

/// The deletions among the first `n` of the versions, which stand newest first.
pub open spec fn deletions_among(sorted: Seq<Version>, rule: Rule, now: u64, n: int) -> Seq<
    Deletion,
>
    decreases n,
{
    if n <= 0 {
        Seq::empty()
    } else {
        let before = deletions_among(sorted, rule, now, n - 1);
        if deletes(rule, n - 1, sorted[n - 1], now) {
            before.push(deletion(rule, sorted[n - 1]))
        } else {
            before
        }
    }
}

/// The deletions under the rule, newest version first.
pub open spec fn planned(v: Seq<Version>, rule: Rule, now: u64) -> Seq<Deletion> {
    deletions_among(newest_first(v), rule, now, v.len() as int)
}

/// Newest-first is an order on all versions.
pub proof fn newest_is_an_order()
    ensures
        order::is_preorder(newest()),
{
    let le = newest();
    assert forall|a: Version, b: Version| #[trigger] le(a, b) || le(b, a) by {
        versions::version_order_is_antisymmetric(
            versions::name_bytes(a.name),
            versions::name_bytes(b.name),
        );
    }
    assert forall|a: Version, b: Version, c: Version| #[trigger] le(a, b) && #[trigger] le(
        b,
        c,
    ) implies le(a, c) by {
        let x = versions::name_bytes(a.name);
        let y = versions::name_bytes(b.name);
        let z = versions::name_bytes(c.name);
        versions::version_order_is_antisymmetric(x, y);
        versions::version_order_is_antisymmetric(y, z);
        versions::version_order_is_antisymmetric(x, z);
        if a.modified == b.modified && b.modified == c.modified {
            versions::version_order_is_transitive(z, y, x);
        }
    }
}

/// `a` is not older than `b`.
fn is_not_older(a: &VersionEntry, b: &VersionEntry) -> (r: bool)
    ensures
        r == not_older(a@, b@),
{
    if a.modified != b.modified {
        return a.modified > b.modified;
    }
    match versions::cmp_version_names(a.name.as_str(), b.name.as_str()) {
        Ordering::Less => false,
        Ordering::Equal => true,
        Ordering::Greater => true,
    }
}

/// Some pattern matches the name.
pub fn is_excluded(name: &str, patterns: &[String]) -> (r: bool)
    ensures
        r == excluded(name@, text::texts(patterns@)),
{
    let ghost all = text::texts(patterns@);
    let mut i: usize = 0;
    while i < patterns.len()
        invariant
            i <= patterns@.len(),
            all == text::texts(patterns@),
            forall|k: int| 0 <= k < i ==> !glob::glob(#[trigger] all[k], name@),
        decreases patterns@.len() - i,
    {
        if glob::glob_match(patterns[i].as_str(), name) {
            assert(glob::glob(all[i as int], name@));
            return true;
        }
        i = i + 1;
    }
    false
}

/// The reason given for a deletion under the rule.
fn reason_text(rule: &RetentionRule) -> (r: String)
    ensures
        r@ == reason(rule@),
{
    let mut parts: Vec<String> = Vec::new();
    if let Some(n) = rule.keep_last {
        parts.push(text::concat2("beyond keep_last=", text::decimal_text(n as u64).as_str()));
    }
    if let Some(d) = rule.older_than_days {
        parts.push(
            text::concat3("older than ", text::decimal_text(d as u64).as_str(), " days"),
        );
    }
    proof {
        let kept = match rule.keep_last {
            Some(n) => seq!["beyond keep_last="@ + text::decimal(n as nat)],
            None => Seq::<Seq<char>>::empty(),
        };
        let aged = match rule.older_than_days {
            Some(d) => seq!["older than "@ + text::decimal(d as nat) + " days"@],
            None => Seq::<Seq<char>>::empty(),
        };
        assert(text::texts(parts@) =~= kept + aged);
    }
    text::join(&parts, ", ")
}

/// Copies a list of strings.
pub fn clone_texts(v: &Vec<String>) -> (r: Vec<String>)
    ensures
        text::texts(r@) == text::texts(v@),
        r@.len() == v@.len(),
{
    let mut r: Vec<String> = Vec::new();
    let mut i: usize = 0;
    while i < v.len()
        invariant
            i <= v@.len(),
            r@.len() == i,
            forall|k: int| 0 <= k < i ==> (#[trigger] r@[k])@ == v@[k]@,
        decreases v@.len() - i,
    {
        r.push(v[i].clone());
        i = i + 1;
    }
    assert(text::texts(r@) =~= text::texts(v@));
    r
}

/// Plans which of the versions of one group to delete under the rule.
///
/// The versions are taken newest first. One is deleted where its name is not
/// excluded and every condition that the rule sets agrees: it lies beyond the
/// `keep_last` newest, and it is older than `older_than_days`. A rule that sets
/// neither deletes nothing.
pub fn plan_deletions(versions: Vec<VersionEntry>, rule: &RetentionRule, now_secs: u64) -> (plans:
    Vec<DeletionPlan>)
    ensures
        deletions_of(plans@) == planned(versions_of(versions@), rule@, now_secs),
{
    let n: usize = versions.len();
    let ghost vs = versions_of(versions@);
    let ghost rel = |i: int, j: int| newest()(vs_at(vs, i), vs_at(vs, j));
    proof {
        newest_is_an_order();
        let le = newest();
        assert forall|a: int, b: int| #[trigger] rel(a, b) || rel(b, a) by {
            assert(le(vs_at(vs, a), vs_at(vs, b)) || le(vs_at(vs, b), vs_at(vs, a)));
        }
        assert forall|a: int, b: int, c: int| #[trigger] rel(a, b) && #[trigger] rel(
            b,
            c,
        ) implies rel(a, c) by {
            assert(le(vs_at(vs, a), vs_at(vs, b)) && le(vs_at(vs, b), vs_at(vs, c)));
        }
    }
    let le = |i: usize, j: usize| -> (r: bool)
        requires
            i < n,
            j < n,
            n == versions@.len(),
        ensures
            r == not_older(versions@[i as int]@, versions@[j as int]@),
        { is_not_older(&versions[i], &versions[j]) };
    let sorted = order::order_of(n, le, Ghost(rel));
    proof {
        let f = |i: int| vs_at(vs, i);
        order::lemma_sorted_map(order::positions(n as nat), f, newest(), rel);
        assert(order::positions(n as nat).map_values(f) =~= vs);
        assert(order::ints(sorted@).map_values(f) == newest_first(vs));
    }
    let mut plans: Vec<DeletionPlan> = Vec::new();
    let mut i: usize = 0;
    while i < n
        invariant
            i <= n,
            n == sorted@.len(),
            n == versions@.len(),
            vs == versions_of(versions@),
            forall|k: int| 0 <= k < n ==> #[trigger] sorted@[k] < n,
            order::ints(sorted@).map_values(|i: int| vs_at(vs, i)) == newest_first(vs),
            deletions_of(plans@) == deletions_among(newest_first(vs), rule@, now_secs, i as int),
        decreases n - i,
    {
        let version = &versions[sorted[i]];
        proof {
            assert(newest_first(vs)[i as int] == version@);
        }
        if !is_excluded(version.name.as_str(), &rule.exclude_tags) && condition_agrees(
            rule,
            i,
            version.modified,
            now_secs,
        ) {
            let plan = DeletionPlan {
                version_name: version.name.clone(),
                keys: clone_texts(&version.keys),
                size: version.size,
                reason: reason_text(rule),
            };
            let ghost before = plans@;
            plans.push(plan);
            proof {
                assert(deletions_of(plans@) =~= deletions_of(before).push(plan@));
            }
        }
        i = i + 1;
    }
    plans
}

/// The version at a place; any value outside the sequence.
pub open spec fn vs_at(vs: Seq<Version>, i: int) -> Version {
    vs[i]
}

/// The rule sets a condition, and every one that it sets agrees to delete the
/// version at place `i`.
fn condition_agrees(rule: &RetentionRule, i: usize, modified: u64, now: u64) -> (r: bool)
    ensures
        r == ((rule.keep_last is Some || rule.older_than_days is Some) && (
        rule.keep_last matches Some(n) ==> i >= n) && (
        rule.older_than_days matches Some(d) ==> modified < age_limit(now, d))),
{
    let capped = match rule.keep_last {
        Some(n) => i as u64 >= n as u64,
        None => true,
    };
    let aged = match rule.older_than_days {
        Some(d) => modified < now.saturating_sub(d as u64 * 86400),
        None => true,
    };
    (rule.keep_last.is_some() || rule.older_than_days.is_some()) && capped && aged
}

/// The rule is for the registry and its pattern, if any, matches the name.
pub open spec fn rule_matches(rule: Rule, registry: Seq<char>, name: Seq<char>) -> bool {
    &&& rule.registry == registry || rule.registry == "*"@
    &&& rule.name_glob matches Some(g) ==> glob::glob(g, name)
}

/// The name of a group within its registry: what follows the first `:`.
pub open spec fn name_in_registry(group: Seq<char>) -> Seq<char> {
    match text::halves(group, ":"@) {
        Some((_, name)) => name,
        None => group,
    }
}

/// The registry of a group: what precedes the first `:`.
pub open spec fn registry_of(group: Seq<char>) -> Seq<char> {
    match text::halves(group, ":"@) {
        Some((registry, _)) => registry,
        None => group,
    }
}

/// The place of the first rule from `k` on that matches.
pub open spec fn first_rule_from(
    rules: Seq<Rule>,
    registry: Seq<char>,
    name: Seq<char>,
    k: int,
) -> Option<int>
    decreases rules.len() - k,
{
    if k < 0 || k >= rules.len() {
        None
    } else if rule_matches(rules[k], registry, name) {
        Some(k)
    } else {
        first_rule_from(rules, registry, name, k + 1)
    }
}

/// The place of the rule that a group is under, if there is one.
pub open spec fn rule_for(rules: Seq<Rule>, registry: Seq<char>, group: Seq<char>) -> Option<int> {
    first_rule_from(rules, registry, name_in_registry(group), 0)
}

/// The rule matches.
fn rule_applies(rule: &RetentionRule, registry: &str, name: &str) -> (r: bool)
    ensures
        r == rule_matches(rule@, registry@, name@),
{
    if !text::same(rule.registry.as_str(), registry) && !text::same(rule.registry.as_str(), "*") {
        return false;
    }
    match &rule.name_glob {
        Some(g) => glob::glob_match(g.as_str(), name),
        None => true,
    }
}

/// The first rule whose registry is the given one or `*`, and whose name
/// pattern, if it has one, matches the group's name within the registry.
pub fn find_matching_rule<'a>(
    rules: &'a [RetentionRule],
    registry: &str,
    group_name: &str,
) -> (r: Option<&'a RetentionRule>)
    ensures
        match r {
            Some(rule) => rule_for(rules_of(rules@), registry@, group_name@) matches Some(k) && 0
                <= k < rules@.len() && *rule == rules@[k],
            None => rule_for(rules_of(rules@), registry@, group_name@) is None,
        },
{
    let name = match text::split_once(group_name, ":") {
        Some((_, n)) => n,
        None => group_name,
    };
    let ghost rs = rules_of(rules@);
    let mut i: usize = 0;
    while i < rules.len()
        invariant
            i <= rules@.len(),
            rs == rules_of(rules@),
            name@ == name_in_registry(group_name@),
            rule_for(rs, registry@, group_name@) == first_rule_from(
                rs,
                registry@,
                name@,
                i as int,
            ),
        decreases rules@.len() - i,
    {
        if rule_applies(&rules[i], registry, name) {
            return Some(&rules[i]);
        }
        i = i + 1;
    }
    None
}

/// The rule found matches, and no earlier one does; where none is found, none
/// matches.
pub proof fn first_matching_rule_wins(rules: Seq<Rule>, registry: Seq<char>, group: Seq<char>)
    ensures
        match rule_for(rules, registry, group) {
            Some(k) => 0 <= k < rules.len() && rule_matches(
                rules[k],
                registry,
                name_in_registry(group),
            ) && forall|j: int|
                0 <= j < k ==> !rule_matches(
                    #[trigger] rules[j],
                    registry,
                    name_in_registry(group),
                ),
            None => forall|j: int|
                0 <= j < rules.len() ==> !rule_matches(
                    #[trigger] rules[j],
                    registry,
                    name_in_registry(group),
                ),
        },
{
    lemma_first_rule_from(rules, registry, name_in_registry(group), 0);
}

proof fn lemma_first_rule_from(rules: Seq<Rule>, registry: Seq<char>, name: Seq<char>, k: int)
    requires
        0 <= k,
    ensures
        match first_rule_from(rules, registry, name, k) {
            Some(i) => k <= i < rules.len() && rule_matches(rules[i], registry, name)
                && forall|j: int|
                k <= j < i ==> !rule_matches(#[trigger] rules[j], registry, name),
            None => forall|j: int|
                k <= j < rules.len() ==> !rule_matches(#[trigger] rules[j], registry, name),
        },
    decreases rules.len() - k,
{
    if k < rules.len() && !rule_matches(rules[k], registry, name) {
        lemma_first_rule_from(rules, registry, name, k + 1);
    }
}

/// The deletions planned are exactly those of the versions that the rule
/// deletes at their place from the newest.
pub proof fn plan_holds_what_the_rule_deletes(v: Seq<Version>, rule: Rule, now: u64, d: Deletion)
    ensures
        planned(v, rule, now).contains(d) <==> exists|i: int|
            0 <= i < v.len() && deletes(rule, i, #[trigger] newest_first(v)[i], now) && d
                == deletion(rule, newest_first(v)[i]),
{
    lemma_deletions_among(newest_first(v), rule, now, v.len() as int, d);
}

proof fn lemma_deletions_among(sorted: Seq<Version>, rule: Rule, now: u64, n: int, d: Deletion)
    ensures
        deletions_among(sorted, rule, now, n).contains(d) <==> exists|i: int|
            0 <= i < n && deletes(rule, i, #[trigger] sorted[i], now) && d == deletion(
                rule,
                sorted[i],
            ),
    decreases n,
{
    if n > 0 {
        lemma_deletions_among(sorted, rule, now, n - 1, d);
        let before = deletions_among(sorted, rule, now, n - 1);
        let all = deletions_among(sorted, rule, now, n);
        if deletes(rule, n - 1, sorted[n - 1], now) {
            let last = deletion(rule, sorted[n - 1]);
            assert(all[all.len() - 1] == last);
            assert forall|x: Deletion| before.contains(x) implies all.contains(x) by {
                let i = choose|i: int| 0 <= i < before.len() && before[i] == x;
                assert(all[i] == x);
            }
            assert(all.contains(d) ==> before.contains(d) || d == last);
            assert(d == last ==> all.contains(d));
        }
    }
}

/// A version whose name a pattern excludes is never deleted.
pub proof fn excluded_versions_are_kept(v: Seq<Version>, rule: Rule, now: u64, d: Deletion)
    requires
        planned(v, rule, now).contains(d),
    ensures
        !excluded(d.version_name, rule.exclude_tags),
{
    plan_holds_what_the_rule_deletes(v, rule, now, d);
}

/// Only versions of the group are deleted, with all their keys.
pub proof fn only_versions_of_the_group_are_deleted(
    v: Seq<Version>,
    rule: Rule,
    now: u64,
    d: Deletion,
)
    requires
        planned(v, rule, now).contains(d),
    ensures
        exists|i: int|
            0 <= i < v.len() && (#[trigger] v[i]).name == d.version_name && v[i].keys == d.keys
                && v[i].size == d.size,
{
    plan_holds_what_the_rule_deletes(v, rule, now, d);
    newest_is_an_order();
    order::lemma_sorted_by(v, newest());
    let i = choose|i: int|
        0 <= i < v.len() && deletes(rule, i, #[trigger] newest_first(v)[i], now) && d == deletion(
            rule,
            newest_first(v)[i],
        );
    let x = newest_first(v)[i];
    order::lemma_sorted_members(v, newest(), x);
    assert(newest_first(v).contains(x));
}

/// A rule that sets neither a count nor an age deletes nothing.
pub proof fn rule_without_conditions_keeps_all(v: Seq<Version>, rule: Rule, now: u64)
    requires
        rule.keep_last is None,
        rule.older_than_days is None,
    ensures
        planned(v, rule, now).len() == 0,
{
    lemma_nothing_among(newest_first(v), rule, now, v.len() as int);
}

proof fn lemma_nothing_among(sorted: Seq<Version>, rule: Rule, now: u64, n: int)
    requires
        forall|i: int| 0 <= i < n ==> !deletes(rule, i, #[trigger] sorted[i], now),
    ensures
        deletions_among(sorted, rule, now, n).len() == 0,
    decreases n,
{
    if n > 0 {
        lemma_nothing_among(sorted, rule, now, n - 1);
    }
}

/// The newest `keep_last` versions are kept: what is deleted is at most the
/// rest.
pub proof fn newest_versions_are_kept(v: Seq<Version>, rule: Rule, now: u64, keep: u32)
    requires
        rule.keep_last == Some(keep),
    ensures
        v.len() <= keep ==> planned(v, rule, now).len() == 0,
        v.len() > keep ==> planned(v, rule, now).len() <= v.len() - keep,
        forall|i: int|
            0 <= i < keep && i < v.len() ==> !deletes(rule, i, #[trigger] newest_first(v)[i], now),
{
    lemma_kept_among(newest_first(v), rule, now, v.len() as int, keep);
}

proof fn lemma_kept_among(sorted: Seq<Version>, rule: Rule, now: u64, n: int, keep: u32)
    requires
        rule.keep_last == Some(keep),
    ensures
        n <= keep ==> deletions_among(sorted, rule, now, n).len() == 0,
        n > keep ==> deletions_among(sorted, rule, now, n).len() <= n - keep,
    decreases n,
{
    if n > 0 {
        lemma_kept_among(sorted, rule, now, n - 1, keep);
    }
}

/// Under a rule with an age, no version at or above the age limit is deleted.
pub proof fn young_versions_are_kept(v: Seq<Version>, rule: Rule, now: u64, days: u32)
    requires
        rule.older_than_days == Some(days),
        forall|i: int| 0 <= i < v.len() ==> (#[trigger] v[i]).modified >= age_limit(now, days),
    ensures
        planned(v, rule, now).len() == 0,
{
    newest_is_an_order();
    order::lemma_sorted_by(v, newest());
    let sorted = newest_first(v);
    assert forall|i: int| 0 <= i < v.len() implies !deletes(rule, i, #[trigger] sorted[i], now) by {
        order::lemma_sorted_members(v, newest(), sorted[i]);
        assert(sorted.contains(sorted[i]));
        assert(v.contains(sorted[i]));
    }
    lemma_nothing_among(sorted, rule, now, v.len() as int);
}

/// The versions that are left of the first `n`, which stand newest first.
pub open spec fn survivors_among(sorted: Seq<Version>, rule: Rule, now: u64, n: int) -> Seq<Version>
    decreases n,
{
    if n <= 0 {
        Seq::empty()
    } else {
        let before = survivors_among(sorted, rule, now, n - 1);
        if deletes(rule, n - 1, sorted[n - 1], now) {
            before
        } else {
            before.push(sorted[n - 1])
        }
    }
}

/// The versions that the rule leaves, newest first.
pub open spec fn survivors(v: Seq<Version>, rule: Rule, now: u64) -> Seq<Version> {
    survivors_among(newest_first(v), rule, now, v.len() as int)
}

/// Each survivor comes from a place at or behind its own that the rule does not
/// delete, and they keep their order.
proof fn lemma_survivors(sorted: Seq<Version>, rule: Rule, now: u64, n: int)
    requires
        0 <= n <= sorted.len(),
        order::ascending(sorted, newest()),
    ensures
        survivors_among(sorted, rule, now, n).len() + deletions_among(sorted, rule, now, n).len()
            == n,
        order::ascending(survivors_among(sorted, rule, now, n), newest()),
        forall|j: int|
            0 <= j < survivors_among(sorted, rule, now, n).len() ==> exists|i: int|
                j <= i < n && (#[trigger] sorted[i]) == #[trigger] survivors_among(
                    sorted,
                    rule,
                    now,
                    n,
                )[j] && !deletes(rule, i, sorted[i], now),
    decreases n,
{
    if n > 0 {
        lemma_survivors(sorted, rule, now, n - 1);
        let before = survivors_among(sorted, rule, now, n - 1);
        let all = survivors_among(sorted, rule, now, n);
        assert forall|j: int| 0 <= j < all.len() implies exists|i: int|
            j <= i < n && (#[trigger] sorted[i]) == #[trigger] all[j] && !deletes(
                rule,
                i,
                sorted[i],
                now,
            ) by {
            if j < before.len() {
                assert(all[j] == before[j]);
                let i = choose|i: int|
                    j <= i < n - 1 && (#[trigger] sorted[i]) == before[j] && !deletes(
                        rule,
                        i,
                        sorted[i],
                        now,
                    );
                assert(sorted[i] == all[j]);
            } else {
                assert(sorted[n - 1] == all[j]);
            }
        }
        let le = newest();
        assert forall|i: int, j: int| 0 <= i < j < all.len() implies le(
            #[trigger] all[i],
            #[trigger] all[j],
        ) by {
            assert(all[i] == before[i]);
            if j < before.len() {
                assert(all[j] == before[j]);
            } else {
                let k = choose|k: int|
                    i <= k < n - 1 && (#[trigger] sorted[k]) == before[i] && !deletes(
                        rule,
                        k,
                        sorted[k],
                        now,
                    );
                assert(le(sorted[k], sorted[n - 1]));
            }
        }
    }
}

/// A version is either deleted or left, and a second run at the same time
/// deletes none of those that are left.
pub proof fn second_run_deletes_nothing(v: Seq<Version>, rule: Rule, now: u64)
    ensures
        survivors(v, rule, now).len() + planned(v, rule, now).len() == v.len(),
        planned(survivors(v, rule, now), rule, now).len() == 0,
{
    newest_is_an_order();
    order::lemma_sorted_by(v, newest());
    let sorted = newest_first(v);
    let left = survivors(v, rule, now);
    lemma_survivors(sorted, rule, now, v.len() as int);
    order::lemma_sorted_stays(left, newest());
    assert forall|j: int| 0 <= j < left.len() implies !deletes(rule, j, #[trigger] left[j], now) by {
        let i = choose|i: int|
            j <= i < v.len() && (#[trigger] sorted[i]) == left[j] && !deletes(
                rule,
                i,
                sorted[i],
                now,
            );
    }
    lemma_nothing_among(left, rule, now, left.len() as int);
}

} // verus!
