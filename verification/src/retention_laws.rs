//! What retention deletes, told by the conditions of a rule, and how names are
//! matched and compared.

use vstd::prelude::*;

use crate::collect::{self, Registry};
use crate::collect_laws;
use crate::gc_laws;
use crate::glob;
use crate::grouping;
use crate::json::{self, JsonTree};
use crate::order;
use crate::path;
use crate::retention::{self, Deletion, Rule, Version};
use crate::retention_run::{self, RetentionSnapshot, RetentionWork};
use crate::sidecar::{self, Format, Sidecar};
use crate::table::FileMeta;
use crate::text;
use crate::versions;

verus! {

/// The newest version stands first: one changed later before one changed
/// earlier, and of two changed at once the one that is not below in the order of
/// names. No version is lost, and none is added.
pub proof fn versions_stand_newest_first(v: Seq<Version>, i: int, j: int)
    requires
        0 <= i < j < v.len(),
    ensures
        retention::newest_first(v).len() == v.len(),
        retention::newest_first(v).to_multiset() == v.to_multiset(),
        ({
            let a = retention::newest_first(v)[i];
            let b = retention::newest_first(v)[j];
            a.modified > b.modified || (a.modified == b.modified && versions::version_order(
                versions::name_bytes(a.name),
                versions::name_bytes(b.name),
            ) >= 0)
        }),
{
    retention::newest_is_an_order();
    order::lemma_sorted_by(v, retention::newest());
    let s = retention::newest_first(v);
    assert(retention::newest()(s[i], s[j]));
}

/// A version is deleted exactly where no pattern excludes it, the rule sets a
/// condition, it stands behind the newest that are to be kept, and its last
/// change is more than the days of the rule ago.
pub proof fn versions_are_deleted_by_place_and_age(rule: Rule, i: int, v: Version, now: u64)
    ensures
        retention::deletes(rule, i, v, now) <==> {
            &&& forall|k: int|
                0 <= k < rule.exclude_tags.len() ==> !glob::glob(
                    #[trigger] rule.exclude_tags[k],
                    v.name,
                )
            &&& rule.keep_last != None::<u32> || rule.older_than_days != None::<u32>
            &&& rule.keep_last matches Some(n) ==> n <= i
            &&& rule.older_than_days matches Some(d) ==> v.modified + d * 86400 < now
        },
{
}

/// A plan lists, newest first, the versions that go, each with all its keys and
/// its size.
pub proof fn plans_list_deletions_newest_first(
    sorted: Seq<Version>,
    rule: Rule,
    now: u64,
    n: int,
)
    requires
        0 <= n < sorted.len(),
    ensures
        retention::deletions_among(sorted, rule, now, 0).len() == 0,
        retention::deletions_among(sorted, rule, now, n + 1) == (if retention::deletes(
            rule,
            n,
            sorted[n],
            now,
        ) {
            retention::deletions_among(sorted, rule, now, n).push(
                Deletion {
                    version_name: sorted[n].name,
                    keys: sorted[n].keys,
                    size: sorted[n].size,
                    reason: retention::reason(rule),
                },
            )
        } else {
            retention::deletions_among(sorted, rule, now, n)
        }),
{
}

/// The plan for a group is that over its versions, newest first.
pub proof fn plans_cover_all_versions(v: Seq<Version>, rule: Rule, now: u64)
    ensures
        retention::planned(v, rule, now) == retention::deletions_among(
            retention::newest_first(v),
            rule,
            now,
            v.len() as int,
        ),
{
}

/// The reason names the conditions that the rule sets, with their numbers.
pub proof fn reasons_name_the_conditions(rule: Rule)
    ensures
        match (rule.keep_last, rule.older_than_days) {
            (Some(n), Some(d)) => retention::reason(rule) == "beyond keep_last="@ + text::decimal(
                n as nat,
            ) + ", "@ + "older than "@ + text::decimal(d as nat) + " days"@,
            (Some(n), None) => retention::reason(rule) == "beyond keep_last="@ + text::decimal(
                n as nat,
            ),
            (None, Some(d)) => retention::reason(rule) == "older than "@ + text::decimal(d as nat)
                + " days"@,
            (None, None) => retention::reason(rule).len() == 0,
        },
{
    let none = Seq::<Seq<char>>::empty();
    match (rule.keep_last, rule.older_than_days) {
        (Some(n), Some(d)) => {
            let a = "beyond keep_last="@ + text::decimal(n as nat);
            let b = "older than "@ + text::decimal(d as nat) + " days"@;
            let parts = seq![a] + seq![b];
            assert(parts.drop_last() =~= seq![a]);
            assert(parts.last() == b);
            assert(text::joined(seq![a], ", "@) == a);
            assert(text::joined(parts, ", "@) == a + ", "@ + b);
            assert(a + ", "@ + b =~= a + ", "@ + "older than "@ + text::decimal(d as nat)
                + " days"@);
        },
        (Some(n), None) => {
            let a = "beyond keep_last="@ + text::decimal(n as nat);
            assert(seq![a] + none =~= seq![a]);
        },
        (None, Some(d)) => {
            let b = "older than "@ + text::decimal(d as nat) + " days"@;
            assert(none + seq![b] =~= seq![b]);
        },
        (None, None) => {
            assert(none + none =~= none);
        },
    }
}

/// A group is its registry, a colon and the name in it.
pub proof fn groups_name_their_registry(registry: Seq<char>, name: Seq<char>)
    requires
        !registry.contains(':'),
    ensures
        retention::registry_of(registry + ":"@ + name) == registry,
        retention::name_in_registry(registry + ":"@ + name) == name,
        retention::registry_of(registry) == registry,
        retention::name_in_registry(registry) == registry,
{
    reveal_strlit(":");
    path::separators_come_apart(registry, ":"@, name);
    path::halves_stand_around_the_first(registry, ":"@);
    if let Some((a, b)) = text::halves(registry, ":"@) {
        assert(registry[a.len() as int] == ':');
    }
}

/// A rule is for a group where it is for its registry or for all, and its
/// pattern, where it has one, matches the name.
pub proof fn rules_match_registry_and_name(rule: Rule, registry: Seq<char>, name: Seq<char>)
    ensures
        retention::rule_matches(rule, registry, name) <==> (rule.registry == registry
            || rule.registry == "*"@) && match rule.name_glob {
            Some(pattern) => glob::glob(pattern, name),
            None => true,
        },
{
}

/// The rule of a group is the first that is for it.
pub proof fn the_first_rule_for_a_group_counts(
    rules: Seq<Rule>,
    registry: Seq<char>,
    name: Seq<char>,
    k: int,
)
    requires
        !registry.contains(':'),
        0 <= k < rules.len(),
        retention::rule_matches(rules[k], registry, name),
        forall|j: int| 0 <= j < k ==> !retention::rule_matches(#[trigger] rules[j], registry, name),
    ensures
        retention::rule_for(rules, registry, registry + ":"@ + name) == Some(k),
{
    groups_name_their_registry(registry, name);
    retention::first_matching_rule_wins(rules, registry, registry + ":"@ + name);
}

/// A pattern put together from two matches exactly the texts put together from
/// one that the first matches and one that the second does.
pub proof fn patterns_match_part_by_part(p: Seq<char>, q: Seq<char>, t: Seq<char>)
    ensures
        glob::glob(p + q, t) <==> exists|k: int|
            0 <= k <= t.len() && glob::glob(p, #[trigger] t.take(k)) && glob::glob(q, t.skip(k)),
    decreases p.len(),
{
    let r = p + q;
    if p.len() == 0 {
        assert(r =~= q);
        assert(t.take(0).len() == 0 && t.skip(0) =~= t);
        if glob::glob(q, t) {
            assert(glob::glob(p, t.take(0)));
        }
        if exists|k: int|
            0 <= k <= t.len() && glob::glob(p, #[trigger] t.take(k)) && glob::glob(q, t.skip(k)) {
            let k = choose|k: int|
                0 <= k <= t.len() && glob::glob(p, #[trigger] t.take(k)) && glob::glob(
                    q,
                    t.skip(k),
                );
            assert(k == 0);
        }
    } else {
        let rest = p.drop_first();
        assert(r.drop_first() =~= rest + q);
        assert(r[0] == p[0]);
        if p[0] == '*' {
            if glob::glob(r, t) {
                let m = choose|m: int|
                    0 <= m <= t.len() && glob::glob(r.drop_first(), #[trigger] t.skip(m));
                patterns_match_part_by_part(rest, q, t.skip(m));
                let u = t.skip(m);
                let k = choose|k: int|
                    0 <= k <= u.len() && glob::glob(rest, #[trigger] u.take(k)) && glob::glob(
                        q,
                        u.skip(k),
                    );
                assert(t.take(m + k).skip(m) =~= u.take(k));
                assert(t.skip(m + k) =~= u.skip(k));
                assert(glob::glob(p, t.take(m + k)));
            }
            if exists|k: int|
                0 <= k <= t.len() && glob::glob(p, #[trigger] t.take(k)) && glob::glob(
                    q,
                    t.skip(k),
                ) {
                let k = choose|k: int|
                    0 <= k <= t.len() && glob::glob(p, #[trigger] t.take(k)) && glob::glob(
                        q,
                        t.skip(k),
                    );
                let s = t.take(k);
                let m = choose|m: int| 0 <= m <= s.len() && glob::glob(rest, #[trigger] s.skip(m));
                let u = t.skip(m);
                patterns_match_part_by_part(rest, q, u);
                assert(u.take(k - m) =~= s.skip(m));
                assert(u.skip(k - m) =~= t.skip(k));
                assert(glob::glob(rest + q, u));
                assert(glob::glob(r.drop_first(), t.skip(m)));
            }
        } else {
            if glob::glob(r, t) {
                let u = t.drop_first();
                patterns_match_part_by_part(rest, q, u);
                let k = choose|k: int|
                    0 <= k <= u.len() && glob::glob(rest, #[trigger] u.take(k)) && glob::glob(
                        q,
                        u.skip(k),
                    );
                assert(t.take(k + 1).drop_first() =~= u.take(k));
                assert(t.skip(k + 1) =~= u.skip(k));
                assert(glob::glob(p, t.take(k + 1)));
            }
            if exists|k: int|
                0 <= k <= t.len() && glob::glob(p, #[trigger] t.take(k)) && glob::glob(
                    q,
                    t.skip(k),
                ) {
                let k = choose|k: int|
                    0 <= k <= t.len() && glob::glob(p, #[trigger] t.take(k)) && glob::glob(
                        q,
                        t.skip(k),
                    );
                let u = t.drop_first();
                patterns_match_part_by_part(rest, q, u);
                assert(t.take(k).drop_first() =~= u.take(k - 1));
                assert(u.skip(k - 1) =~= t.skip(k));
                assert(glob::glob(rest + q, u));
            }
        }
    }
}

/// `*` matches every text, `?` every text of one character, any other character
/// itself, and nothing only nothing.
pub proof fn single_patterns_match(t: Seq<char>, c: char)
    ensures
        glob::glob(seq!['*'], t),
        glob::glob(seq!['?'], t) <==> t.len() == 1,
        c != '*' && c != '?' ==> (glob::glob(seq![c], t) <==> t == seq![c]),
        glob::glob(Seq::empty(), t) <==> t.len() == 0,
{
    glob::star_matches_everything(t);
    assert(seq!['?'].drop_first() =~= Seq::<char>::empty());
    assert(seq![c].drop_first() =~= Seq::<char>::empty());
    if t.len() > 0 {
        assert(glob::glob(seq!['?'].drop_first(), t.drop_first()) <==> t.drop_first().len() == 0);
    }
    if t.len() == 1 {
        assert(t =~= seq![t[0]]);
    }
}

/// A byte that is no digit.
pub open spec fn plain_byte(b: u8) -> bool {
    !(48 <= b <= 57)
}

/// Names that start with the same byte, no digit, compare by what follows.
pub proof fn equal_starts_do_not_count(c: u8, a: Seq<u8>, b: Seq<u8>)
    requires
        plain_byte(c),
    ensures
        versions::version_order(seq![c] + a, seq![c] + b) == versions::version_order(a, b),
{
    let x = seq![c] + a;
    let y = seq![c] + b;
    assert(x[0] == c && y[0] == c);
    assert(x.drop_first() =~= a);
    assert(y.drop_first() =~= b);
}

/// A tilde comes before everything, the end among it; the end and digits come
/// before every other byte; other bytes go by their value.
pub proof fn different_starts_decide(c: u8, d: u8, a: Seq<u8>, b: Seq<u8>)
    requires
        plain_byte(c),
        plain_byte(d),
    ensures
        c == 126 ==> versions::version_order(seq![c] + a, Seq::empty()) < 0,
        c != 126 ==> versions::version_order(seq![c] + a, Seq::empty()) > 0,
        c == 126 && d != 126 ==> versions::version_order(seq![c] + a, seq![d] + b) < 0,
        c != 126 && d != 126 && c < d ==> versions::version_order(seq![c] + a, seq![d] + b) < 0,
        b.len() > 0 && !plain_byte(b[0]) && c == 126 ==> versions::version_order(seq![c] + a, b) < 0,
        b.len() > 0 && !plain_byte(b[0]) && c != 126 ==> versions::version_order(seq![c] + a, b) > 0,
{
    let x = seq![c] + a;
    let y = seq![d] + b;
    assert(x[0] == c && y[0] == d);
}

/// A run of digits: nothing but digits.
pub open spec fn all_digits(m: Seq<u8>) -> bool {
    forall|i: int| 0 <= i < m.len() ==> 48 <= #[trigger] m[i] <= 57
}

proof fn lemma_run_length(m: Seq<u8>, a: Seq<u8>)
    requires
        all_digits(m),
        a.len() == 0 || plain_byte(a[0]),
    ensures
        versions::digits_len(m + a) == m.len(),
    decreases m.len(),
{
    let s = m + a;
    if m.len() == 0 {
        assert(s =~= a);
    } else {
        assert(s[0] == m[0]);
        assert(s.drop_first() =~= m.drop_first() + a);
        assert forall|i: int| 0 <= i < m.drop_first().len() implies 48 <= #[trigger] m.drop_first()[i]
            <= 57 by {
            assert(m.drop_first()[i] == m[i + 1]);
        }
        lemma_run_length(m.drop_first(), a);
    }
}

/// Names that start with numbers compare by the numbers, and, where those are
/// equal, by what follows; the end counts as zero.
pub proof fn numbers_compare_by_value(m: Seq<u8>, a: Seq<u8>, n: Seq<u8>, b: Seq<u8>)
    requires
        all_digits(m),
        all_digits(n),
        m.len() > 0 || a.len() == 0,
        n.len() > 0 || b.len() == 0,
        m.len() > 0 || n.len() > 0,
        a.len() == 0 || plain_byte(a[0]),
        b.len() == 0 || plain_byte(b[0]),
    ensures
        versions::number(m) < versions::number(n) ==> versions::version_order(m + a, n + b) < 0,
        versions::number(m) > versions::number(n) ==> versions::version_order(m + a, n + b) > 0,
        versions::number(m) == versions::number(n) ==> versions::version_order(m + a, n + b)
            == versions::version_order(a, b),
{
    let x = m + a;
    let y = n + b;
    lemma_run_length(m, a);
    lemma_run_length(n, b);
    assert(x.take(m.len() as int) =~= m);
    assert(y.take(n.len() as int) =~= n);
    assert(x.skip(m.len() as int) =~= a);
    assert(y.skip(n.len() as int) =~= b);
    if m.len() > 0 {
        assert(x[0] == m[0]);
    }
    if n.len() > 0 {
        assert(y[0] == n[0]);
    }
}

/// A run of digits is read as a number in decimal.
pub proof fn digits_are_read_in_decimal(m: Seq<u8>, d: u8)
    requires
        48 <= d <= 57,
    ensures
        versions::number(Seq::empty()) == 0,
        versions::number(m.push(d)) == 10 * versions::number(m) + (d - 48),
{
    assert(m.push(d).drop_last() =~= m);
}

/// The groups with something to delete are planned in their order, each under
/// the rule that is for it; a group without a rule is not.
pub proof fn groups_are_planned_in_order(
    groups: Seq<(Seq<char>, Seq<Version>)>,
    name: Seq<char>,
    v: Seq<Version>,
    rules: Seq<Rule>,
    now: u64,
)
    ensures
        retention_run::run_plan(Seq::empty(), rules, now).len() == 0,
        retention_run::run_plan(groups.push((name, v)), rules, now) == (match retention::rule_for(
            rules,
            retention::registry_of(name),
            name,
        ) {
            Some(k) => if retention::planned(v, rules[k], now).len() > 0 {
                retention_run::run_plan(groups, rules, now).push(
                    (name, retention::planned(v, rules[k], now)),
                )
            } else {
                retention_run::run_plan(groups, rules, now)
            },
            None => retention_run::run_plan(groups, rules, now),
        }),
{
    assert(groups.push((name, v)).drop_last() =~= groups);
}

/// The keys that go are those of all deletions of all plans, in their order.
pub proof fn all_planned_keys_go(
    plans: Seq<(Seq<char>, Seq<Deletion>)>,
    name: Seq<char>,
    plan: Seq<Deletion>,
    d: Deletion,
)
    ensures
        retention_run::keys_in(Seq::empty()).len() == 0,
        retention_run::keys_in(plan.push(d)) == retention_run::keys_in(plan) + d.keys,
        retention_run::doomed_keys(Seq::empty()).len() == 0,
        retention_run::doomed_keys(plans.push((name, plan))) == retention_run::doomed_keys(plans)
            + retention_run::keys_in(plan),
{
    assert(plan.push(d).drop_last() =~= plan);
    assert(plans.push((name, plan)).drop_last() =~= plans);
}

/// Sizes and numbers of all plans add up.
pub proof fn plans_add_up(
    plans: Seq<(Seq<char>, Seq<Deletion>)>,
    name: Seq<char>,
    plan: Seq<Deletion>,
    d: Deletion,
)
    ensures
        retention_run::bytes_in(Seq::empty()) == 0,
        retention_run::bytes_in(plan.push(d)) == retention_run::bytes_in(plan) + d.size,
        retention_run::planned_bytes(Seq::empty()) == 0,
        retention_run::planned_bytes(plans.push((name, plan))) == retention_run::planned_bytes(plans)
            + retention_run::bytes_in(plan),
        retention_run::planned_count(Seq::empty()) == 0,
        retention_run::planned_count(plans.push((name, plan))) == retention_run::planned_count(plans)
            + plan.len(),
{
    assert(plan.push(d).drop_last() =~= plan);
    assert(plans.push((name, plan)).drop_last() =~= plans);
}

/// A group of a format is of the repository that stands behind the colon, and a
/// group of another registry is of none.
pub proof fn groups_name_their_repository(repo: Seq<char>, rest: Seq<char>, other: Seq<char>)
    requires
        !repo.contains('/'),
    ensures
        retention_run::repo_of_group(Format::Rpm, "rpm:"@ + repo + "/"@ + rest) == Some(repo),
        retention_run::repo_of_group(Format::Deb, "deb:"@ + repo + "/"@ + rest) == Some(repo),
        !"rpm:"@.is_prefix_of(other) ==> retention_run::repo_of_group(Format::Rpm, other) is None,
        !"deb:"@.is_prefix_of(other) ==> retention_run::repo_of_group(Format::Deb, other) is None,
{
    reveal_strlit("rpm");
    reveal_strlit("deb");
    reveal_strlit(":");
    reveal_strlit("rpm:");
    reveal_strlit("deb:");
    reveal_strlit("/");
    assert("rpm"@ + ":"@ =~= "rpm:"@);
    assert("deb"@ + ":"@ =~= "deb:"@);
    let inner = repo + "/"@ + rest;
    assert("rpm:"@ + repo + "/"@ + rest =~= "rpm:"@ + inner);
    assert("deb:"@ + repo + "/"@ + rest =~= "deb:"@ + inner);
    path::prefixes_come_off("rpm:"@, inner);
    path::prefixes_come_off("deb:"@, inner);
    assert(inner =~= repo.push('/') + rest);
    path::pieces_follow_each_other(repo, '/', rest);
    path::lemma_single_piece(repo, '/');
}

/// Repositories are rebuilt under the lock of what publishes them.
pub proof fn rebuilds_take_the_publish_lock(repo: Seq<char>)
    ensures
        retention_run::rebuild_lock(Format::Rpm, repo) == "rpm/"@ + repo
            + "/repodata/repomd.xml"@,
        retention_run::rebuild_lock(Format::Deb, repo) == "deb/"@ + repo + "/Release"@,
{
}

/// A run looks at the groups of all nine registries, and at no others.
pub proof fn runs_cover_all_registries(s: RetentionSnapshot, g: (Seq<char>, Seq<Version>))
    ensures
        retention_run::all_groups(s).contains(g) <==> {
            ||| collect::collected(Registry::Maven, text::texts(s.maven@), s.stats@).contains(g)
            ||| collect::collected(Registry::Docker, text::texts(s.docker@), s.stats@).contains(g)
            ||| collect::collected(Registry::Npm, text::texts(s.npm@), s.stats@).contains(g)
            ||| collect::collected(Registry::Pypi, text::texts(s.pypi@), s.stats@).contains(g)
            ||| collect::collected(Registry::Cargo, text::texts(s.cargo@), s.stats@).contains(g)
            ||| collect::collected(Registry::Go, text::texts(s.go@), s.stats@).contains(g)
            ||| collect::collected(Registry::Raw, text::texts(s.raw@), s.stats@).contains(g)
            ||| sidecar::collected_sidecars(
                Format::Rpm,
                text::texts(s.rpm@),
                s.files@,
                s.stats@,
            ).contains(g)
            ||| sidecar::collected_sidecars(
                Format::Deb,
                text::texts(s.deb@),
                s.files@,
                s.stats@,
            ).contains(g)
        },
{
    let a = retention_run::registry_groups(Registry::Maven, s.maven, s);
    let b = retention_run::registry_groups(Registry::Docker, s.docker, s);
    let c = retention_run::registry_groups(Registry::Npm, s.npm, s);
    let d = retention_run::registry_groups(Registry::Pypi, s.pypi, s);
    let e = retention_run::registry_groups(Registry::Cargo, s.cargo, s);
    let f = retention_run::registry_groups(Registry::Go, s.go, s);
    let h = retention_run::format_groups(Format::Rpm, s.rpm, s);
    let i = retention_run::format_groups(Format::Deb, s.deb, s);
    let j = retention_run::registry_groups(Registry::Raw, s.raw, s);
    gc_laws::lemma_in_a_row(a, b, g);
    gc_laws::lemma_in_a_row(a + b, c, g);
    gc_laws::lemma_in_a_row(a + b + c, d, g);
    gc_laws::lemma_in_a_row(a + b + c + d, e, g);
    gc_laws::lemma_in_a_row(a + b + c + d + e, f, g);
    gc_laws::lemma_in_a_row(a + b + c + d + e + f, h, g);
    gc_laws::lemma_in_a_row(a + b + c + d + e + f + h, i, g);
    gc_laws::lemma_in_a_row(a + b + c + d + e + f + h + i, j, g);
}

/// The texts that an rpm sidecar gives.
pub proof fn rpm_sidecars_say(
    doc: JsonTree,
    name: Seq<char>,
    version: Seq<char>,
    release: Seq<char>,
    arch: Seq<char>,
    href: Seq<char>,
    size: u64,
    time: u64,
)
    requires
        json::text_member(doc, "name"@) == Some(name),
        json::text_member(doc, "version"@) == Some(version),
        json::text_member(doc, "release"@) == Some(release),
        json::text_member(doc, "arch"@) == Some(arch),
        json::text_member(doc, "href"@) == Some(href),
        json::member(doc, "size_package"@) == Some(JsonTree::Unsigned(size)),
        json::member(doc, "file_time"@) == Some(JsonTree::Unsigned(time)),
    ensures
        sidecar::described(Format::Rpm, doc) == (Sidecar {
            package: name,
            version: version + "-"@ + release + "."@ + arch,
            arch,
            href,
            size,
            modified: Some(time),
            placement: None,
        }),
{
}

/// What a deb sidecar gives, with its placement.
pub proof fn deb_sidecars_say(
    doc: JsonTree,
    package: Seq<char>,
    version: Seq<char>,
    arch: Seq<char>,
    filename: Seq<char>,
    size: u64,
    placement: JsonTree,
    distribution: Seq<char>,
    component: Seq<char>,
)
    requires
        json::text_member(doc, "package"@) == Some(package),
        json::text_member(doc, "version"@) == Some(version),
        json::text_member(doc, "arch"@) == Some(arch),
        json::text_member(doc, "filename"@) == Some(filename),
        json::member(doc, "size"@) == Some(JsonTree::Unsigned(size)),
        json::member(doc, "placement"@) == Some(placement),
        json::text_member(placement, "distribution"@) == Some(distribution),
        json::text_member(placement, "component"@) == Some(component),
    ensures
        sidecar::described(Format::Deb, doc) == (Sidecar {
            package,
            version: version + "_"@ + arch,
            arch,
            href: filename,
            size,
            modified: None,
            placement: Some(distribution + "/"@ + component),
        }),
{
}

/// What a sidecar lacks counts as empty, as zero or as unknown.
pub proof fn sidecars_may_lack_values(doc: JsonTree)
    ensures
        json::text_member(doc, "name"@) is None ==> sidecar::described(
            Format::Rpm,
            doc,
        ).package.len() == 0,
        json::text_member(doc, "package"@) is None ==> sidecar::described(
            Format::Deb,
            doc,
        ).package.len() == 0,
        json::text_member(doc, "href"@) is None ==> sidecar::described(Format::Rpm, doc).href.len()
            == 0,
        json::text_member(doc, "filename"@) is None ==> sidecar::described(
            Format::Deb,
            doc,
        ).href.len() == 0,
        json::text_member(doc, "arch"@) is None ==> sidecar::described(Format::Rpm, doc).arch.len()
            == 0 && sidecar::described(Format::Deb, doc).arch.len() == 0,
        !(json::member(doc, "size_package"@) matches Some(n) && n is Unsigned)
            ==> sidecar::described(Format::Rpm, doc).size == 0,
        !(json::member(doc, "size"@) matches Some(n) && n is Unsigned) ==> sidecar::described(
            Format::Deb,
            doc,
        ).size == 0,
        !(json::member(doc, "file_time"@) matches Some(n) && n is Unsigned) ==> sidecar::described(
            Format::Rpm,
            doc,
        ).modified is None,
        sidecar::described(Format::Deb, doc).modified is None,
        json::member(doc, "placement"@) is None ==> sidecar::described(
            Format::Deb,
            doc,
        ).placement is None,
        json::member(doc, "placement"@) matches Some(p) && json::text_member(
            p,
            "distribution"@,
        ) is None ==> sidecar::described(Format::Deb, doc).placement is None,
        json::member(doc, "placement"@) matches Some(p) && json::text_member(
            p,
            "component"@,
        ) is None ==> sidecar::described(Format::Deb, doc).placement is None,
{
}

/// A package is grouped by its repository, its placement where it has one, its
/// architecture and its name.
pub proof fn packages_are_grouped(repo: Seq<char>, s: Sidecar, p: Seq<char>)
    ensures
        s.placement is None ==> sidecar::sidecar_group(Format::Rpm, repo, s) == "rpm:"@ + repo
            + "/"@ + s.arch + "/"@ + s.package,
        s.placement is None ==> sidecar::sidecar_group(Format::Deb, repo, s) == "deb:"@ + repo
            + "/"@ + s.arch + "/"@ + s.package,
        s.placement == Some(p) ==> sidecar::sidecar_group(Format::Deb, repo, s) == "deb:"@ + repo
            + "/"@ + p + "/"@ + s.arch + "/"@ + s.package,
{
    reveal_strlit("rpm");
    reveal_strlit("deb");
    reveal_strlit(":");
    reveal_strlit("rpm:");
    reveal_strlit("deb:");
    assert("rpm"@ + ":"@ =~= "rpm:"@);
    assert("deb"@ + ":"@ =~= "deb:"@);
}

/// The version that a sidecar stands for is its package file and itself, as old
/// as it says, or else as its own file.
pub proof fn sidecar_versions_hold_package_and_sidecar(
    format: Format,
    repo: Seq<char>,
    file: Seq<char>,
    doc: JsonTree,
    stats: Map<Seq<char>, FileMeta>,
    name: Seq<char>,
)
    requires
        format == Format::Rpm ==> name == "rpm"@,
        format == Format::Deb ==> name == "deb"@,
        !text::has(repo + "/"@, "/.nora-meta/"@),
        sidecar::described(format, doc).package.len() > 0,
        sidecar::described(format, doc).href == file,
    ensures
        ({
            let key = name + "/"@ + repo + "/.nora-meta/"@ + file + ".json"@;
            let s = sidecar::described(format, doc);
            sidecar::sidecar_entry(format, key, doc, stats) matches Some((group, version)) && {
                &&& group == sidecar::sidecar_group(format, repo, s)
                &&& version.name == s.version
                &&& version.keys == seq![name + "/"@ + repo + "/"@ + file, key]
                &&& version.size == s.size
                &&& s.modified matches Some(m) ==> version.modified == m
                &&& s.modified is None && stats.contains_key(key) ==> version.modified
                    == stats[key].modified
                &&& s.modified is None && !stats.contains_key(key) ==> version.modified == 0
            }
        }),
{
    reveal_strlit("/.nora-meta/");
    let key = name + "/"@ + repo + "/.nora-meta/"@ + file + ".json"@;
    let rest = repo + "/.nora-meta/"@ + (file + ".json"@);
    assert(key =~= name + "/"@ + rest);
    path::prefixes_come_off(name + "/"@, rest);
    path::directories_come_apart(repo, "/.nora-meta/"@, file + ".json"@);
    path::suffixes_come_off(file, ".json"@);
}

/// Every readable sidecar that describes its package adds its version to those
/// of the format.
pub proof fn readable_sidecars_add_their_version(
    format: Format,
    keys: Seq<Seq<char>>,
    key: Seq<char>,
    files: Map<Seq<char>, Vec<u8>>,
    stats: Map<Seq<char>, FileMeta>,
)
    ensures
        sidecar::sidecar_rows(format, Seq::empty(), files, stats).len() == 0,
        files.contains_key(key) && (json::parsed(files[key]@) matches Some(doc)
            && sidecar::sidecar_entry(format, key, doc, stats) is Some) ==> sidecar::sidecar_rows(
            format,
            keys.push(key),
            files,
            stats,
        ) == sidecar::sidecar_rows(format, keys, files, stats).push(
            sidecar::sidecar_entry(format, key, json::parsed(files[key]@)->0, stats)->0,
        ),
        !(files.contains_key(key) && (json::parsed(files[key]@) matches Some(doc)
            && sidecar::sidecar_entry(format, key, doc, stats) is Some)) ==> sidecar::sidecar_rows(
            format,
            keys.push(key),
            files,
            stats,
        ) == sidecar::sidecar_rows(format, keys, files, stats),
{
    assert(keys.push(key).drop_last() =~= keys);
}

/// Names in ASCII are compared by their characters.
pub proof fn ascii_names_are_their_bytes(s: Seq<char>, i: int)
    requires
        vstd::utf8::is_ascii_chars(s),
        0 <= i < s.len(),
    ensures
        versions::name_bytes(s).len() == s.len(),
        versions::name_bytes(s)[i] as int == s[i] as int,
{
    vstd::utf8::is_ascii_chars_encode_utf8(s);
}

/// A name ranks below where the order is negative, level where it is zero, above
/// where it is positive.
pub proof fn ranks_go_by_the_sign(d: int)
    ensures
        versions::rank_of(versions::Rank::Below, d) <==> d < 0,
        versions::rank_of(versions::Rank::Level, d) <==> d == 0,
        versions::rank_of(versions::Rank::Above, d) <==> d > 0,
{
}

/// A dry run touches nothing. A real one deletes the keys of all plans and
/// rebuilds the repositories of both formats that the plans name.
pub proof fn runs_work_off_their_plans(
    w: RetentionWork,
    plans: Seq<(Seq<char>, Seq<Deletion>)>,
    repo: Seq<char>,
)
    ensures
        retention_run::is_work(w, plans, true) ==> w.deletions@.len() == 0 && w.rebuild_deb@.len()
            == 0 && w.rebuild_rpm@.len() == 0,
        retention_run::is_work(w, plans, false) ==> text::texts(w.deletions@)
            == retention_run::doomed_keys(plans),
        retention_run::is_work(w, plans, false) ==> (text::texts(w.rebuild_rpm@).contains(repo)
            <==> exists|k: int|
            0 <= k < plans.len() && retention_run::repo_of_group(
                Format::Rpm,
                (#[trigger] plans[k]).0,
            ) == Some(repo)),
        retention_run::is_work(w, plans, false) ==> (text::texts(w.rebuild_deb@).contains(repo)
            <==> exists|k: int|
            0 <= k < plans.len() && retention_run::repo_of_group(
                Format::Deb,
                (#[trigger] plans[k]).0,
            ) == Some(repo)),
{
    retention_run::touched_repositories_are_rebuilt(Format::Rpm, plans, repo);
    retention_run::touched_repositories_are_rebuilt(Format::Deb, plans, repo);
}

/// Each version that sidecars give is gathered in its group, and nothing else
/// is.
pub proof fn versions_are_gathered_by_group(
    rows: Seq<(Seq<char>, Version)>,
    group: Seq<char>,
    version: Version,
)
    ensures
        rows.contains((group, version)) <==> exists|g: int|
            0 <= g < sidecar::gathered(rows).len() && (#[trigger] sidecar::gathered(rows)[g]).0
                == group && sidecar::gathered(rows)[g].1.contains(version),
        forall|g: int, h: int|
            0 <= g < h < sidecar::gathered(rows).len() ==> (#[trigger] sidecar::gathered(rows)[g]).0
                != (#[trigger] sidecar::gathered(rows)[h]).0,
{
    let names = sidecar::row_groups(rows);
    let items = sidecar::row_versions(rows);
    let groups = sidecar::gathered(rows);
    let ds = grouping::distinct(names);
    grouping::lemma_distinct(names);
    grouping::lemma_places(names, group);
    let at = grouping::places(names, group);
    if rows.contains((group, version)) {
        let r = choose|r: int| 0 <= r < rows.len() && rows[r] == (group, version);
        assert(names[r] == group);
        assert(names.contains(group));
        assert(ds.contains(group));
        let g = choose|g: int| 0 <= g < ds.len() && ds[g] == group;
        assert(at.contains(r));
        let k = choose|k: int| 0 <= k < at.len() && at[k] == r;
        assert(groups[g].1[k] == items[r]);
        assert(groups[g].0 == group && groups[g].1.contains(version));
    }
    if exists|g: int|
        0 <= g < groups.len() && (#[trigger] groups[g]).0 == group && groups[g].1.contains(
            version,
        ) {
        let g = choose|g: int|
            0 <= g < groups.len() && (#[trigger] groups[g]).0 == group && groups[g].1.contains(
                version,
            );
        let k = choose|k: int| 0 <= k < groups[g].1.len() && groups[g].1[k] == version;
        assert(groups[g].1[k] == items[at[k]]);
        assert(names[at[k]] == group);
        assert(rows[at[k]] == (group, version));
    }
    assert forall|g: int, h: int| 0 <= g < h < groups.len() implies (#[trigger] groups[g]).0 != (
    #[trigger] groups[h]).0 by {
        assert(ds[g] != ds[h]);
    }
}

/// Every version among the groups is of a size that 64 bits can hold.
pub open spec fn all_fit(
    groups: Seq<(Seq<char>, Seq<Version>)>,
    stats: Map<Seq<char>, FileMeta>,
) -> bool {
    forall|g: int, v: int|
        0 <= g < groups.len() && 0 <= v < groups[g].1.len() ==> collect::total_size(
            (#[trigger] groups[g].1[v]).keys,
            stats,
        ) <= 0xffff_ffff_ffff_ffff
}

/// A run can measure all versions exactly where the size of each version of the
/// Maven, npm, PyPI, Cargo, Go and raw registries fits in 64 bits.
pub proof fn runs_measure_every_version(s: RetentionSnapshot)
    ensures
        retention_run::versions_fit(s) <==> all_fit(
            retention_run::registry_groups(Registry::Maven, s.maven, s),
            s.stats@,
        ) && all_fit(retention_run::registry_groups(Registry::Npm, s.npm, s), s.stats@) && all_fit(
            retention_run::registry_groups(Registry::Pypi, s.pypi, s),
            s.stats@,
        ) && all_fit(retention_run::registry_groups(Registry::Cargo, s.cargo, s), s.stats@)
            && all_fit(retention_run::registry_groups(Registry::Go, s.go, s), s.stats@) && all_fit(
            retention_run::registry_groups(Registry::Raw, s.raw, s),
            s.stats@,
        ),
{
    collect_laws::sizes_fit_version_by_version(Registry::Maven, text::texts(s.maven@), s.stats@);
    collect_laws::sizes_fit_version_by_version(Registry::Npm, text::texts(s.npm@), s.stats@);
    collect_laws::sizes_fit_version_by_version(Registry::Pypi, text::texts(s.pypi@), s.stats@);
    collect_laws::sizes_fit_version_by_version(Registry::Cargo, text::texts(s.cargo@), s.stats@);
    collect_laws::sizes_fit_version_by_version(Registry::Go, text::texts(s.go@), s.stats@);
    collect_laws::sizes_fit_version_by_version(Registry::Raw, text::texts(s.raw@), s.stats@);
}

/// A run takes the snapshot exactly where the layout of its Go keys is right.
pub proof fn runs_check_the_go_layout(s: RetentionSnapshot)
    ensures
        retention_run::snapshot_ok(s) <==> forall|i: int|
            0 <= i < s.go@.len() ==> !text::occurs_at((#[trigger] s.go@[i])@, "/@v/"@, 0)
                && !text::occurs_at(s.go@[i]@, "/@v/"@, 1) && !text::occurs_at(
                s.go@[i]@,
                "/@v/"@,
                2,
            ),
{
    let keys = text::texts(s.go@);
    collect_laws::go_layouts_are_checked_key_by_key(Registry::Go, keys);
    assert forall|i: int| 0 <= i < s.go@.len() implies keys[i] == (#[trigger] s.go@[i])@ by {}
    if retention_run::snapshot_ok(s) {
        assert forall|i: int| 0 <= i < s.go@.len() implies !text::occurs_at(
            (#[trigger] s.go@[i])@,
            "/@v/"@,
            0,
        ) && !text::occurs_at(s.go@[i]@, "/@v/"@, 1) && !text::occurs_at(
            s.go@[i]@,
            "/@v/"@,
            2,
        ) by {
            assert(!text::occurs_at(keys[i], "/@v/"@, 0));
        }
    }
}

} // verus!
