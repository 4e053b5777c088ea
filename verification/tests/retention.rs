use nora_upkeep::glob::glob_match;
use nora_upkeep::retention::{
    find_matching_rule, is_excluded, plan_deletions, RetentionRule, VersionEntry,
};
use nora_upkeep::versions::cmp_version_names;

fn make_rule(
    keep_last: Option<u32>,
    older_than_days: Option<u32>,
    exclude_tags: Vec<&str>,
) -> RetentionRule {
    RetentionRule {
        registry: "*".to_string(),
        name_glob: None,
        keep_last,
        older_than_days,
        exclude_tags: exclude_tags.into_iter().map(String::from).collect(),
    }
}

fn make_version(name: &str, modified: u64, size: u64) -> VersionEntry {
    VersionEntry {
        name: name.to_string(),
        keys: vec![format!("test/{}", name)],
        modified,
        size,
    }
}

const NOW: u64 = 1_776_000_000;
const DAY: u64 = 86400;

#[test]
fn test_glob_exact() {
    assert!(glob_match("latest", "latest"));
    assert!(!glob_match("latest", "latest2"));
}

#[test]
fn test_glob_star() {
    assert!(glob_match("v*", "v1.0.0"));
    assert!(glob_match("v*", "v"));
    assert!(!glob_match("v*", "1.0.0"));
    assert!(glob_match("*-SNAPSHOT", "1.0.0-SNAPSHOT"));
    assert!(!glob_match("*-SNAPSHOT", "1.0.0"));
}

#[test]
fn test_glob_question() {
    assert!(glob_match("v?.0", "v1.0"));
    assert!(!glob_match("v?.0", "v10.0"));
}

#[test]
fn test_glob_complex() {
    assert!(glob_match("release-*", "release-1.0"));
    assert!(glob_match("release-*", "release-"));
    assert!(!glob_match("release-*", "dev-1.0"));
}

#[test]
fn glob_counts_characters_and_not_bytes() {
    assert!(glob_match("?", "é"));
    assert!(!glob_match("?", ""));
    assert!(glob_match("", ""));
    assert!(!glob_match("", "a"));
}

#[test]
fn glob_of_several_stars() {
    assert!(glob_match("*-dev-*/*", "app-dev-x1/x86_64/pkg"));
    assert!(!glob_match("*-dev-*/*", "app-dev-x1"));
    assert!(glob_match("**", ""));
    assert!(glob_match("a*b*c", "aXXbYYbc"));
    assert!(!glob_match("a*b*c", "aXXcYYb"));
}

#[test]
fn test_keep_last_basic() {
    let versions = vec![
        make_version("1.0", NOW - 3 * DAY, 100),
        make_version("2.0", NOW - 2 * DAY, 200),
        make_version("3.0", NOW - DAY, 300),
    ];
    let rule = make_rule(Some(2), None, vec![]);
    let plans = plan_deletions(versions, &rule, NOW);
    assert_eq!(plans.len(), 1);
    assert_eq!(plans[0].version_name, "1.0");
}

#[test]
fn test_keep_last_keeps_all_if_under_limit() {
    let versions = vec![
        make_version("1.0", NOW - DAY, 100),
        make_version("2.0", NOW, 200),
    ];
    let rule = make_rule(Some(5), None, vec![]);
    let plans = plan_deletions(versions, &rule, NOW);
    assert!(plans.is_empty());
}

#[test]
fn test_older_than_days() {
    let versions = vec![
        make_version("old", NOW - 31 * DAY, 100),
        make_version("new", NOW - DAY, 200),
    ];
    let rule = make_rule(None, Some(30), vec![]);
    let plans = plan_deletions(versions, &rule, NOW);
    assert_eq!(plans.len(), 1);
    assert_eq!(plans[0].version_name, "old");
}

#[test]
fn test_keep_last_and_older_than() {
    let versions = vec![
        make_version("1.0", NOW - 60 * DAY, 100),
        make_version("2.0", NOW - 2 * DAY, 200),
        make_version("3.0", NOW - DAY, 300),
    ];
    let rule = make_rule(Some(1), Some(30), vec![]);
    let plans = plan_deletions(versions, &rule, NOW);
    assert_eq!(plans.len(), 1);
    assert_eq!(plans[0].version_name, "1.0");
}

#[test]
fn test_exclude_tags() {
    let versions = vec![
        make_version("latest", NOW - 100 * DAY, 100),
        make_version("1.0", NOW - 100 * DAY, 200),
        make_version("2.0", NOW, 300),
    ];
    let rule = make_rule(Some(1), None, vec!["latest"]);
    let plans = plan_deletions(versions, &rule, NOW);
    assert_eq!(plans.len(), 1);
    assert_eq!(plans[0].version_name, "1.0");
}

#[test]
fn test_exclude_glob_pattern() {
    let versions = vec![
        make_version("release-1.0", NOW - 100 * DAY, 100),
        make_version("release-2.0", NOW - 50 * DAY, 200),
        make_version("dev-build", NOW - 100 * DAY, 300),
    ];
    let rule = make_rule(Some(1), None, vec!["release-*"]);
    let plans = plan_deletions(versions, &rule, NOW);
    assert_eq!(plans.len(), 1);
    assert_eq!(plans[0].version_name, "dev-build");
}

#[test]
fn test_version_name_tiebreak_is_numeric_aware() {
    assert_eq!(
        cmp_version_names("1.10_amd64", "1.9_amd64"),
        std::cmp::Ordering::Greater
    );
    assert_eq!(
        cmp_version_names("1.0~rc1", "1.0"),
        std::cmp::Ordering::Less
    );
    assert_eq!(cmp_version_names("2.0", "2.0"), std::cmp::Ordering::Equal);
    assert_eq!(
        cmp_version_names("1.2.3-4", "1.2.3-10"),
        std::cmp::Ordering::Less
    );

    let versions = vec![
        make_version("1.9_amd64", NOW, 100),
        make_version("1.10_amd64", NOW, 100),
    ];
    let rule = make_rule(Some(1), None, vec![]);
    let plans = plan_deletions(versions, &rule, NOW);
    assert_eq!(plans.len(), 1);
    assert_eq!(plans[0].version_name, "1.9_amd64");
}

#[test]
fn test_empty_versions() {
    let rule = make_rule(Some(1), None, vec![]);
    let plans = plan_deletions(vec![], &rule, NOW);
    assert!(plans.is_empty());
}

#[test]
fn test_deletion_reason_format() {
    let versions = vec![
        make_version("old", NOW - 100 * DAY, 100),
        make_version("new", NOW, 200),
    ];
    let rule = make_rule(Some(1), Some(30), vec![]);
    let plans = plan_deletions(versions, &rule, NOW);
    assert_eq!(plans.len(), 1);
    assert!(plans[0].reason.contains("keep_last"));
    assert!(plans[0].reason.contains("older than"));
}

#[test]
fn test_name_glob_targets_specific_repos() {
    let rules = vec![
        rule("rpm", Some("*-dev-*/*"), None, Some(7)),
        rule("rpm", Some("*-stream-*/*"), Some(25), None),
    ];
    assert_eq!(
        find_matching_rule(&rules, "rpm", "rpm:app-dev-x1/x86_64/pkg").map(|r| r.older_than_days),
        Some(Some(7))
    );
    assert_eq!(
        find_matching_rule(&rules, "rpm", "rpm:app-stream-x/x86_64/pkg").map(|r| r.keep_last),
        Some(Some(25))
    );
    assert!(
        find_matching_rule(&rules, "rpm", "rpm:app-release/x86_64/pkg").is_none(),
        "no rule = keep forever"
    );
}

fn rule(
    registry: &str,
    glob: Option<&str>,
    keep: Option<u32>,
    days: Option<u32>,
) -> RetentionRule {
    RetentionRule {
        registry: registry.into(),
        name_glob: glob.map(String::from),
        keep_last: keep,
        older_than_days: days,
        exclude_tags: vec![],
    }
}

#[test]
fn deletion_carries_the_version() {
    let versions = vec![
        make_version("old", NOW - 100 * DAY, 100),
        make_version("new", NOW, 200),
    ];
    let plans = plan_deletions(versions, &make_rule(Some(1), Some(30), vec![]), NOW);
    assert_eq!(plans[0].version_name, "old");
    assert_eq!(plans[0].keys, vec!["test/old".to_string()]);
    assert_eq!(plans[0].size, 100);
}

#[test]
fn rule_without_conditions_deletes_nothing() {
    let versions = vec![
        make_version("1.0", 0, 100),
        make_version("2.0", NOW, 200),
    ];
    assert!(plan_deletions(versions, &make_rule(None, None, vec![]), NOW).is_empty());
}

#[test]
fn keep_last_zero_deletes_all_but_the_excluded() {
    let versions = vec![
        make_version("1.0", NOW, 100),
        make_version("latest", NOW, 200),
    ];
    let plans = plan_deletions(versions, &make_rule(Some(0), None, vec!["lat*"]), NOW);
    assert_eq!(plans.len(), 1);
    assert_eq!(plans[0].version_name, "1.0");
}

#[test]
fn excluded_versions_take_a_place_among_the_newest() {
    let versions = vec![
        make_version("1.0", NOW - 2 * DAY, 1),
        make_version("latest", NOW, 1),
        make_version("2.0", NOW - DAY, 1),
    ];
    let plans = plan_deletions(versions, &make_rule(Some(1), None, vec!["latest"]), NOW);
    let names: Vec<&str> = plans.iter().map(|p| p.version_name.as_str()).collect();
    assert_eq!(names, vec!["2.0", "1.0"]);
}

#[test]
fn reasons_name_the_conditions() {
    let versions = || vec![
        make_version("old", NOW - 100 * DAY, 100),
        make_version("new", NOW, 200),
    ];
    let reason = |rule| plan_deletions(versions(), &rule, NOW)[0].reason.clone();
    assert_eq!(
        reason(make_rule(Some(1), Some(30), vec![])),
        "beyond keep_last=1, older than 30 days"
    );
    assert_eq!(reason(make_rule(None, Some(7), vec![])), "older than 7 days");
    assert_eq!(reason(make_rule(Some(1), None, vec![])), "beyond keep_last=1");
}

#[test]
fn versions_from_the_future_are_young() {
    let versions = vec![make_version("1.0", NOW + DAY, 1)];
    assert!(plan_deletions(versions, &make_rule(None, Some(1), vec![]), NOW).is_empty());
}

#[test]
fn exclusion_patterns_are_alternatives() {
    let patterns = vec!["latest".to_string(), "v?.*".to_string()];
    assert!(is_excluded("latest", &patterns));
    assert!(is_excluded("v1.2", &patterns));
    assert!(!is_excluded("v10.2", &patterns));
    assert!(!is_excluded("latest", &[]));
}

#[test]
fn first_of_two_matching_rules_is_taken() {
    let rules = vec![
        rule("*", None, Some(3), None),
        rule("npm", None, Some(9), None),
    ];
    assert_eq!(
        find_matching_rule(&rules, "npm", "npm:lodash").and_then(|r| r.keep_last),
        Some(3)
    );
    assert!(find_matching_rule(&rules[1..], "maven", "maven:a").is_none());
}

#[test]
fn version_names_are_totally_ordered() {
    let names = ["1.0~rc1", "1.0", "1.0-1", "1.0a", "1.9", "1.10", "2", "", "01", "1", "~", "a~"];
    for a in names {
        assert_eq!(cmp_version_names(a, a), std::cmp::Ordering::Equal);
        for b in names {
            assert_eq!(cmp_version_names(a, b), cmp_version_names(b, a).reverse());
            for c in names {
                if cmp_version_names(a, b) != std::cmp::Ordering::Greater
                    && cmp_version_names(b, c) != std::cmp::Ordering::Greater
                {
                    assert_ne!(
                        cmp_version_names(a, c),
                        std::cmp::Ordering::Greater,
                        "{a} {b} {c}"
                    );
                }
            }
        }
    }
}

#[test]
fn version_names_of_great_length_compare_by_value() {
    assert_eq!(
        cmp_version_names("1.100000000000000000000000000000", "1.99999999999999999999999999999"),
        std::cmp::Ordering::Greater
    );
    assert_eq!(
        cmp_version_names("1.0~~", "1.0~"),
        std::cmp::Ordering::Less
    );
}

#[test]
fn what_a_rule_leaves_it_leaves_again() {
    let versions = || {
        vec![
            make_version("1.0", NOW - 90 * DAY, 1),
            make_version("latest", NOW - 80 * DAY, 1),
            make_version("2.0", NOW - 70 * DAY, 1),
            make_version("3.0", NOW - DAY, 1),
        ]
    };
    for rule in [
        make_rule(Some(2), None, vec!["latest"]),
        make_rule(None, Some(30), vec!["latest"]),
        make_rule(Some(1), Some(30), vec![]),
    ] {
        let deleted: Vec<String> = plan_deletions(versions(), &rule, NOW)
            .into_iter()
            .map(|d| d.version_name)
            .collect();
        assert!(!deleted.is_empty());
        let left: Vec<VersionEntry> = versions()
            .into_iter()
            .filter(|v| !deleted.contains(&v.name))
            .collect();
        assert_eq!(left.len() + deleted.len(), 4);
        assert!(plan_deletions(left, &rule, NOW).is_empty());
    }
}
