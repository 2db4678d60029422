use std::collections::HashSet;

use dragonfly_client::models::{make_file_scan_result, MetadataEntry, MetadataValue, RuleMatch};
use dragonfly_client::scanner::{
    scan_file_matches, DistributionScanResults, FileScanResult, PackageScanResults, RuleScore,
};

fn rule_score(name: &str, score: i64) -> RuleScore {
    RuleScore {
        name: name.to_string(),
        score,
    }
}

fn file_result(rules: Vec<RuleScore>) -> FileScanResult {
    FileScanResult {
        path: String::new(),
        rules,
    }
}

/// Build a rule match with a weight and, optionally, a filetype gate.
fn rule_match(identifier: &str, weight: Option<i64>, filetype: Option<&str>) -> RuleMatch {
    let mut metadata = Vec::new();
    if let Some(w) = weight {
        metadata.push(MetadataEntry {
            identifier: "weight".to_string(),
            value: MetadataValue::Integer(w),
        });
    }
    if let Some(ft) = filetype {
        metadata.push(MetadataEntry {
            identifier: "filetype".to_string(),
            value: MetadataValue::String(ft.to_string()),
        });
    }
    RuleMatch {
        identifier: identifier.to_string(),
        patterns: Vec::new(),
        metadata,
    }
}

#[test]
fn models_test_file_score() {
    let fsr = make_file_scan_result("ayo", &[("rule1", 5), ("rule2", 7)]);
    assert_eq!(fsr.calculate_score(), 12);
}

#[test]
fn scanner_test_file_score() {
    let rules = vec![rule_score("rule1", 5), rule_score("rule2", 7)];

    let file_scan_result = FileScanResult {
        path: String::new(),
        rules,
    };
    assert_eq!(file_scan_result.calculate_score(), 12);
}

#[test]
fn test_get_most_malicious_file() {
    let file_scan_results = vec![
        file_result(vec![rule_score("rule1", 5)]),
        file_result(vec![rule_score("rule2", 7)]),
        file_result(vec![rule_score("rule3", 4)]),
    ];

    let distribution_scan_results =
        DistributionScanResults::new(file_scan_results, "https://example.net".to_string());

    assert_eq!(
        distribution_scan_results
            .get_most_malicious_file()
            .unwrap()
            .rules[0]
            .name,
        "rule2"
    );
}

#[test]
fn test_get_matched_rules() {
    let file_scan_results = vec![
        file_result(vec![rule_score("rule1", 5), rule_score("rule2", 7)]),
        file_result(vec![rule_score("rule2", 7), rule_score("rule3", 9)]),
        file_result(vec![rule_score("rule3", 9), rule_score("rule4", 6)]),
    ];

    let distribution_scan_results =
        DistributionScanResults::new(file_scan_results, "https://example.net".to_string());

    let matched_rules: HashSet<RuleScore> = distribution_scan_results
        .get_matched_rules()
        .into_iter()
        .collect();

    let expected_rules = HashSet::from([
        rule_score("rule1", 5),
        rule_score("rule2", 7),
        rule_score("rule3", 9),
        rule_score("rule4", 6),
    ]);

    assert_eq!(matched_rules, expected_rules);
}

#[test]
fn test_get_matched_rule_identifiers() {
    let file_scan_results = vec![
        file_result(vec![rule_score("rule1", 5), rule_score("rule2", 7)]),
        file_result(vec![rule_score("rule2", 7), rule_score("rule3", 9)]),
        file_result(vec![rule_score("rule3", 9), rule_score("rule4", 6)]),
    ];

    let distribution_scan_results =
        DistributionScanResults::new(file_scan_results, "https://example.net".to_string());

    let matched_rule_identifiers = distribution_scan_results.get_matched_rule_identifiers();

    let expected_rule_identifiers = vec!["rule1", "rule2", "rule3", "rule4"];

    assert_eq!(
        HashSet::<String>::from_iter(matched_rule_identifiers),
        HashSet::<String>::from_iter(expected_rule_identifiers.into_iter().map(String::from))
    );
}

#[test]
fn test_build_package_scan_results_body() {
    let file_scan_results1 = vec![
        file_result(vec![rule_score("rule1", 5)]),
        file_result(vec![rule_score("rule2", 7)]),
    ];
    let distribution_scan_results1 = DistributionScanResults::new(
        file_scan_results1,
        "https://example.net/distrib1.tar.gz".to_string(),
    );

    let file_scan_results2 = vec![
        file_result(vec![rule_score("rule3", 2)]),
        file_result(vec![rule_score("rule4", 9)]),
    ];
    let distribution_scan_results2 = DistributionScanResults::new(
        file_scan_results2,
        "https://example.net/distrib2.whl".to_string(),
    );

    let package_scan_results = PackageScanResults::new(
        String::from("remmy"),
        String::from("4.20.69"),
        vec![distribution_scan_results1, distribution_scan_results2],
        String::from("abc"),
    );

    let body = package_scan_results.build_body();

    assert_eq!(
        body.inspector_url,
        Some(String::from("https://example.net/distrib1.tar.gz"))
    );
    assert_eq!(body.score, 12);
    assert_eq!(
        HashSet::from([
            "rule1".to_string(),
            "rule2".to_string(),
            "rule3".to_string(),
            "rule4".to_string()
        ]),
        HashSet::from_iter(body.rules_matched)
    );
}

#[test]
fn single_rule_single_file() {
    // One rule of weight 5 with no filetype gate; it matched the first file
    // and not the second.
    let rule = rule_match("contains_rust", Some(5), None);

    let file1 = scan_file_matches("file1.txt".to_string(), &vec![rule.clone()]);
    let file2 = scan_file_matches("file2.txt".to_string(), &Vec::new());

    assert_eq!(file1.rules, vec![rule_score("contains_rust", 5)]);
    assert!(file2.rules.is_empty());

    let dist = DistributionScanResults::new(vec![file1, file2], "https://example.net/".to_string());
    assert_eq!(dist.get_total_score(), 5);
    assert_eq!(
        dist.get_most_malicious_file().unwrap().path,
        "file1.txt".to_string()
    );
}

#[test]
fn rule_dedup_across_files() {
    // The same rule matches both files: each file reports it, yet the
    // distribution counts it once.
    let rule = rule_match("contains_rust", Some(5), None);

    let a = scan_file_matches("a.txt".to_string(), &vec![rule.clone()]);
    let b = scan_file_matches("b.txt".to_string(), &vec![rule.clone()]);
    assert_eq!(a.rules.len(), 1);
    assert_eq!(b.rules.len(), 1);

    let dist = DistributionScanResults::new(vec![a, b], "https://example.net/".to_string());
    assert_eq!(dist.get_total_score(), 5);
    assert_eq!(
        dist.get_matched_rule_identifiers(),
        vec!["contains_rust".to_string()]
    );
}

#[test]
fn filetype_gating() {
    // A rule gated to `py` raw-matches both files; only the .py file keeps it.
    let rule = rule_match("py_rule", Some(7), Some("py"));

    let gated_py = scan_file_matches("mod.py".to_string(), &vec![rule.clone()]);
    let gated_txt = scan_file_matches("notes.txt".to_string(), &vec![rule.clone()]);

    assert_eq!(gated_py.rules, vec![rule_score("py_rule", 7)]);
    assert!(gated_txt.rules.is_empty());
    assert_eq!(gated_py.calculate_score(), 7);
    assert_eq!(gated_txt.calculate_score(), 0);
}

#[test]
fn filetype_two_suffixes() {
    // `filetype = "py js"` applies to foo.py and bar.js but not baz.txt.
    let rule = rule_match("web_rule", Some(3), Some("py js"));

    assert_eq!(
        scan_file_matches("foo.py".to_string(), &vec![rule.clone()])
            .rules
            .len(),
        1
    );
    assert_eq!(
        scan_file_matches("bar.js".to_string(), &vec![rule.clone()])
            .rules
            .len(),
        1
    );
    assert_eq!(
        scan_file_matches("baz.txt".to_string(), &vec![rule.clone()])
            .rules
            .len(),
        0
    );
}

#[test]
fn empty_filetype_applies_everywhere() {
    // A rule whose filetype metadata is the empty string applies to every file.
    let rule = rule_match("anywhere", Some(2), Some(""));

    assert_eq!(
        scan_file_matches("whatever.bin".to_string(), &vec![rule.clone()])
            .rules
            .len(),
        1
    );
    assert_eq!(
        scan_file_matches(String::new(), &vec![rule.clone()]).rules.len(),
        1
    );
}

#[test]
fn unweighted_rule_counts_for_zero() {
    // A rule with no weight metadata contributes 0 but still appears among
    // the matched rule identifiers.
    let rule = rule_match("no_weight", None, None);

    let file = scan_file_matches("f.txt".to_string(), &vec![rule]);
    assert_eq!(file.rules, vec![rule_score("no_weight", 0)]);

    let dist = DistributionScanResults::new(vec![file], "https://example.net/".to_string());
    assert_eq!(dist.get_total_score(), 0);
    assert_eq!(
        dist.get_matched_rule_identifiers(),
        vec!["no_weight".to_string()]
    );
}

#[test]
fn most_malicious_tie_breaks_first() {
    // Two files with equal scores: the first in archive order wins.
    let x = FileScanResult::new("x.txt".to_string(), vec![rule_score("r1", 7)]);
    let y = FileScanResult::new("y.txt".to_string(), vec![rule_score("r2", 7)]);

    let dist = DistributionScanResults::new(vec![x, y], "https://example.net/".to_string());
    assert_eq!(dist.get_most_malicious_file().unwrap().path, "x.txt");
    assert_eq!(
        dist.inspector_url(),
        Some("https://example.net/x.txt".to_string())
    );
}

#[test]
fn winning_distribution() {
    // D1 totals 12, D2 totals 9: the body points into D1, scores 12, and
    // carries the union of the matched rule names.
    let d1 = DistributionScanResults::new(
        vec![
            FileScanResult::new("one.py".to_string(), vec![rule_score("ra", 5)]),
            FileScanResult::new("two.py".to_string(), vec![rule_score("rb", 7)]),
        ],
        "https://example.net/d1/".to_string(),
    );
    let d2 = DistributionScanResults::new(
        vec![FileScanResult::new(
            "three.py".to_string(),
            vec![rule_score("rc", 9)],
        )],
        "https://example.net/d2/".to_string(),
    );

    let package = PackageScanResults::new(
        "pkg".to_string(),
        "1.0.0".to_string(),
        vec![d1, d2],
        "deadbeef".to_string(),
    );
    let body = package.build_body();

    assert_eq!(body.score, 12);
    assert_eq!(
        body.inspector_url,
        Some("https://example.net/d1/two.py".to_string())
    );
    assert_eq!(
        HashSet::<String>::from_iter(body.rules_matched),
        HashSet::from(["ra".to_string(), "rb".to_string(), "rc".to_string()])
    );
    assert_eq!(body.commit, "deadbeef");
}

#[test]
fn winning_distribution_tie_breaks_first() {
    let d1 = DistributionScanResults::new(
        vec![FileScanResult::new(
            "a.py".to_string(),
            vec![rule_score("ra", 9)],
        )],
        "https://example.net/first/".to_string(),
    );
    let d2 = DistributionScanResults::new(
        vec![FileScanResult::new(
            "b.py".to_string(),
            vec![rule_score("rb", 9)],
        )],
        "https://example.net/second/".to_string(),
    );

    let package = PackageScanResults::new(
        "pkg".to_string(),
        "1.0.0".to_string(),
        vec![d1, d2],
        "c0ffee".to_string(),
    );
    let body = package.build_body();

    assert_eq!(body.score, 9);
    assert_eq!(
        body.inspector_url,
        Some("https://example.net/first/a.py".to_string())
    );
}

#[test]
fn empty_distribution_scores_zero() {
    // A distribution with no files produces a zero total and no inspector URL.
    let dist = DistributionScanResults::new(Vec::new(), "https://example.net/".to_string());
    assert_eq!(dist.get_total_score(), 0);
    assert_eq!(dist.inspector_url(), None);
    assert!(dist.get_most_malicious_file().is_none());

    let package = PackageScanResults::new(
        "pkg".to_string(),
        "1.0.0".to_string(),
        Vec::new(),
        "c0ffee".to_string(),
    );
    let body = package.build_body();
    assert_eq!(body.score, 0);
    assert_eq!(body.inspector_url, None);
    assert!(body.rules_matched.is_empty());
}

#[test]
fn matchless_files_give_no_inspector_url() {
    // Files exist but none matched a rule: no inspector URL.
    let dist = DistributionScanResults::new(
        vec![
            FileScanResult::new("a.txt".to_string(), Vec::new()),
            FileScanResult::new("b.txt".to_string(), Vec::new()),
        ],
        "https://example.net/".to_string(),
    );
    assert_eq!(dist.get_total_score(), 0);
    assert_eq!(dist.inspector_url(), None);
}
