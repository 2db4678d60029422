use dragonfly_client::models::{
    make_file_scan_result, DistributionScanResult, FileScanResult, Match, MetadataEntry,
    MetadataValue, RuleMatch,
};

fn rule_with_metadata(metadata: Vec<(&str, MetadataValue)>) -> RuleMatch {
    RuleMatch {
        identifier: "r".to_string(),
        patterns: Vec::new(),
        metadata: metadata
            .into_iter()
            .map(|(k, v)| MetadataEntry {
                identifier: k.to_string(),
                value: v,
            })
            .collect(),
    }
}

#[test]
fn metadata_lookup_finds_first_entry() {
    let rule = rule_with_metadata(vec![
        ("author", MetadataValue::String("someone".to_string())),
        ("weight", MetadataValue::Integer(4)),
        ("weight", MetadataValue::Integer(9)),
    ]);
    assert_eq!(
        rule.get_metadata_value("weight"),
        Some(&MetadataValue::Integer(4))
    );
    assert_eq!(rule.get_metadata_value("missing"), None);
    assert_eq!(rule.score(), 4);
}

#[test]
fn score_is_zero_without_integer_weight() {
    assert_eq!(rule_with_metadata(vec![]).score(), 0);
    assert_eq!(
        rule_with_metadata(vec![("weight", MetadataValue::String("5".to_string()))]).score(),
        0
    );
    assert_eq!(
        rule_with_metadata(vec![("weight", MetadataValue::Boolean(true))]).score(),
        0
    );
    assert_eq!(
        rule_with_metadata(vec![("weight", MetadataValue::Integer(-3))]).score(),
        -3
    );
}

#[test]
fn filetypes_split_on_single_spaces() {
    let rule = rule_with_metadata(vec![(
        "filetype",
        MetadataValue::String("py js".to_string()),
    )]);
    assert_eq!(rule.get_filetypes(), vec!["py".to_string(), "js".to_string()]);

    let empty = rule_with_metadata(vec![("filetype", MetadataValue::String(String::new()))]);
    assert_eq!(empty.get_filetypes(), vec![String::new()]);

    let doubled = rule_with_metadata(vec![(
        "filetype",
        MetadataValue::String("a  b".to_string()),
    )]);
    assert_eq!(
        doubled.get_filetypes(),
        vec!["a".to_string(), String::new(), "b".to_string()]
    );

    let absent = rule_with_metadata(vec![]);
    assert_eq!(absent.get_filetypes(), Vec::<String>::new());
}

#[test]
fn detailed_distribution_keeps_only_matched_files() {
    let with_match = make_file_scan_result("hit.py", &[("rule1", 5)]);
    let without_match = FileScanResult::new("miss.py".to_string(), Vec::new());

    let dist = DistributionScanResult::new(
        "https://example.net/d.tar.gz".to_string(),
        vec![without_match, with_match.clone(), FileScanResult::new("miss2.py".to_string(), Vec::new())],
    );

    assert_eq!(dist.download_url, "https://example.net/d.tar.gz");
    assert_eq!(dist.files, vec![with_match]);
}

#[test]
fn match_range_is_inclusive() {
    let m = Match::new(10, vec![1, 2, 3]);
    assert_eq!(m.range.start, 10);
    assert_eq!(m.range.end, 12);
    assert_eq!(m.data, vec![1, 2, 3]);
}
