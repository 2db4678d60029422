use dragonfly_client::app_config::AppConfig;
use dragonfly_client::client::{
    backoff_seconds, reactive_retry_decision, rules_need_update, token_expired, TokenState,
};
use dragonfly_client::scanner::{
    all_weights_bounded, check_all_entry_sizes, check_entry_size, scan_package_result,
    ArchiveEntry, DistributionScanResults, EntryDecision, FileScanResult, RuleScore,
};

#[test]
fn backoff_grows_exponentially_then_caps() {
    assert_eq!(backoff_seconds(0), 1);
    assert_eq!(backoff_seconds(1), 2);
    assert_eq!(backoff_seconds(2), 4);
    assert_eq!(backoff_seconds(9), 512);
    assert_eq!(backoff_seconds(10), 600);
    assert_eq!(backoff_seconds(11), 600);
    assert_eq!(backoff_seconds(30), 600);
}

#[test]
fn concurrent_refresh_triggers_coalesce() {
    // Two workers hold the same token and both see a 401. Each remembers the
    // generation it observed; the writer lock serializes them.
    let mut cell = TokenState::new("stale-token".to_string());
    let observed_by_first = cell.generation;
    let observed_by_second = cell.generation;

    let mut refreshes_performed = 0;

    // First entrant: nobody refreshed since it observed, so it refreshes.
    if cell.needs_refresh(observed_by_first) {
        refreshes_performed += 1;
        cell.install("fresh-token".to_string());
    }

    // Second entrant: the generation moved on, so it reuses the installed
    // token instead of refreshing again.
    if cell.needs_refresh(observed_by_second) {
        refreshes_performed += 1;
        cell.install("another-token".to_string());
    }

    assert_eq!(refreshes_performed, 1);
    assert_eq!(cell.access_token, "fresh-token");
    assert_eq!(cell.generation, 1);
}

#[test]
fn reactive_retry_happens_exactly_once() {
    // A first 401 earns a refresh-and-retry; a second 401 is surfaced.
    assert!(reactive_retry_decision(true, false));
    assert!(!reactive_retry_decision(true, true));
    assert!(!reactive_retry_decision(false, false));
    assert!(!reactive_retry_decision(false, true));
}

#[test]
fn rules_update_on_hash_mismatch() {
    assert!(rules_need_update("abc", "def"));
    assert!(!rules_need_update("abc", "abc"));
    assert!(rules_need_update("", "abc"));
    assert!(!rules_need_update("", ""));
}

#[test]
fn token_expiry_compares_instants() {
    assert!(!token_expired(100, 100));
    assert!(!token_expired(99, 100));
    assert!(token_expired(101, 100));
}

#[test]
fn config_defaults() {
    let c = AppConfig::defaults(8);
    assert_eq!(c.base_url, "https://dragonfly.vipyrsec.com");
    assert_eq!(c.threads, 8);
    assert_eq!(c.load_duration, 60);
    assert_eq!(c.bulk_size, 20);
    assert_eq!(c.client_id, "");
    assert_eq!(c.client_secret, "");
    assert_eq!(c.max_scan_size, 128_000_000);

    let d = AppConfig::default();
    assert_eq!(d.threads, 1);
    assert_eq!(d.bulk_size, 20);
}

#[test]
fn oversize_entry_fails_the_distribution() {
    // A tar entry declares 2048 bytes against a 1024-byte cap: the job must
    // become a failure submission that names the entry.
    match check_entry_size("big.bin", 2048, 1024) {
        EntryDecision::RejectOversize(reason) => {
            assert_eq!(reason, "Download too large: big.bin");
        }
        EntryDecision::Scan => panic!("oversize entry was accepted"),
    }
    assert!(matches!(
        check_entry_size("ok.bin", 1024, 1024),
        EntryDecision::Scan
    ));

    let entries = vec![
        ArchiveEntry {
            path: "small.txt".to_string(),
            size: 10,
        },
        ArchiveEntry {
            path: "big.bin".to_string(),
            size: 2048,
        },
    ];
    let gate = check_all_entry_sizes(&entries, 1024);
    assert_eq!(gate, Err("Download too large: big.bin".to_string()));

    // The enclosing job turns that reason into a failure body; there is no
    // success body for this package.
    let result = scan_package_result(
        "pkg".to_string(),
        "1.0.0".to_string(),
        "hash".to_string(),
        Err("Download too large: big.bin".to_string()),
    );
    let err = result.expect_err("an oversize entry must fail the job");
    assert_eq!(err.name, "pkg");
    assert_eq!(err.version, "1.0.0");
    assert!(err.reason.contains("big.bin"));
}

#[test]
fn entries_within_cap_pass_the_gate() {
    let entries = vec![
        ArchiveEntry {
            path: "a.txt".to_string(),
            size: 0,
        },
        ArchiveEntry {
            path: "b.txt".to_string(),
            size: 1024,
        },
    ];
    assert_eq!(check_all_entry_sizes(&entries, 1024), Ok(()));
    assert_eq!(check_all_entry_sizes(&Vec::new(), 0), Ok(()));
}

#[test]
fn extreme_weights_are_caught_before_scoring() {
    let fine = DistributionScanResults::new(
        vec![FileScanResult::new(
            "a.py".to_string(),
            vec![RuleScore {
                name: "r1".to_string(),
                score: i64::MAX,
            }],
        )],
        "https://example.net/".to_string(),
    );
    assert!(all_weights_bounded(&vec![fine]));

    let overflowing = DistributionScanResults::new(
        vec![FileScanResult::new(
            "a.py".to_string(),
            vec![
                RuleScore {
                    name: "r1".to_string(),
                    score: i64::MAX,
                },
                RuleScore {
                    name: "r2".to_string(),
                    score: i64::MIN,
                },
            ],
        )],
        "https://example.net/".to_string(),
    );
    assert!(!all_weights_bounded(&vec![overflowing]));
}

#[test]
fn successful_job_builds_success_body() {
    let dist = DistributionScanResults::new(
        vec![FileScanResult::new(
            "setup.py".to_string(),
            vec![RuleScore {
                name: "r".to_string(),
                score: 3,
            }],
        )],
        "https://example.net/".to_string(),
    );
    let result = scan_package_result(
        "pkg".to_string(),
        "1.0.0".to_string(),
        "hash".to_string(),
        Ok(vec![dist]),
    );
    let body = result.expect("a scanned package must submit success");
    assert_eq!(body.name, "pkg");
    assert_eq!(body.version, "1.0.0");
    assert_eq!(body.commit, "hash");
    assert_eq!(body.score, 3);
    assert_eq!(
        body.inspector_url,
        Some("https://example.net/setup.py".to_string())
    );
    assert_eq!(body.rules_matched, vec!["r".to_string()]);
}
