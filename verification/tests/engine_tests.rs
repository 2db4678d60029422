//! End-to-end checks with the real rule engine: compiled signature rules run
//! over bytes, and the matches flow through the library's gating and scoring.

use dragonfly_client::models::{MetadataEntry, MetadataValue, RuleMatch, RulesResponse};
use dragonfly_client::scanner::{scan_file_matches, RuleScore};

/// Convert one engine match into the library's plain representation, as the
/// worker process does.
fn rule_to_match(rule: &yara::Rule<'_>) -> RuleMatch {
    RuleMatch {
        identifier: rule.identifier.to_string(),
        patterns: Vec::new(),
        metadata: rule
            .metadatas
            .iter()
            .map(|m| MetadataEntry {
                identifier: m.identifier.to_string(),
                value: match &m.value {
                    yara::MetadataValue::Integer(i) => MetadataValue::Integer(*i),
                    yara::MetadataValue::String(s) => MetadataValue::String((*s).to_string()),
                    yara::MetadataValue::Boolean(b) => MetadataValue::Boolean(*b),
                },
            })
            .collect(),
    }
}

#[test]
fn test_scan_file() {
    let rules = r#"
        rule contains_rust {
            meta:
                weight = 5
            strings:
                $rust = "rust" nocase
            condition:
                $rust
        }
    "#;

    let compiler = yara::Compiler::new().unwrap().add_rules_str(rules).unwrap();
    let rules = compiler.compile_rules().unwrap();

    let matched = rules.scan_mem(b"I hate Rust >:(\n", 10).unwrap();
    let matches: Vec<RuleMatch> = matched.iter().map(rule_to_match).collect();

    let result = scan_file_matches("src/lib.rs".to_string(), &matches);

    assert_eq!(
        result.rules[0],
        RuleScore {
            name: "contains_rust".into(),
            score: 5
        }
    );
    assert_eq!(result.calculate_score(), 5);
}

#[test]
fn engine_respects_filetype_gate() {
    let rules = r#"
        rule python_only {
            meta:
                weight = 3
                filetype = "py"
            strings:
                $s = "import"
            condition:
                $s
        }
    "#;

    let compiler = yara::Compiler::new().unwrap().add_rules_str(rules).unwrap();
    let rules = compiler.compile_rules().unwrap();

    let matched = rules.scan_mem(b"import os\n", 10).unwrap();
    assert_eq!(matched.len(), 1);
    let matches: Vec<RuleMatch> = matched.iter().map(rule_to_match).collect();

    // The engine matched in both cases; filetype gating keeps the Python file.
    let py = scan_file_matches("pkg/mod.py".to_string(), &matches);
    let txt = scan_file_matches("pkg/notes.txt".to_string(), &matches);
    assert_eq!(py.calculate_score(), 3);
    assert!(txt.rules.is_empty());
}

#[test]
fn compiled_rules_come_from_joined_sources() {
    // Two rule documents are joined by a newline before compilation.
    let response = RulesResponse {
        hash: "h".to_string(),
        rules: vec![
            (
                "first".to_string(),
                "rule first_rule { condition: true }".to_string(),
            ),
            (
                "second".to_string(),
                "rule second_rule { condition: false }".to_string(),
            ),
        ],
    };
    let source = response.joined_source();
    assert_eq!(
        source,
        "rule first_rule { condition: true }\nrule second_rule { condition: false }"
    );

    let compiler = yara::Compiler::new()
        .unwrap()
        .add_rules_str(&source)
        .unwrap();
    let rules = compiler.compile_rules().unwrap();
    let matched = rules.scan_mem(b"anything", 10).unwrap();
    assert_eq!(matched.len(), 1);
    assert_eq!(matched[0].identifier, "first_rule");
}
