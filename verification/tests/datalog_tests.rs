use g3_verify::datalog::{compile_rulespec, execute_rules, extract_facts, Fact, FactSet};
use g3_verify::envelope::ActionEnvelope;
use g3_verify::program::{escape_datalog_string, format_datalog_program};
use g3_verify::report::format_datalog_results;
use g3_verify::rulespec::{Claim, InvariantSource, Predicate, PredicateRule, Rulespec, WhenCondition};
use g3_verify::value::{YamlNumber, YamlValue};

fn from_serde(v: &serde_yaml::Value) -> YamlValue {
    match v {
        serde_yaml::Value::Null => YamlValue::Null,
        serde_yaml::Value::Bool(b) => YamlValue::Bool(*b),
        serde_yaml::Value::Number(n) => {
            if let Some(u) = n.as_u64() {
                YamlValue::Number(YamlNumber::PosInt(u))
            } else if let Some(i) = n.as_i64() {
                YamlValue::Number(YamlNumber::NegInt(i))
            } else {
                YamlValue::Number(YamlNumber::Float(n.to_string()))
            }
        }
        serde_yaml::Value::String(s) => YamlValue::String(s.clone()),
        serde_yaml::Value::Sequence(items) => {
            YamlValue::Sequence(items.iter().map(from_serde).collect())
        }
        serde_yaml::Value::Mapping(m) => {
            YamlValue::Mapping(m.iter().map(|(k, v)| (from_serde(k), from_serde(v))).collect())
        }
        serde_yaml::Value::Tagged(t) => from_serde(&t.value),
    }
}

fn parse_yaml(text: &str) -> YamlValue {
    from_serde(&serde_yaml::from_str::<serde_yaml::Value>(text).unwrap())
}

fn make_test_rulespec() -> Rulespec {
    let mut rulespec = Rulespec::new();
    rulespec.claims.push(Claim::new("caps", "csv_importer.capabilities"));
    rulespec.claims.push(Claim::new("file", "csv_importer.file"));
    rulespec.predicates.push(
        Predicate::new("caps", PredicateRule::Contains, InvariantSource::TaskPrompt)
            .with_value(YamlValue::String("handle_tsv".to_string()))
            .with_notes("User requested TSV support"),
    );
    rulespec.predicates.push(
        Predicate::new("file", PredicateRule::Exists, InvariantSource::Memory),
    );
    rulespec
}

fn make_test_envelope() -> ActionEnvelope {
    let mut envelope = ActionEnvelope::new();
    envelope.add_fact(
        "csv_importer",
        parse_yaml(
            r#"
            capabilities:
              - handle_headers
              - handle_tsv
              - handle_quoted_fields
            file: src/import/csv.rs
        "#,
        ),
    );
    envelope
}



#[test]
fn test_compile_rulespec_success() {
        let rulespec = make_test_rulespec();
        let compiled = compile_rulespec(&rulespec, "test-plan", 1).unwrap();

        assert_eq!(compiled.plan_id, "test-plan");
        assert_eq!(compiled.compiled_at_revision, 1);
        assert_eq!(compiled.predicates.len(), 2);
        assert_eq!(compiled.claims.len(), 2);
    }

#[test]
fn test_compile_rulespec_empty() {
        let rulespec = Rulespec::new();
        let compiled = compile_rulespec(&rulespec, "test", 1).unwrap();

        assert!(compiled.is_empty());
        assert!(compiled.predicates.is_empty());
        assert!(compiled.claims.is_empty());
    }

#[test]
fn test_compile_rulespec_invalid_selector() {
        let mut rulespec = Rulespec::new();
        rulespec.claims.push(Claim {
            name: "bad".to_string(),
            selector: "".to_string(), // Empty selector is invalid
        });

        let result = compile_rulespec(&rulespec, "test", 1);
        assert!(result.is_err());
        assert!(result.unwrap_err().to_string().contains("Invalid selector"));
    }

#[test]
fn test_compile_rulespec_unknown_claim() {
        let mut rulespec = Rulespec::new();
        rulespec.claims.push(Claim::new("known", "foo.bar"));
        rulespec.predicates.push(Predicate::new(
            "unknown", // References non-existent claim
            PredicateRule::Exists,
            InvariantSource::TaskPrompt,
        ));

        let result = compile_rulespec(&rulespec, "test", 1);
        assert!(result.is_err());
        assert!(result.unwrap_err().to_string().contains("unknown claim"));
    }

#[test]
fn test_compile_exists_predicate_no_value() {
        let mut rulespec = Rulespec::new();
        rulespec.claims.push(Claim::new("test", "foo.bar"));
        rulespec.predicates.push(Predicate::new(
            "test",
            PredicateRule::Exists,
            InvariantSource::TaskPrompt,
        ));

        let compiled = compile_rulespec(&rulespec, "test", 1).unwrap();
        assert!(compiled.predicates[0].expected_value.is_none());
    }

#[test]
fn test_extract_facts_basic() {
        let envelope = make_test_envelope();
        let rulespec = make_test_rulespec();
        let compiled = compile_rulespec(&rulespec, "test", 1).unwrap();

        let facts = extract_facts(&envelope, &compiled);

        // Should have facts for capabilities array elements
        assert!(facts.contains(&Fact {
            claim_name: "caps".to_string(),
            value: "handle_tsv".to_string(),
        }));
        assert!(facts.contains(&Fact {
            claim_name: "caps".to_string(),
            value: "handle_headers".to_string(),
        }));
    }

#[test]
fn test_extract_facts_missing_path() {
        let envelope = ActionEnvelope::new(); // Empty envelope
        let rulespec = make_test_rulespec();
        let compiled = compile_rulespec(&rulespec, "test", 1).unwrap();

        let facts = extract_facts(&envelope, &compiled);

        // Should return empty set, not error
        assert!(facts.is_empty());
    }

#[test]
fn test_extract_facts_array_length() {
        let envelope = make_test_envelope();
        let rulespec = make_test_rulespec();
        let compiled = compile_rulespec(&rulespec, "test", 1).unwrap();

        let facts = extract_facts(&envelope, &compiled);

        // Should have length fact
        assert!(facts.contains(&Fact {
            claim_name: "caps.__length".to_string(),
            value: "3".to_string(),
        }));
    }

#[test]
fn test_extract_facts_deeply_nested() {
        let mut envelope = ActionEnvelope::new();
        envelope.add_fact(
            "a",
            parse_yaml(
                r#"
                b:
                  c:
                    d:
                      e:
                        f: deep_value
            "#,
            ),
        );

        let mut rulespec = Rulespec::new();
        rulespec.claims.push(Claim::new("deep", "a.b.c.d.e.f"));
        let compiled = compile_rulespec(&rulespec, "test", 1).unwrap();

        let facts = extract_facts(&envelope, &compiled);

        assert!(facts.contains(&Fact {
            claim_name: "deep".to_string(),
            value: "deep_value".to_string(),
        }));
    }

#[test]
fn test_extract_facts_null_value() {
        let mut envelope = ActionEnvelope::new();
        envelope.add_fact("nullable", YamlValue::Null);

        let mut rulespec = Rulespec::new();
        rulespec.claims.push(Claim::new("test", "nullable"));
        let compiled = compile_rulespec(&rulespec, "test", 1).unwrap();

        let facts = extract_facts(&envelope, &compiled);

        // Null values should NOT produce facts â€” this ensures not_exists passes for null
        assert!(facts.is_empty(), "Null values should not produce facts, got: {:?}", facts);
    }

#[test]
fn test_extract_facts_with_facts_prefix_selector() {
        // Simulate a rulespec that uses "facts." prefix in selectors
        // (common when rulespec authors think of the envelope YAML structure
        // which has a top-level "facts:" key)
        let mut envelope = ActionEnvelope::new();
        envelope.add_fact(
            "csv_importer",
            parse_yaml("capabilities: [handle_csv, handle_tsv]\nfile: src/csv.rs"),
        );

        let mut rulespec = Rulespec::new();
        // Selector uses "facts." prefix â€” should still work via fallback
        rulespec.claims.push(Claim::new("caps", "facts.csv_importer.capabilities"));
        rulespec.claims.push(Claim::new("file", "facts.csv_importer.file"));
        let compiled = compile_rulespec(&rulespec, "test", 1).unwrap();

        let facts = extract_facts(&envelope, &compiled);

        assert!(!facts.is_empty(), "Should extract facts even with 'facts.' prefix selector");
        assert!(facts.contains(&Fact {
            claim_name: "caps".to_string(),
            value: "handle_csv".to_string(),
        }));
        assert!(facts.contains(&Fact {
            claim_name: "caps".to_string(),
            value: "handle_tsv".to_string(),
        }));
        assert!(facts.contains(&Fact {
            claim_name: "file".to_string(),
            value: "src/csv.rs".to_string(),
        }));
    }

#[test]
fn test_extract_facts_roundtrip_from_yaml() {
        // Simulate the real write_envelope â†’ read_envelope â†’ extract_facts flow
        let yaml = "facts:\n  feature:\n    done: true\n    capabilities: [handle_csv, handle_tsv]\n    file: src/lib.rs";
        let envelope: ActionEnvelope = ActionEnvelope::from_yaml(yaml).unwrap();
        assert!(!envelope.facts.is_empty(), "Envelope should have facts after parsing");

        let mut rulespec = Rulespec::new();
        rulespec.claims.push(Claim::new("feature_done", "feature.done"));
        rulespec.claims.push(Claim::new("caps", "feature.capabilities"));
        let compiled = compile_rulespec(&rulespec, "test", 1).unwrap();

        let facts = extract_facts(&envelope, &compiled);
        assert!(!facts.is_empty(), "Should extract facts from round-tripped envelope");
        assert!(facts.contains(&Fact {
            claim_name: "feature_done".to_string(),
            value: "true".to_string(),
        }));
        assert!(facts.contains(&Fact {
            claim_name: "caps".to_string(),
            value: "handle_csv".to_string(),
        }));
    }

#[test]
fn test_execute_rules_all_pass() {
        let envelope = make_test_envelope();
        let rulespec = make_test_rulespec();
        let compiled = compile_rulespec(&rulespec, "test", 1).unwrap();
        let facts = extract_facts(&envelope, &compiled);

        let result = execute_rules(&compiled, &facts);

        assert!(result.all_passed());
        assert_eq!(result.passed_count, 2);
        assert_eq!(result.failed_count, 0);
    }

#[test]
fn test_execute_rules_contains_fail() {
        let envelope = make_test_envelope();
        
        let mut rulespec = Rulespec::new();
        rulespec.claims.push(Claim::new("caps", "csv_importer.capabilities"));
        rulespec.predicates.push(
            Predicate::new("caps", PredicateRule::Contains, InvariantSource::TaskPrompt)
                .with_value(YamlValue::String("handle_xlsx".to_string())), // Not in envelope
        );

        let compiled = compile_rulespec(&rulespec, "test", 1).unwrap();
        let facts = extract_facts(&envelope, &compiled);
        let result = execute_rules(&compiled, &facts);

        assert!(!result.all_passed());
        assert_eq!(result.failed_count, 1);
        assert!(result.predicate_results[0].reason.contains("Does not contain"));
    }

#[test]
fn test_execute_rules_exists_pass() {
        let envelope = make_test_envelope();
        
        let mut rulespec = Rulespec::new();
        rulespec.claims.push(Claim::new("file", "csv_importer.file"));
        rulespec.predicates.push(Predicate::new(
            "file",
            PredicateRule::Exists,
            InvariantSource::TaskPrompt,
        ));

        let compiled = compile_rulespec(&rulespec, "test", 1).unwrap();
        let facts = extract_facts(&envelope, &compiled);
        let result = execute_rules(&compiled, &facts);

        assert!(result.all_passed());
    }

#[test]
fn test_execute_rules_not_exists_pass() {
        let envelope = make_test_envelope();
        
        let mut rulespec = Rulespec::new();
        rulespec.claims.push(Claim::new("missing", "nonexistent.path"));
        rulespec.predicates.push(Predicate::new(
            "missing",
            PredicateRule::NotExists,
            InvariantSource::TaskPrompt,
        ));

        let compiled = compile_rulespec(&rulespec, "test", 1).unwrap();
        let facts = extract_facts(&envelope, &compiled);
        let result = execute_rules(&compiled, &facts);

        assert!(result.all_passed());
    }

#[test]
fn test_execute_rules_equals_pass() {
        let envelope = make_test_envelope();
        
        let mut rulespec = Rulespec::new();
        rulespec.claims.push(Claim::new("file", "csv_importer.file"));
        rulespec.predicates.push(
            Predicate::new("file", PredicateRule::Equals, InvariantSource::TaskPrompt)
                .with_value(YamlValue::String("src/import/csv.rs".to_string())),
        );

        let compiled = compile_rulespec(&rulespec, "test", 1).unwrap();
        let facts = extract_facts(&envelope, &compiled);
        let result = execute_rules(&compiled, &facts);

        assert!(result.all_passed());
    }

#[test]
fn test_execute_rules_min_length_pass() {
        let envelope = make_test_envelope();
        
        let mut rulespec = Rulespec::new();
        rulespec.claims.push(Claim::new("caps", "csv_importer.capabilities"));
        rulespec.predicates.push(
            Predicate::new("caps", PredicateRule::MinLength, InvariantSource::TaskPrompt)
                .with_value(YamlValue::Number(YamlNumber::PosInt(2))),
        );

        let compiled = compile_rulespec(&rulespec, "test", 1).unwrap();
        let facts = extract_facts(&envelope, &compiled);
        let result = execute_rules(&compiled, &facts);

        assert!(result.all_passed());
        assert!(result.predicate_results[0].reason.contains("3 >= 2"));
    }

#[test]
fn test_execute_rules_max_length_fail() {
        let envelope = make_test_envelope();
        
        let mut rulespec = Rulespec::new();
        rulespec.claims.push(Claim::new("caps", "csv_importer.capabilities"));
        rulespec.predicates.push(
            Predicate::new("caps", PredicateRule::MaxLength, InvariantSource::TaskPrompt)
                .with_value(YamlValue::Number(YamlNumber::PosInt(2))), // Array has 3 elements
        );

        let compiled = compile_rulespec(&rulespec, "test", 1).unwrap();
        let facts = extract_facts(&envelope, &compiled);
        let result = execute_rules(&compiled, &facts);

        assert!(!result.all_passed());
        assert!(result.predicate_results[0].reason.contains("3 > 2"));
    }

#[test]
fn test_execute_rules_matches_pass() {
        let envelope = make_test_envelope();
        
        let mut rulespec = Rulespec::new();
        rulespec.claims.push(Claim::new("file", "csv_importer.file"));
        rulespec.predicates.push(
            Predicate::new("file", PredicateRule::Matches, InvariantSource::TaskPrompt)
                .with_value(YamlValue::String(r"src/.*\.rs".to_string())),
        );

        let compiled = compile_rulespec(&rulespec, "test", 1).unwrap();
        let facts = extract_facts(&envelope, &compiled);
        let result = execute_rules(&compiled, &facts);

        assert!(result.all_passed());
    }

#[test]
fn test_execute_rules_no_facts() {
        let envelope = ActionEnvelope::new();
        let rulespec = make_test_rulespec();
        let compiled = compile_rulespec(&rulespec, "test", 1).unwrap();
        let facts = extract_facts(&envelope, &compiled);

        let result = execute_rules(&compiled, &facts);

        // Both predicates should fail (contains and exists)
        assert!(!result.all_passed());
        assert_eq!(result.failed_count, 2);
    }

#[test]
fn test_execute_rules_greater_than() {
        let mut envelope = ActionEnvelope::new();
        envelope.add_fact("count", YamlValue::Number(YamlNumber::PosInt(42)));

        let mut rulespec = Rulespec::new();
        rulespec.claims.push(Claim::new("count", "count"));
        rulespec.predicates.push(
            Predicate::new("count", PredicateRule::GreaterThan, InvariantSource::TaskPrompt)
                .with_value(YamlValue::Number(YamlNumber::PosInt(10))),
        );

        let compiled = compile_rulespec(&rulespec, "test", 1).unwrap();
        let facts = extract_facts(&envelope, &compiled);
        let result = execute_rules(&compiled, &facts);

        assert!(result.all_passed());
    }

#[test]
fn test_execute_rules_less_than() {
        let mut envelope = ActionEnvelope::new();
        envelope.add_fact("count", YamlValue::Number(YamlNumber::PosInt(5)));

        let mut rulespec = Rulespec::new();
        rulespec.claims.push(Claim::new("count", "count"));
        rulespec.predicates.push(
            Predicate::new("count", PredicateRule::LessThan, InvariantSource::TaskPrompt)
                .with_value(YamlValue::Number(YamlNumber::PosInt(10))),
        );

        let compiled = compile_rulespec(&rulespec, "test", 1).unwrap();
        let facts = extract_facts(&envelope, &compiled);
        let result = execute_rules(&compiled, &facts);

        assert!(result.all_passed());
    }

#[test]
fn test_format_datalog_results() {
        let envelope = make_test_envelope();
        let rulespec = make_test_rulespec();
        let compiled = compile_rulespec(&rulespec, "test", 1).unwrap();
        let facts = extract_facts(&envelope, &compiled);
        let result = execute_rules(&compiled, &facts);

        let output = format_datalog_results(&result);

        assert!(output.contains("DATALOG INVARIANT VERIFICATION"));
        assert!(output.contains("shadow mode"));
        assert!(output.contains("âœ…"));
        assert!(output.contains("Facts extracted:"));
    }

#[test]
fn test_execute_rules_full_pipeline_with_facts_prefix() {
        // End-to-end: YAML envelope â†’ extract_facts (with facts. prefix) â†’ execute_rules
        let yaml = "facts:\n  my_feature:\n    capabilities: [fast_search, caching]\n    file: src/search.rs\n    breaking: false";
        let envelope: ActionEnvelope = ActionEnvelope::from_yaml(yaml).unwrap();

        let mut rulespec = Rulespec::new();
        // Use facts. prefix selectors (the common mistake)
        rulespec.claims.push(Claim::new("caps", "facts.my_feature.capabilities"));
        rulespec.claims.push(Claim::new("file", "facts.my_feature.file"));
        rulespec.claims.push(Claim::new("breaking", "facts.my_feature.breaking"));
        rulespec.predicates.push(
            Predicate::new("caps", PredicateRule::Contains, InvariantSource::TaskPrompt)
                .with_value(YamlValue::String("fast_search".to_string())),
        );
        rulespec.predicates.push(
            Predicate::new("file", PredicateRule::Exists, InvariantSource::TaskPrompt),
        );
        rulespec.predicates.push(
            Predicate::new("breaking", PredicateRule::Equals, InvariantSource::TaskPrompt)
                .with_value(YamlValue::String("false".to_string())),
        );

        let compiled = compile_rulespec(&rulespec, "test", 1).unwrap();
        let facts = extract_facts(&envelope, &compiled);
        assert!(facts.len() > 0, "Should extract facts with facts. prefix selectors");

        let result = execute_rules(&compiled, &facts);
        assert_eq!(result.fact_count, facts.len());
        assert!(result.all_passed(), "All predicates should pass: {:?}",
            result.predicate_results.iter()
                .filter(|r| !r.passed)
                .map(|r| format!("{}: {}", r.claim_name, r.reason))
                .collect::<Vec<_>>());
        assert_eq!(result.passed_count, 3);
        assert_eq!(result.failed_count, 0);
    }

#[test]
fn test_execute_rules_full_pipeline_without_facts_prefix() {
        // End-to-end: YAML envelope â†’ extract_facts (without facts. prefix) â†’ execute_rules
        let yaml = "facts:\n  my_feature:\n    capabilities: [fast_search, caching]\n    file: src/search.rs";
        let envelope: ActionEnvelope = ActionEnvelope::from_yaml(yaml).unwrap();

        let mut rulespec = Rulespec::new();
        // Use direct selectors (no facts. prefix)
        rulespec.claims.push(Claim::new("caps", "my_feature.capabilities"));
        rulespec.claims.push(Claim::new("file", "my_feature.file"));
        rulespec.predicates.push(
            Predicate::new("caps", PredicateRule::Contains, InvariantSource::TaskPrompt)
                .with_value(YamlValue::String("caching".to_string())),
        );
        rulespec.predicates.push(
            Predicate::new("file", PredicateRule::Exists, InvariantSource::TaskPrompt),
        );

        let compiled = compile_rulespec(&rulespec, "test", 1).unwrap();
        let facts = extract_facts(&envelope, &compiled);
        assert!(facts.len() > 0, "Should extract facts without facts. prefix");

        let result = execute_rules(&compiled, &facts);
        assert!(result.all_passed());
        assert_eq!(result.passed_count, 2);
    }

#[test]
fn test_format_datalog_program_butler_example() {
        // Mirrors the butler rulespec: email_reviewed equals true
        let mut rulespec = Rulespec::new();
        rulespec.claims.push(Claim::new("email_reviewed", "facts.reviewed"));
        rulespec.predicates.push(
            Predicate::new("email_reviewed", PredicateRule::Equals, InvariantSource::TaskPrompt)
                .with_value(YamlValue::Bool(true))
                .with_notes("Outgoing emails must be manually reviewed before sending"),
        );

        let compiled = compile_rulespec(&rulespec, "outbound-email", 0).unwrap();

        let mut envelope = ActionEnvelope::new();
        envelope.add_fact("facts", parse_yaml("reviewed: true"));
        let facts = extract_facts(&envelope, &compiled);

        let dl = format_datalog_program(&compiled, &facts);

        // Header
        assert!(dl.contains("// Auto-generated datalog program"));
        assert!(dl.contains("// Plan: outbound-email"));

        // Relation declarations
        assert!(dl.contains(".decl claim_value(claim: symbol, value: symbol)"));
        assert!(dl.contains(".decl claim_length(claim: symbol, length: number)"));
        assert!(dl.contains(".decl predicate_pass(id: number)"));
        assert!(dl.contains(".decl predicate_fail(id: number)"));
        assert!(dl.contains(".output predicate_pass"));
        assert!(dl.contains(".output predicate_fail"));

        // Facts
        assert!(dl.contains(r#"claim_value("email_reviewed", "true")."#));

        // Rule for equals
        assert!(dl.contains(r#"predicate_pass(0) :- claim_value("email_reviewed", "true")."#));
        assert!(dl.contains("predicate_fail(0) :- !predicate_pass(0)."));

        // Comment with notes
        assert!(dl.contains("Outgoing emails must be manually reviewed"));
    }

#[test]
fn test_format_datalog_program_empty_rulespec() {
        let rulespec = Rulespec::new();
        let compiled = compile_rulespec(&rulespec, "empty", 0).unwrap();
        let facts = FactSet::new();

        let dl = format_datalog_program(&compiled, &facts);

        // Should still have valid structure
        assert!(dl.contains(".decl claim_value"));
        assert!(dl.contains(".decl predicate_pass"));
        assert!(dl.contains("// --- Facts (from envelope) ---"));
        assert!(dl.contains("// --- Rules (from rulespec predicates) ---"));

        // No fact assertions (lines ending with period) or rules beyond declarations
        assert!(!dl.contains(r#"claim_value(""#));
        assert!(!dl.contains("predicate_pass(0)"));
    }

#[test]
fn test_format_datalog_program_empty_facts() {
        let mut rulespec = Rulespec::new();
        rulespec.claims.push(Claim::new("test", "foo.bar"));
        rulespec.predicates.push(
            Predicate::new("test", PredicateRule::Exists, InvariantSource::TaskPrompt),
        );

        let compiled = compile_rulespec(&rulespec, "test", 1).unwrap();
        let facts = FactSet::new();

        let dl = format_datalog_program(&compiled, &facts);

        // Has declarations and rules but no fact assertions
        assert!(dl.contains(".decl claim_value"));
        assert!(dl.contains("predicate_pass(0) :- claim_value"));
        assert!(dl.contains("predicate_fail(0) :- !predicate_pass(0)"));
        // No claim_value facts
        // The rules section will reference claim_value("test", _) but the facts section should not
        let facts_section = dl.split("// --- Rules").next().unwrap();
        assert!(!facts_section.contains(r#"claim_value("test""#));
    }

#[test]
fn test_format_datalog_program_special_characters() {
        let mut rulespec = Rulespec::new();
        rulespec.claims.push(Claim::new("msg", "message"));
        rulespec.predicates.push(
            Predicate::new("msg", PredicateRule::Equals, InvariantSource::TaskPrompt)
                .with_value(YamlValue::String("hello \"world\"".to_string())),
        );

        let compiled = compile_rulespec(&rulespec, "test", 0).unwrap();

        let mut envelope = ActionEnvelope::new();
        envelope.add_fact("message", YamlValue::String("hello \"world\"".to_string()));
        let facts = extract_facts(&envelope, &compiled);

        let dl = format_datalog_program(&compiled, &facts);

        // Quotes should be escaped
        assert!(dl.contains(r#"\"world\""#));
    }

#[test]
fn test_format_datalog_program_all_rule_types() {
        let mut rulespec = Rulespec::new();

        // Create claims for each rule type
        rulespec.claims.push(Claim::new("c_exists", "a"));
        rulespec.claims.push(Claim::new("c_not_exists", "b"));
        rulespec.claims.push(Claim::new("c_equals", "c"));
        rulespec.claims.push(Claim::new("c_contains", "d"));
        rulespec.claims.push(Claim::new("c_gt", "e"));
        rulespec.claims.push(Claim::new("c_lt", "f"));
        rulespec.claims.push(Claim::new("c_min", "g"));
        rulespec.claims.push(Claim::new("c_max", "h"));
        rulespec.claims.push(Claim::new("c_matches", "i"));

        // Add one predicate per rule type
        rulespec.predicates.push(
            Predicate::new("c_exists", PredicateRule::Exists, InvariantSource::TaskPrompt),
        );
        rulespec.predicates.push(
            Predicate::new("c_not_exists", PredicateRule::NotExists, InvariantSource::TaskPrompt),
        );
        rulespec.predicates.push(
            Predicate::new("c_equals", PredicateRule::Equals, InvariantSource::TaskPrompt)
                .with_value(YamlValue::String("val".to_string())),
        );
        rulespec.predicates.push(
            Predicate::new("c_contains", PredicateRule::Contains, InvariantSource::TaskPrompt)
                .with_value(YamlValue::String("item".to_string())),
        );
        rulespec.predicates.push(
            Predicate::new("c_gt", PredicateRule::GreaterThan, InvariantSource::TaskPrompt)
                .with_value(YamlValue::Number(YamlNumber::PosInt(10))),
        );
        rulespec.predicates.push(
            Predicate::new("c_lt", PredicateRule::LessThan, InvariantSource::TaskPrompt)
                .with_value(YamlValue::Number(YamlNumber::PosInt(100))),
        );
        rulespec.predicates.push(
            Predicate::new("c_min", PredicateRule::MinLength, InvariantSource::TaskPrompt)
                .with_value(YamlValue::Number(YamlNumber::PosInt(2))),
        );
        rulespec.predicates.push(
            Predicate::new("c_max", PredicateRule::MaxLength, InvariantSource::TaskPrompt)
                .with_value(YamlValue::Number(YamlNumber::PosInt(5))),
        );
        rulespec.predicates.push(
            Predicate::new("c_matches", PredicateRule::Matches, InvariantSource::TaskPrompt)
                .with_value(YamlValue::String("^foo.*".to_string())),
        );

        let compiled = compile_rulespec(&rulespec, "all-rules", 1).unwrap();
        let facts = FactSet::new();

        let dl = format_datalog_program(&compiled, &facts);

        // Each rule type produces a distinct pattern
        assert!(dl.contains(r#"predicate_pass(0) :- claim_value("c_exists", _)."#));
        assert!(dl.contains(r#"predicate_pass(1) :- !claim_value("c_not_exists", _)."#));
        assert!(dl.contains(r#"predicate_pass(2) :- claim_value("c_equals", "val")."#));
        assert!(dl.contains(r#"predicate_pass(3) :- claim_value("c_contains", "item")."#));
        assert!(dl.contains(r#"predicate_pass(4) :- claim_value("c_gt", V), to_number(V, N), N > 10."#));
        assert!(dl.contains(r#"predicate_pass(5) :- claim_value("c_lt", V), to_number(V, N), N < 100."#));
        assert!(dl.contains(r#"predicate_pass(6) :- claim_length("c_min", N), N >= 2."#));
        assert!(dl.contains(r#"predicate_pass(7) :- claim_length("c_max", N), N <= 5."#));
        assert!(dl.contains(r#"predicate_pass(8) :- claim_value("c_matches", V), match("^foo.*", V)."#));

        // Each has a corresponding fail rule
        for i in 0..9 {
            assert!(dl.contains(&format!("predicate_fail({}) :- !predicate_pass({}).", i, i)));
        }
    }

#[test]
fn test_format_datalog_program_length_facts() {
        let mut rulespec = Rulespec::new();
        rulespec.claims.push(Claim::new("caps", "csv_importer.capabilities"));
        rulespec.predicates.push(
            Predicate::new("caps", PredicateRule::MinLength, InvariantSource::TaskPrompt)
                .with_value(YamlValue::Number(YamlNumber::PosInt(2))),
        );

        let compiled = compile_rulespec(&rulespec, "test", 0).unwrap();

        let envelope = make_test_envelope();
        let facts = extract_facts(&envelope, &compiled);

        let dl = format_datalog_program(&compiled, &facts);

        // Length facts should use claim_length relation
        assert!(dl.contains(r#"claim_length("caps", 3)."#));
        // Individual values should use claim_value
        assert!(dl.contains(r#"claim_value("caps", "handle_tsv")."#));
        assert!(dl.contains(r#"claim_value("caps", "handle_headers")."#));
    }

#[test]
fn test_format_datalog_program_deterministic_output() {
        let envelope = make_test_envelope();
        let rulespec = make_test_rulespec();
        let compiled = compile_rulespec(&rulespec, "test", 1).unwrap();
        let facts = extract_facts(&envelope, &compiled);

        let dl1 = format_datalog_program(&compiled, &facts);
        let dl2 = format_datalog_program(&compiled, &facts);

        // Output should be identical across calls (sorted facts)
        assert_eq!(dl1, dl2);
    }

#[test]
fn test_escape_datalog_string() {
        assert_eq!(escape_datalog_string("hello"), "hello");
        assert_eq!(escape_datalog_string("say \"hi\""), "say \\\"hi\\\"");
        assert_eq!(escape_datalog_string("line1\nline2"), "line1\\nline2");
        assert_eq!(escape_datalog_string("tab\there"), "tab\\there");
        assert_eq!(escape_datalog_string("back\\slash"), "back\\\\slash");
    }

#[test]
fn test_execute_rules_not_contains_pass() {
        let mut rulespec = Rulespec::new();
        rulespec.claims.push(Claim::new("caps", "feature.capabilities"));
        rulespec.predicates.push(
            Predicate::new("caps", PredicateRule::NotContains, InvariantSource::TaskPrompt)
                .with_value(YamlValue::String("deprecated".to_string())),
        );

        let compiled = compile_rulespec(&rulespec, "test", 1).unwrap();

        let mut envelope = ActionEnvelope::new();
        envelope.add_fact("feature", parse_yaml("capabilities: [handle_csv, handle_tsv]"));
        let facts = extract_facts(&envelope, &compiled);

        let result = execute_rules(&compiled, &facts);
        assert!(result.all_passed(), "not_contains should pass when element absent");
    }

#[test]
fn test_execute_rules_not_contains_fail() {
        let mut rulespec = Rulespec::new();
        rulespec.claims.push(Claim::new("caps", "feature.capabilities"));
        rulespec.predicates.push(
            Predicate::new("caps", PredicateRule::NotContains, InvariantSource::TaskPrompt)
                .with_value(YamlValue::String("handle_csv".to_string())),
        );

        let compiled = compile_rulespec(&rulespec, "test", 1).unwrap();

        let mut envelope = ActionEnvelope::new();
        envelope.add_fact("feature", parse_yaml("capabilities: [handle_csv, handle_tsv]"));
        let facts = extract_facts(&envelope, &compiled);

        let result = execute_rules(&compiled, &facts);
        assert_eq!(result.failed_count, 1, "not_contains should fail when element present");
    }

#[test]
fn test_execute_rules_any_of_pass() {
        let mut rulespec = Rulespec::new();
        rulespec.claims.push(Claim::new("format", "feature.output_format"));
        rulespec.predicates.push(
            Predicate::new("format", PredicateRule::AnyOf, InvariantSource::TaskPrompt)
                .with_value(YamlValue::Sequence(vec![
                    YamlValue::String("json".to_string()),
                    YamlValue::String("yaml".to_string()),
                ])),
        );

        let compiled = compile_rulespec(&rulespec, "test", 1).unwrap();

        let mut envelope = ActionEnvelope::new();
        envelope.add_fact("feature", parse_yaml("output_format: json"));
        let facts = extract_facts(&envelope, &compiled);

        let result = execute_rules(&compiled, &facts);
        assert!(result.all_passed(), "any_of should pass when value is in set");
    }

#[test]
fn test_execute_rules_any_of_fail() {
        let mut rulespec = Rulespec::new();
        rulespec.claims.push(Claim::new("format", "feature.output_format"));
        rulespec.predicates.push(
            Predicate::new("format", PredicateRule::AnyOf, InvariantSource::TaskPrompt)
                .with_value(YamlValue::Sequence(vec![
                    YamlValue::String("json".to_string()),
                    YamlValue::String("yaml".to_string()),
                ])),
        );

        let compiled = compile_rulespec(&rulespec, "test", 1).unwrap();

        let mut envelope = ActionEnvelope::new();
        envelope.add_fact("feature", parse_yaml("output_format: xml"));
        let facts = extract_facts(&envelope, &compiled);

        let result = execute_rules(&compiled, &facts);
        assert_eq!(result.failed_count, 1, "any_of should fail when value not in set");
    }

#[test]
fn test_execute_rules_none_of_pass() {
        let mut rulespec = Rulespec::new();
        rulespec.claims.push(Claim::new("format", "feature.output_format"));
        rulespec.predicates.push(
            Predicate::new("format", PredicateRule::NoneOf, InvariantSource::TaskPrompt)
                .with_value(YamlValue::Sequence(vec![
                    YamlValue::String("xml".to_string()),
                    YamlValue::String("csv".to_string()),
                ])),
        );

        let compiled = compile_rulespec(&rulespec, "test", 1).unwrap();

        let mut envelope = ActionEnvelope::new();
        envelope.add_fact("feature", parse_yaml("output_format: json"));
        let facts = extract_facts(&envelope, &compiled);

        let result = execute_rules(&compiled, &facts);
        assert!(result.all_passed(), "none_of should pass when value not in forbidden set");
    }

#[test]
fn test_execute_rules_none_of_fail() {
        let mut rulespec = Rulespec::new();
        rulespec.claims.push(Claim::new("format", "feature.output_format"));
        rulespec.predicates.push(
            Predicate::new("format", PredicateRule::NoneOf, InvariantSource::TaskPrompt)
                .with_value(YamlValue::Sequence(vec![
                    YamlValue::String("xml".to_string()),
                    YamlValue::String("csv".to_string()),
                ])),
        );

        let compiled = compile_rulespec(&rulespec, "test", 1).unwrap();

        let mut envelope = ActionEnvelope::new();
        envelope.add_fact("feature", parse_yaml("output_format: xml"));
        let facts = extract_facts(&envelope, &compiled);

        let result = execute_rules(&compiled, &facts);
        assert_eq!(result.failed_count, 1, "none_of should fail when value in forbidden set");
    }

#[test]
fn test_execute_rules_when_condition_met() {
        let mut rulespec = Rulespec::new();
        rulespec.claims.push(Claim::new("is_breaking", "api.breaking"));
        rulespec.claims.push(Claim::new("caps", "feature.capabilities"));
        rulespec.predicates.push(
            Predicate::new("caps", PredicateRule::MinLength, InvariantSource::TaskPrompt)
                .with_value(YamlValue::Number(YamlNumber::PosInt(2)))
                .with_when(WhenCondition::new("is_breaking", PredicateRule::Equals)
                    .with_value(YamlValue::Bool(true))),
        );

        let compiled = compile_rulespec(&rulespec, "test", 1).unwrap();

        let mut envelope = ActionEnvelope::new();
        envelope.add_fact("api", parse_yaml("breaking: true"));
        envelope.add_fact("feature", parse_yaml("capabilities: [a, b, c]"));
        let facts = extract_facts(&envelope, &compiled);

        let result = execute_rules(&compiled, &facts);
        assert!(result.all_passed(), "When met + predicate passes should pass");
    }

#[test]
fn test_execute_rules_when_condition_not_met_vacuous_pass() {
        let mut rulespec = Rulespec::new();
        rulespec.claims.push(Claim::new("is_breaking", "api.breaking"));
        rulespec.claims.push(Claim::new("caps", "feature.capabilities"));
        rulespec.predicates.push(
            Predicate::new("caps", PredicateRule::MinLength, InvariantSource::TaskPrompt)
                .with_value(YamlValue::Number(YamlNumber::PosInt(100))) // would fail if evaluated
                .with_when(WhenCondition::new("is_breaking", PredicateRule::Equals)
                    .with_value(YamlValue::Bool(true))),
        );

        let compiled = compile_rulespec(&rulespec, "test", 1).unwrap();

        let mut envelope = ActionEnvelope::new();
        envelope.add_fact("api", parse_yaml("breaking: false"));
        envelope.add_fact("feature", parse_yaml("capabilities: [a]"));
        let facts = extract_facts(&envelope, &compiled);

        let result = execute_rules(&compiled, &facts);
        assert!(result.all_passed(), "When not met should be vacuous pass");
        assert!(result.predicate_results[0].reason.contains("Skipped"));
    }

#[test]
fn test_execute_rules_when_exists_on_null() {
        let mut rulespec = Rulespec::new();
        rulespec.claims.push(Claim::new("has_tests", "testing.tests"));
        rulespec.claims.push(Claim::new("coverage", "testing.coverage"));
        rulespec.predicates.push(
            Predicate::new("coverage", PredicateRule::GreaterThan, InvariantSource::TaskPrompt)
                .with_value(YamlValue::Number(YamlNumber::PosInt(80)))
                .with_when(WhenCondition::new("has_tests", PredicateRule::Exists)),
        );

        let compiled = compile_rulespec(&rulespec, "test", 1).unwrap();

        // tests is null â†’ when(exists) not met â†’ vacuous pass
        let mut envelope = ActionEnvelope::new();
        envelope.add_fact("testing", parse_yaml("tests: null\ncoverage: 50"));
        let facts = extract_facts(&envelope, &compiled);

        let result = execute_rules(&compiled, &facts);
        assert!(result.all_passed(), "When exists on null should skip (vacuous pass)");
    }

#[test]
fn test_execute_rules_when_matches_condition_met() {
        // This is the butler rulespec pattern: when subject matches ^Re:
        let mut rulespec = Rulespec::new();
        rulespec.claims.push(Claim::new("subject", "subject"));
        rulespec.claims.push(Claim::new("reply_to", "reply_to_message_id"));
        rulespec.predicates.push(
            Predicate::new("reply_to", PredicateRule::Exists, InvariantSource::TaskPrompt)
                .with_when(WhenCondition::new("subject", PredicateRule::Matches)
                    .with_value(YamlValue::String("^Re: ".to_string()))),
        );

        let compiled = compile_rulespec(&rulespec, "test", 1).unwrap();

        // Reply email WITH reply_to_message_id â†’ should pass
        let mut envelope = ActionEnvelope::new();
        envelope.add_fact("subject", YamlValue::String("Re: Hello".to_string()));
        envelope.add_fact("reply_to_message_id", YamlValue::String("<abc@example.com>".to_string()));
        let facts = extract_facts(&envelope, &compiled);

        let result = execute_rules(&compiled, &facts);
        assert!(result.all_passed(), "When matches met + exists should pass");
        // Crucially: should NOT say "Skipped"
        assert!(!result.predicate_results[0].reason.contains("Skipped"),
            "Should evaluate predicate, not skip it");
    }

#[test]
fn test_execute_rules_when_matches_condition_met_but_predicate_fails() {
        // Reply email WITHOUT reply_to_message_id â†’ when met, predicate fails
        let mut rulespec = Rulespec::new();
        rulespec.claims.push(Claim::new("subject", "subject"));
        rulespec.claims.push(Claim::new("reply_to", "reply_to_message_id"));
        rulespec.predicates.push(
            Predicate::new("reply_to", PredicateRule::Exists, InvariantSource::TaskPrompt)
                .with_when(WhenCondition::new("subject", PredicateRule::Matches)
                    .with_value(YamlValue::String("^Re: ".to_string()))),
        );

        let compiled = compile_rulespec(&rulespec, "test", 1).unwrap();

        // Reply email WITHOUT reply_to â†’ when condition met, predicate should FAIL
        let mut envelope = ActionEnvelope::new();
        envelope.add_fact("subject", YamlValue::String("Re: Hello".to_string()));
        // No reply_to_message_id fact
        let facts = extract_facts(&envelope, &compiled);

        let result = execute_rules(&compiled, &facts);
        assert_eq!(result.failed_count, 1,
            "When matches met but exists fails â†’ should fail, not vacuous pass");
    }

#[test]
fn test_execute_rules_when_matches_condition_not_met() {
        // Non-reply email â†’ when condition not met â†’ vacuous pass (skip)
        let mut rulespec = Rulespec::new();
        rulespec.claims.push(Claim::new("subject", "subject"));
        rulespec.claims.push(Claim::new("reply_to", "reply_to_message_id"));
        rulespec.predicates.push(
            Predicate::new("reply_to", PredicateRule::Exists, InvariantSource::TaskPrompt)
                .with_when(WhenCondition::new("subject", PredicateRule::Matches)
                    .with_value(YamlValue::String("^Re: ".to_string()))),
        );

        let compiled = compile_rulespec(&rulespec, "test", 1).unwrap();

        // Non-reply email â†’ when not met â†’ skip
        let mut envelope = ActionEnvelope::new();
        envelope.add_fact("subject", YamlValue::String("Hello World".to_string()));
        // No reply_to_message_id
        let facts = extract_facts(&envelope, &compiled);

        let result = execute_rules(&compiled, &facts);
        assert!(result.all_passed(), "Non-reply should get vacuous pass");
        assert!(result.predicate_results[0].reason.contains("Skipped"),
            "Should be skipped for non-reply");
    }

#[test]
fn test_format_datalog_program_new_rules() {
        let mut rulespec = Rulespec::new();
        rulespec.claims.push(Claim::new("caps", "feature.capabilities"));
        rulespec.claims.push(Claim::new("format", "feature.output_format"));

        rulespec.predicates.push(
            Predicate::new("caps", PredicateRule::NotContains, InvariantSource::TaskPrompt)
                .with_value(YamlValue::String("deprecated".to_string())),
        );
        rulespec.predicates.push(
            Predicate::new("format", PredicateRule::AnyOf, InvariantSource::TaskPrompt)
                .with_value(YamlValue::Sequence(vec![
                    YamlValue::String("json".to_string()),
                    YamlValue::String("yaml".to_string()),
                ])),
        );
        rulespec.predicates.push(
            Predicate::new("format", PredicateRule::NoneOf, InvariantSource::TaskPrompt)
                .with_value(YamlValue::Sequence(vec![
                    YamlValue::String("xml".to_string()),
                ])),
        );

        let compiled = compile_rulespec(&rulespec, "test-new-rules", 1).unwrap();

        let mut envelope = ActionEnvelope::new();
        envelope.add_fact("feature", parse_yaml("capabilities: [a, b]\noutput_format: json"));
        let facts = extract_facts(&envelope, &compiled);

        let dl = format_datalog_program(&compiled, &facts);

        // Verify header
        assert!(dl.contains("// Plan: test-new-rules"));

        // Verify not_contains rule
        assert!(dl.contains("not_contains"), "Should contain not_contains rule comment");
        assert!(dl.contains("predicate_pass(0)"));

        // Verify any_of rule
        assert!(dl.contains("any_of"), "Should contain any_of rule");
        assert!(dl.contains("predicate_pass(1)"));

        // Verify none_of rule
        assert!(dl.contains("none_of"), "Should contain none_of rule");
        assert!(dl.contains("predicate_pass(2)"));

        // Verify failure derivation for all
        assert!(dl.contains("predicate_fail(0) :- !predicate_pass(0)."));
        assert!(dl.contains("predicate_fail(1) :- !predicate_pass(1)."));
        assert!(dl.contains("predicate_fail(2) :- !predicate_pass(2)."));
    }
