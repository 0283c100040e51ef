use g3_verify::datalog::{compile_rulespec, execute_rules, extract_facts, Fact};
use g3_verify::envelope::ActionEnvelope;
use g3_verify::rulespec::{Claim, InvariantSource, Predicate, PredicateRule, Rulespec, WhenCondition};
use g3_verify::token::{mint_token, stamp_envelope, verify_token, VerifyError};
use g3_verify::evaluate::evaluate_rulespec;
use g3_verify::tool::{
    accept_envelope, check_envelope, envelope_needed, verification_summary, verify_envelope,
    EnvelopeVerification,
};
use g3_verify::value::YamlValue;

fn text(s: &str) -> YamlValue {
    YamlValue::String(s.to_string())
}

fn key() -> Vec<u8> {
    (0u8..32).collect()
}

fn capabilities_rulespec() -> Rulespec {
    let mut rulespec = Rulespec::new();
    rulespec.add_claim(Claim::new("caps", "feature.capabilities"));
    rulespec.add_predicate(
        Predicate::new("caps", PredicateRule::Contains, InvariantSource::TaskPrompt)
            .with_value(text("handle_tsv")),
    );
    rulespec
}

fn capabilities_envelope() -> ActionEnvelope {
    ActionEnvelope::from_yaml(
        "facts:\n  feature:\n    capabilities: [handle_headers, handle_tsv]\n    file: src/csv.rs\n",
    )
    .unwrap()
}

#[test]
fn happy_path_extracts_passes_and_stamps() {
    let rulespec = capabilities_rulespec();
    let envelope = capabilities_envelope();
    let compiled = compile_rulespec(&rulespec, "envelope-verify", 0).unwrap();
    let facts = extract_facts(&envelope, &compiled);
    assert!(facts.contains(&Fact::new("caps", "handle_tsv")));
    assert!(facts.contains(&Fact::new("caps.__length", "2")));
    let result = execute_rules(&compiled, &facts);
    assert_eq!(result.passed_count, 1);
    assert_eq!(result.failed_count, 0);

    let verification = verify_envelope(&Some(capabilities_rulespec()), &Some(capabilities_envelope()));
    let stamp = match &verification {
        EnvelopeVerification::Evaluated(e) => e.stamp,
        _ => false,
    };
    assert!(stamp);
    assert_eq!(verification_summary(&verification), "\n✅ Invariant verification: 1/1 passed\n");

    let stamped = stamp_envelope(&key(), &envelope, &rulespec);
    assert_eq!(stamped.verified, Some(mint_token(&key(), &envelope, &rulespec)));
    assert_eq!(stamped.facts, envelope.facts);
    assert_eq!(verify_token(&Some(key()), &Some(stamped), &Some(rulespec)), Ok(true));
}

#[test]
fn summary_never_shows_the_token() {
    let rulespec = capabilities_rulespec();
    let envelope = capabilities_envelope();
    let token = mint_token(&key(), &envelope, &rulespec);
    let verification = verify_envelope(&Some(rulespec), &Some(envelope));
    let summary = verification_summary(&verification);
    assert!(!summary.contains(&token));
    assert!(!summary.contains("g3v1"));
}

#[test]
fn empty_facts_are_rejected_with_guidance() {
    let envelope = ActionEnvelope::from_yaml("facts: {}").unwrap();
    let outcome = check_envelope(&envelope);
    let message = outcome.unwrap_err();
    assert!(message.starts_with("❌ Envelope has empty facts."));
    assert!(message.contains("facts:\n  my_feature:\n    capabilities: [feature_a, feature_b]"));
    assert!(check_envelope(&capabilities_envelope()).is_ok());
}

#[test]
fn facts_at_top_level_give_an_empty_envelope() {
    let envelope =
        ActionEnvelope::from_yaml("feature:\n  capabilities: [a]\nother: 1\n").unwrap();
    assert!(envelope.is_empty());
    assert!(check_envelope(&envelope).is_err());
}

#[test]
fn facts_prefix_is_tolerated() {
    let envelope = ActionEnvelope::from_yaml("facts:\n  feature:\n    done: true\n").unwrap();
    let mut prefixed = Rulespec::new();
    prefixed.add_claim(Claim::new("claim", "facts.feature.done"));
    prefixed.add_predicate(
        Predicate::new("claim", PredicateRule::Equals, InvariantSource::TaskPrompt)
            .with_value(YamlValue::Bool(true)),
    );
    let compiled = compile_rulespec(&prefixed, "p", 0).unwrap();
    let facts = extract_facts(&envelope, &compiled);
    assert_eq!(facts.len(), 1);
    assert!(facts.contains(&Fact::new("claim", "true")));
    assert!(execute_rules(&compiled, &facts).all_passed());

    let mut plain = Rulespec::new();
    plain.add_claim(Claim::new("claim", "feature.done"));
    let compiled_plain = compile_rulespec(&plain, "p", 0).unwrap();
    let plain_facts = extract_facts(&envelope, &compiled_plain);
    assert_eq!(plain_facts.len(), facts.len());
    assert!(plain_facts.contains(&Fact::new("claim", "true")));
}

#[test]
fn null_means_absent() {
    let envelope = ActionEnvelope::from_yaml("facts:\n  breaking_changes: null\n").unwrap();
    let mut rulespec = Rulespec::new();
    rulespec.add_claim(Claim::new("breaking", "breaking_changes"));
    rulespec.add_predicate(Predicate::new(
        "breaking",
        PredicateRule::NotExists,
        InvariantSource::TaskPrompt,
    ));
    rulespec.add_predicate(Predicate::new(
        "breaking",
        PredicateRule::Exists,
        InvariantSource::TaskPrompt,
    ));
    let compiled = compile_rulespec(&rulespec, "p", 0).unwrap();
    let facts = extract_facts(&envelope, &compiled);
    assert!(facts.is_empty());
    let result = execute_rules(&compiled, &facts);
    assert!(result.predicate_results[0].passed);
    assert!(!result.predicate_results[1].passed);
}

fn reply_rulespec() -> Rulespec {
    let mut rulespec = Rulespec::new();
    rulespec.add_claim(Claim::new("subject", "subject"));
    rulespec.add_claim(Claim::new("reply_to_message_id", "reply_to_message_id"));
    rulespec.add_predicate(
        Predicate::new("reply_to_message_id", PredicateRule::Exists, InvariantSource::TaskPrompt)
            .with_when(
                WhenCondition::new("subject", PredicateRule::Matches).with_value(text("^Re: ")),
            ),
    );
    rulespec
}

fn run(rulespec: &Rulespec, yaml: &str) -> (bool, String) {
    let envelope = ActionEnvelope::from_yaml(yaml).unwrap();
    let compiled = compile_rulespec(rulespec, "p", 0).unwrap();
    let facts = extract_facts(&envelope, &compiled);
    let result = execute_rules(&compiled, &facts);
    (result.predicate_results[0].passed, result.predicate_results[0].reason.clone())
}

#[test]
fn guard_decides_whether_the_rule_counts() {
    let rulespec = reply_rulespec();
    let (reply_without_id, reason) = run(&rulespec, "facts:\n  subject: \"Re: hi\"\n");
    assert!(!reply_without_id);
    assert_eq!(reason, "Value does not exist");
    let (not_a_reply, reason) = run(&rulespec, "facts:\n  subject: \"Hi\"\n");
    assert!(not_a_reply);
    assert_eq!(reason, "Skipped (when condition not met)");
    let (reply_with_id, reason) =
        run(&rulespec, "facts:\n  subject: \"Re: hi\"\n  reply_to_message_id: \"<x@y>\"\n");
    assert!(reply_with_id);
    assert_eq!(reason, "Value exists");
    assert!(!reason.contains("Skipped"));
}

#[test]
fn the_direct_evaluator_explains_the_guard_too() {
    let rulespec = reply_rulespec();
    let reasons = |yaml: &str| {
        let envelope = ActionEnvelope::from_yaml(yaml).unwrap();
        let evaluation = evaluate_rulespec(&rulespec, &envelope);
        let first = &evaluation.predicate_results[0].result;
        (first.passed, first.reason.clone())
    };
    assert_eq!(
        reasons("facts:\n  subject: \"Re: hi\"\n"),
        (false, "Value does not exist".to_string())
    );
    assert_eq!(
        reasons("facts:\n  subject: \"Hi\"\n"),
        (true, "Skipped (when condition not met)".to_string())
    );
    assert_eq!(
        reasons("facts:\n  subject: \"Re: hi\"\n  reply_to_message_id: \"<x@y>\"\n"),
        (true, "Value exists".to_string())
    );
}

#[test]
fn every_rule_explains_its_verdict() {
    let envelope = ActionEnvelope::from_yaml(
        "facts:\n  n: 7\n  word: hello\n  list: [a, b, c]\n  pair: [x, y]\n",
    )
    .unwrap();
    let reason = |claim: &str, rule: PredicateRule, value: Option<YamlValue>| {
        let mut rulespec = Rulespec::new();
        rulespec.add_claim(Claim::new("n", "n"));
        rulespec.add_claim(Claim::new("word", "word"));
        rulespec.add_claim(Claim::new("list", "list"));
        rulespec.add_claim(Claim::new("none", "missing"));
        let mut predicate = Predicate::new(claim, rule, InvariantSource::Memory);
        if let Some(v) = value {
            predicate = predicate.with_value(v);
        }
        rulespec.add_predicate(predicate);
        let compiled = compile_rulespec(&rulespec, "p", 0).unwrap();
        let facts = extract_facts(&envelope, &compiled);
        let result = execute_rules(&compiled, &facts);
        (result.predicate_results[0].passed, result.predicate_results[0].reason.clone())
    };
    let number = |n: u64| YamlValue::Number(g3_verify::value::YamlNumber::PosInt(n));
    let outcome = |passed: bool, s: &str| (passed, s.to_string());
    assert_eq!(reason("none", PredicateRule::NotExists, None), outcome(true, "Value does not exist as expected"));
    assert_eq!(reason("word", PredicateRule::NotExists, None), outcome(false, "Value exists but should not"));
    assert_eq!(reason("list", PredicateRule::Contains, Some(text("b"))), outcome(true, "Contains 'b'"));
    assert_eq!(reason("list", PredicateRule::Contains, Some(text("z"))), outcome(false, "Does not contain 'z'"));
    assert_eq!(reason("none", PredicateRule::Contains, Some(text("z"))), outcome(false, "Claim 'none' has no values"));
    assert_eq!(
        reason("list", PredicateRule::NotContains, Some(text("a"))),
        outcome(false, "Contains 'a' but should not")
    );
    assert_eq!(
        reason("none", PredicateRule::NotContains, Some(text("a"))),
        outcome(true, "Claim 'none' has no values (not_contains passes vacuously)")
    );
    assert_eq!(reason("word", PredicateRule::Equals, Some(text("hello"))), outcome(true, "Equals 'hello'"));
    assert_eq!(
        reason("word", PredicateRule::Equals, Some(text("bye"))),
        outcome(false, "Expected 'bye', got 'hello'")
    );
    assert_eq!(
        reason("list", PredicateRule::Equals, Some(text("a"))),
        outcome(false, "Multiple values found, expected single value 'a'")
    );
    assert_eq!(reason("list", PredicateRule::MinLength, Some(number(2))), outcome(true, "Length 3 >= 2"));
    assert_eq!(
        reason("list", PredicateRule::MinLength, Some(number(4))),
        outcome(false, "Length 3 < 4 (minimum)")
    );
    assert_eq!(reason("list", PredicateRule::MaxLength, Some(number(3))), outcome(true, "Length 3 <= 3"));
    assert_eq!(
        reason("list", PredicateRule::MaxLength, Some(number(2))),
        outcome(false, "Length 3 > 2 (maximum)")
    );
    assert_eq!(reason("n", PredicateRule::GreaterThan, Some(number(5))), outcome(true, "7 > 5"));
    assert_eq!(reason("n", PredicateRule::GreaterThan, Some(number(7))), outcome(false, "7 is not > 7"));
    assert_eq!(reason("n", PredicateRule::LessThan, Some(number(9))), outcome(true, "7 < 9"));
    assert_eq!(reason("n", PredicateRule::LessThan, Some(number(1))), outcome(false, "7 is not < 1"));
    assert_eq!(
        reason("word", PredicateRule::GreaterThan, Some(number(1))),
        outcome(false, "Value is not a number")
    );
    assert_eq!(
        reason("word", PredicateRule::Matches, Some(text("^h.*o$"))),
        outcome(true, "Matches pattern '^h.*o$'")
    );
    assert_eq!(
        reason("word", PredicateRule::Matches, Some(text("^x"))),
        outcome(false, "No value matches pattern '^x'")
    );
    assert_eq!(reason("word", PredicateRule::Matches, Some(text("("))), outcome(false, "Invalid regex: ("));
    let set = YamlValue::Sequence(vec![text("hello"), text("hi")]);
    assert_eq!(reason("word", PredicateRule::AnyOf, Some(set.clone())), outcome(true, "Value is in allowed set"));
    assert_eq!(reason("list", PredicateRule::AnyOf, Some(set.clone())), outcome(false, "Value is not in allowed set"));
    assert_eq!(reason("word", PredicateRule::NoneOf, Some(set.clone())), outcome(false, "Value is in forbidden set"));
    assert_eq!(reason("list", PredicateRule::NoneOf, Some(set.clone())), outcome(true, "Value is not in forbidden set"));
    assert_eq!(
        reason("none", PredicateRule::NoneOf, Some(set)),
        outcome(true, "Claim 'none' has no values (none_of passes vacuously)")
    );
}

#[test]
fn a_stamp_that_the_agent_wrote_is_not_written() {
    let handed_in =
        ActionEnvelope::from_yaml("facts:\n  a: 1\n  b: [x]\nverified: \"g3v1:forged\"\n").unwrap();
    assert_eq!(handed_in.verified, Some("g3v1:forged".to_string()));
    let accepted = accept_envelope(&handed_in).unwrap();
    assert_eq!(accepted.verified, None);
    assert_eq!(accepted.facts, handed_in.facts);
    assert_eq!(handed_in.unstamped(), accepted);
    let empty = ActionEnvelope::from_yaml("facts: {}\nverified: \"g3v1:forged\"\n").unwrap();
    assert!(accept_envelope(&empty).unwrap_err().starts_with("❌ Envelope has empty facts."));
}

#[test]
fn a_rulespec_with_a_fault_is_not_evaluated_and_not_stamped() {
    let mut twice = capabilities_rulespec();
    twice.add_claim(Claim::new("caps", "feature.file"));
    let verification = verify_envelope(&Some(twice.clone()), &Some(capabilities_envelope()));
    assert!(matches!(verification, EnvelopeVerification::CompileFailed(_)));
    assert_eq!(
        verification_summary(&verification),
        "\n⚠️  Failed to compile rulespec: Duplicate claim name 'caps'\n"
    );
    assert!(!envelope_needed(&Some(twice)));

    let mut dangling = capabilities_rulespec();
    dangling.add_predicate(
        Predicate::new("caps", PredicateRule::Exists, InvariantSource::Memory)
            .with_when(WhenCondition::new("nowhere", PredicateRule::Exists)),
    );
    let verification = verify_envelope(&Some(dangling.clone()), &Some(capabilities_envelope()));
    assert!(matches!(verification, EnvelopeVerification::CompileFailed(_)));
    assert_eq!(
        verification_summary(&verification),
        "\n⚠️  Failed to compile rulespec: Predicate 1 has a when condition that references unknown claim 'nowhere'\n"
    );
    assert!(!envelope_needed(&Some(dangling)));

    assert!(envelope_needed(&Some(capabilities_rulespec())));
    assert!(!envelope_needed(&Some(Rulespec::new())));
    assert!(!envelope_needed(&None));
}

#[test]
fn tampering_with_a_fact_breaks_the_stamp() {
    let rulespec = capabilities_rulespec();
    let envelope = capabilities_envelope();
    let stamped = stamp_envelope(&key(), &envelope, &rulespec);
    let mut tampered = ActionEnvelope::from_yaml(
        "facts:\n  feature:\n    capabilities: [handle_headers, handle_tsv]\n    file: src/other.rs\n",
    )
    .unwrap();
    tampered.verified = stamped.verified.clone();
    assert_eq!(verify_token(&Some(key()), &Some(tampered), &Some(capabilities_rulespec())), Ok(false));

    let mut other_key = key();
    other_key[3] ^= 1;
    assert_eq!(
        verify_token(&Some(other_key), &Some(stamp_envelope(&key(), &envelope, &rulespec)), &Some(capabilities_rulespec())),
        Ok(false)
    );

    let mut other_rulespec = capabilities_rulespec();
    other_rulespec.add_claim(Claim::new("file", "feature.file"));
    assert_eq!(
        verify_token(&Some(key()), &Some(stamp_envelope(&key(), &envelope, &rulespec)), &Some(other_rulespec)),
        Ok(false)
    );
}

#[test]
fn verify_token_reports_what_is_missing() {
    let rulespec = capabilities_rulespec();
    let envelope = capabilities_envelope();
    let stamped = stamp_envelope(&key(), &envelope, &rulespec);
    assert_eq!(
        verify_token(&None, &Some(stamp_envelope(&key(), &envelope, &rulespec)), &Some(capabilities_rulespec())),
        Err(VerifyError::KeyMissing)
    );
    assert_eq!(verify_token(&Some(key()), &None, &Some(capabilities_rulespec())), Err(VerifyError::EnvelopeMissing));
    assert_eq!(verify_token(&Some(key()), &Some(capabilities_envelope()), &None), Ok(false));
    assert_eq!(verify_token(&Some(key()), &Some(stamped), &None), Err(VerifyError::RulespecMissing));
    assert_eq!(VerifyError::KeyMissing.to_string(), "Verification key not found at ~/.g3/verification.key");
}

#[test]
fn token_is_blind_to_the_stamp_and_to_the_order_of_facts() {
    let rulespec = capabilities_rulespec();
    let mut a = ActionEnvelope::new();
    a.add_fact("zebra", text("z"));
    a.add_fact("alpha", text("a"));
    let mut b = ActionEnvelope::new();
    b.add_fact("alpha", text("a"));
    b.add_fact("zebra", text("z"));
    b.verified = Some("g3v1:anything".to_string());
    assert_eq!(mint_token(&key(), &a, &rulespec), mint_token(&key(), &b, &rulespec));
    assert_eq!(mint_token(&key(), &a, &rulespec), mint_token(&key(), &a, &rulespec));
}

#[test]
fn verification_ends_early_without_rulespec_predicates_or_envelope() {
    assert!(matches!(verify_envelope(&None, &Some(capabilities_envelope())), EnvelopeVerification::NoRulespec));
    assert!(matches!(
        verify_envelope(&Some(Rulespec::new()), &Some(capabilities_envelope())),
        EnvelopeVerification::NoPredicates
    ));
    assert!(matches!(
        verify_envelope(&Some(capabilities_rulespec()), &None),
        EnvelopeVerification::NoEnvelope
    ));
    let mut broken = Rulespec::new();
    broken.add_claim(Claim::new("bad", "a]"));
    let verification = verify_envelope(&Some(broken), &Some(capabilities_envelope()));
    assert!(matches!(verification, EnvelopeVerification::CompileFailed(_)));
    assert_eq!(
        verification_summary(&verification),
        "\n⚠️  Failed to compile rulespec: Invalid selector 'a]' in claim 'bad': Unexpected ']' in selector\n"
    );
    assert_eq!(
        verification_summary(&EnvelopeVerification::NoRulespec),
        "\nℹ️  No rulespec found — skipping invariant verification.\n"
    );
}

#[test]
fn a_failed_predicate_stops_the_stamp() {
    let mut rulespec = capabilities_rulespec();
    rulespec.add_predicate(
        Predicate::new("caps", PredicateRule::Contains, InvariantSource::Memory)
            .with_value(text("handle_xlsx")),
    );
    let verification = verify_envelope(&Some(rulespec), &Some(capabilities_envelope()));
    match &verification {
        EnvelopeVerification::Evaluated(e) => {
            assert!(!e.stamp);
            assert_eq!(e.result.passed_count, 1);
            assert_eq!(e.result.failed_count, 1);
        }
        _ => panic!("expected an evaluation"),
    }
    assert_eq!(
        verification_summary(&verification),
        "\n⚠️  Invariant verification: 1/2 passed, 1 failed\n"
    );
}
