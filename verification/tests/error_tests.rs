use g3_verify::datalog::{compile_rulespec, CompileError};
use g3_verify::decode::{decode_envelope, decode_rulespec, DecodeError, Field};
use g3_verify::envelope::ActionEnvelope;
use g3_verify::rulespec::{
    Claim, InvariantSource, Predicate, PredicateRule, Rulespec, RulespecError, WhenCondition,
};
use g3_verify::selector::{Selector, SelectorError, SelectorSegment};
use g3_verify::value::{YamlNumber, YamlValue};

#[test]
fn selectors_parse_into_their_segments() {
    let field = |s: &str| SelectorSegment::Field(s.to_string());
    assert_eq!(Selector::parse("a.b.c").unwrap().segments, vec![field("a"), field("b"), field("c")]);
    assert_eq!(
        Selector::parse("items[0].id").unwrap().segments,
        vec![field("items"), SelectorSegment::Index(0), field("id")]
    );
    assert_eq!(
        Selector::parse("  items[*].name  ").unwrap().segments,
        vec![field("items"), SelectorSegment::Wildcard, field("name")]
    );
    assert_eq!(Selector::parse("a..b").unwrap().segments, vec![field("a"), field("b")]);
    assert_eq!(Selector::parse(".a.").unwrap().segments, vec![field("a")]);
    assert_eq!(
        Selector::parse("[2][*]").unwrap().segments,
        vec![SelectorSegment::Index(2), SelectorSegment::Wildcard]
    );
    assert_eq!(Selector::parse("a[+7]").unwrap().segments, vec![field("a"), SelectorSegment::Index(7)]);
    assert_eq!(Selector::parse("a[3").unwrap().segments, vec![field("a"), SelectorSegment::Index(3)]);
    assert_eq!(Selector::parse("a*b"), Err(SelectorError::MisplacedWildcard));
    assert_eq!(Selector::parse("a b").unwrap().segments, vec![field("a b")]);
}

#[test]
fn selectors_that_do_not_parse_say_why() {
    assert_eq!(Selector::parse(""), Err(SelectorError::Empty));
    assert_eq!(Selector::parse(" \t\n"), Err(SelectorError::Empty));
    assert_eq!(Selector::parse("a]"), Err(SelectorError::UnexpectedBracket));
    assert_eq!(Selector::parse("a[1]]"), Err(SelectorError::UnexpectedBracket));
    assert_eq!(Selector::parse("..."), Err(SelectorError::NoSegments));
    assert_eq!(Selector::parse("a[x]"), Err(SelectorError::InvalidIndex("x".to_string())));
    assert_eq!(Selector::parse("a[]"), Err(SelectorError::InvalidIndex("".to_string())));
    assert_eq!(Selector::parse("a[-1]"), Err(SelectorError::InvalidIndex("-1".to_string())));
    assert_eq!(Selector::parse("a[**]"), Err(SelectorError::InvalidIndex("**".to_string())));
    assert_eq!(Selector::parse("a[1.5]"), Err(SelectorError::InvalidIndex("1.5".to_string())));
    assert_eq!(
        Selector::parse("a[99999999999999999999999]"),
        Err(SelectorError::InvalidIndex("99999999999999999999999".to_string()))
    );
    assert_eq!(Selector::parse("a[").unwrap_err().message(), "Invalid array index: ");
    assert_eq!(SelectorError::Empty.message(), "Selector cannot be empty");
    assert_eq!(SelectorError::UnexpectedBracket.message(), "Unexpected ']' in selector");
    assert_eq!(SelectorError::NoSegments.message(), "Selector produced no segments");
}

fn document() -> YamlValue {
    let item = |id: u64, name: &str| {
        YamlValue::Mapping(vec![
            (YamlValue::String("id".to_string()), YamlValue::Number(YamlNumber::PosInt(id))),
            (YamlValue::String("name".to_string()), YamlValue::String(name.to_string())),
        ])
    };
    YamlValue::Mapping(vec![
        (
            YamlValue::String("items".to_string()),
            YamlValue::Sequence(vec![item(1, "one"), item(2, "two"), YamlValue::Null]),
        ),
        (YamlValue::Number(YamlNumber::PosInt(5)), YamlValue::Bool(true)),
    ])
}

#[test]
fn selection_follows_the_tree_and_fans_out() {
    let doc = document();
    let names = Selector::parse("items[*].name").unwrap().select(&doc);
    assert_eq!(names, vec![YamlValue::String("one".to_string()), YamlValue::String("two".to_string())]);
    assert_eq!(
        Selector::parse("items[1].id").unwrap().select_one(&doc),
        Some(YamlValue::Number(YamlNumber::PosInt(2)))
    );
    assert_eq!(Selector::parse("items[*].id").unwrap().select_one(&doc), None);
    assert_eq!(Selector::parse("items[2]").unwrap().select(&doc), vec![YamlValue::Null]);
    assert!(Selector::parse("items[3]").unwrap().select(&doc).is_empty());
    assert!(Selector::parse("items.name").unwrap().select(&doc).is_empty());
    assert!(Selector::parse("items[0][0]").unwrap().select(&doc).is_empty());
    assert!(Selector::parse("[*]").unwrap().select(&doc).is_empty());
    assert!(Selector::parse("5").unwrap().select(&doc).is_empty());
    assert_eq!(Selector::parse("items[*]").unwrap().select(&doc).len(), 3);
}

#[test]
fn every_fault_of_a_rulespec_is_named() {
    let check = |rulespec: &Rulespec| rulespec.validate().unwrap_err();
    let with_claim = |claim: Claim| {
        let mut r = Rulespec::new();
        r.add_claim(claim);
        r
    };
    assert_eq!(check(&with_claim(Claim::new(" ", "a"))), RulespecError::EmptyClaimName);
    assert_eq!(check(&with_claim(Claim::new("a", ""))), RulespecError::EmptyClaimSelector);
    assert_eq!(
        check(&with_claim(Claim::new("a", "b]"))),
        RulespecError::InvalidSelector(g3_verify::selector::SelectorError::UnexpectedBracket)
    );
    let mut twice = with_claim(Claim::new("a", "x"));
    twice.add_claim(Claim::new("b", "y"));
    twice.add_claim(Claim::new("a", "z"));
    assert_eq!(check(&twice), RulespecError::DuplicateClaim("a".to_string()));
    assert_eq!(check(&twice).to_string(), "Duplicate claim name: a");

    let with_predicate = |p: Predicate| {
        let mut r = with_claim(Claim::new("a", "x"));
        r.add_predicate(p);
        r
    };
    let source = InvariantSource::Memory;
    assert_eq!(
        check(&with_predicate(Predicate::new("", PredicateRule::Exists, source))),
        RulespecError::EmptyPredicateClaim
    );
    assert_eq!(
        check(&with_predicate(Predicate::new("a", PredicateRule::Equals, source))),
        RulespecError::MissingValue(PredicateRule::Equals)
    );
    assert_eq!(
        check(&with_predicate(Predicate::new("a", PredicateRule::MinLength, source))).to_string(),
        "Predicate rule 'min_length' requires a value"
    );
    assert_eq!(
        check(&with_predicate(Predicate::new("b", PredicateRule::Exists, source))),
        RulespecError::UnknownClaim("b".to_string())
    );
    assert_eq!(
        check(&with_predicate(
            Predicate::new("a", PredicateRule::Exists, source)
                .with_when(WhenCondition::new("", PredicateRule::Exists))
        )),
        RulespecError::EmptyWhenClaim
    );
    assert_eq!(
        check(&with_predicate(
            Predicate::new("a", PredicateRule::Exists, source)
                .with_when(WhenCondition::new("a", PredicateRule::Matches))
        )),
        RulespecError::MissingWhenValue(PredicateRule::Matches)
    );
    assert_eq!(
        check(&with_predicate(
            Predicate::new("a", PredicateRule::Exists, source)
                .with_when(WhenCondition::new("c", PredicateRule::Exists))
        )),
        RulespecError::UnknownWhenClaim("c".to_string())
    );
    assert!(with_predicate(
        Predicate::new("a", PredicateRule::NotExists, source)
            .with_when(WhenCondition::new("a", PredicateRule::Exists))
    )
    .validate()
    .is_ok());
    assert!(Rulespec::new().validate().is_ok());
}

#[test]
fn compile_errors_say_which_claim_and_which_predicate() {
    let mut r = Rulespec::new();
    r.add_claim(Claim::new("good", "a.b"));
    r.add_claim(Claim::new("bad", "a[x]"));
    r.add_predicate(Predicate::new("nowhere", PredicateRule::Exists, InvariantSource::Memory));
    let e = compile_rulespec(&r, "p", 1).unwrap_err();
    assert_eq!(e.to_string(), "Invalid selector 'a[x]' in claim 'bad': Invalid array index: x");
    let mut r = Rulespec::new();
    r.add_claim(Claim::new("good", "a.b"));
    r.add_predicate(Predicate::new("good", PredicateRule::Exists, InvariantSource::Memory));
    r.add_predicate(Predicate::new("nowhere", PredicateRule::Exists, InvariantSource::Memory));
    let e = compile_rulespec(&r, "p", 1).unwrap_err();
    assert_eq!(e, CompileError::UnknownClaim { index: 1, claim: "nowhere".to_string() });
    assert_eq!(e.to_string(), "Predicate 1 references unknown claim 'nowhere'");
}

#[test]
fn compiling_keeps_order_numbers_and_claims() {
    let mut r = Rulespec::new();
    r.add_claim(Claim::new("a", "first"));
    r.add_claim(Claim::new("b", "other"));
    r.add_predicate(
        Predicate::new("a", PredicateRule::Equals, InvariantSource::Memory)
            .with_value(YamlValue::Sequence(vec![YamlValue::Null, YamlValue::Bool(false)]))
            .with_notes("n")
            .with_when(WhenCondition::new("b", PredicateRule::Exists)),
    );
    r.add_predicate(Predicate::new("b", PredicateRule::NotExists, InvariantSource::TaskPrompt));
    let c = compile_rulespec(&r, "plan", 9).unwrap();
    assert_eq!(c.claims, vec![("a".to_string(), "first".to_string()), ("b".to_string(), "other".to_string())]);
    assert_eq!(c.predicates.len(), 2);
    assert_eq!(c.predicates[0].id, 0);
    assert_eq!(c.predicates[1].id, 1);
    assert_eq!(c.predicates[0].selector, "first");
    assert_eq!(c.predicates[0].expected_value, Some("[null, false]".to_string()));
    assert_eq!(c.predicates[0].notes, Some("n".to_string()));
    assert_eq!(c.predicates[0].when.as_ref().unwrap().claim_name, "b");
    assert_eq!(c.predicates[0].when.as_ref().unwrap().selector, "other");
    assert_eq!(c.predicates[1].expected_value, None);
    assert_eq!(c.plan_id, "plan");
    assert_eq!(c.compiled_at_revision, 9);
    assert_eq!(compile_rulespec(&r, "plan", 9).unwrap(), c);
}

#[test]
fn two_claims_of_one_name_do_not_compile() {
    let mut r = Rulespec::new();
    r.add_claim(Claim::new("a", "first"));
    r.add_claim(Claim::new("b", "other"));
    r.add_claim(Claim::new("a", "second"));
    r.add_predicate(Predicate::new("a", PredicateRule::Exists, InvariantSource::Memory));
    let e = compile_rulespec(&r, "plan", 0).unwrap_err();
    assert_eq!(e, CompileError::DuplicateClaim { claim: "a".to_string() });
    assert_eq!(e.to_string(), "Duplicate claim name 'a'");
}

#[test]
fn a_selector_fault_comes_before_a_later_duplicate() {
    let mut r = Rulespec::new();
    r.add_claim(Claim::new("a", "first"));
    r.add_claim(Claim::new("b", "x]"));
    r.add_claim(Claim::new("a", "second"));
    let e = compile_rulespec(&r, "plan", 0).unwrap_err();
    assert!(matches!(e, CompileError::InvalidSelector { .. }));
    let mut r = Rulespec::new();
    r.add_claim(Claim::new("a", "first"));
    r.add_claim(Claim::new("a", "second"));
    r.add_claim(Claim::new("b", "x]"));
    let e = compile_rulespec(&r, "plan", 0).unwrap_err();
    assert_eq!(e, CompileError::DuplicateClaim { claim: "a".to_string() });
}

#[test]
fn a_guard_on_an_undeclared_claim_does_not_compile() {
    let mut r = Rulespec::new();
    r.add_claim(Claim::new("a", "first"));
    r.add_predicate(Predicate::new("a", PredicateRule::Exists, InvariantSource::Memory));
    r.add_predicate(
        Predicate::new("a", PredicateRule::Exists, InvariantSource::Memory)
            .with_when(WhenCondition::new("missing", PredicateRule::Exists)),
    );
    let e = compile_rulespec(&r, "plan", 0).unwrap_err();
    assert_eq!(e, CompileError::UnknownGuardClaim { index: 1, claim: "missing".to_string() });
    assert_eq!(
        e.to_string(),
        "Predicate 1 has a when condition that references unknown claim 'missing'"
    );
}

#[test]
fn a_star_outside_brackets_is_no_selector() {
    assert_eq!(Selector::parse("a.*"), Err(SelectorError::MisplacedWildcard));
    assert_eq!(Selector::parse("*"), Err(SelectorError::MisplacedWildcard));
    assert_eq!(Selector::parse("items*"), Err(SelectorError::MisplacedWildcard));
    assert_eq!(Selector::parse("items[*]*"), Err(SelectorError::MisplacedWildcard));
    assert_eq!(Selector::parse("a]*"), Err(SelectorError::UnexpectedBracket));
    assert_eq!(
        SelectorError::MisplacedWildcard.message(),
        "Unexpected '*' outside brackets in selector"
    );
    let parsed = Selector::parse("items[*].name").unwrap();
    assert_eq!(
        parsed.segments,
        vec![
            SelectorSegment::Field("items".to_string()),
            SelectorSegment::Wildcard,
            SelectorSegment::Field("name".to_string()),
        ]
    );
    let mut r = Rulespec::new();
    r.add_claim(Claim::new("c", "a.*"));
    let e = compile_rulespec(&r, "plan", 0).unwrap_err();
    assert_eq!(
        e.to_string(),
        "Invalid selector 'a.*' in claim 'c': Unexpected '*' outside brackets in selector"
    );
}

fn parse(text: &str) -> YamlValue {
    let node: serde_yaml::Value = serde_yaml::from_str(text).unwrap();
    convert(&node)
}

fn convert(v: &serde_yaml::Value) -> YamlValue {
    match v {
        serde_yaml::Value::Null => YamlValue::Null,
        serde_yaml::Value::Bool(b) => YamlValue::Bool(*b),
        serde_yaml::Value::Number(n) => YamlValue::Number(match (n.as_u64(), n.as_i64()) {
            (Some(u), _) => YamlNumber::PosInt(u),
            (_, Some(i)) => YamlNumber::NegInt(i),
            _ => YamlNumber::Float(n.to_string()),
        }),
        serde_yaml::Value::String(s) => YamlValue::String(s.clone()),
        serde_yaml::Value::Sequence(s) => YamlValue::Sequence(s.iter().map(convert).collect()),
        serde_yaml::Value::Mapping(m) => {
            YamlValue::Mapping(m.iter().map(|(k, v)| (convert(k), convert(v))).collect())
        }
        serde_yaml::Value::Tagged(t) => convert(&t.value),
    }
}

#[test]
fn documents_that_are_no_rulespec_say_where() {
    let fault = |text: &str| decode_rulespec(&parse(text)).unwrap_err();
    assert_eq!(fault("- a"), DecodeError::WrongType(Field::Document));
    assert_eq!(fault("claims: 3"), DecodeError::WrongType(Field::Claims));
    assert_eq!(fault("claims: [x]"), DecodeError::WrongType(Field::Claim));
    assert_eq!(fault("claims: [{selector: a}]"), DecodeError::Missing(Field::ClaimName));
    assert_eq!(fault("claims: [{name: a}]"), DecodeError::Missing(Field::ClaimSelector));
    assert_eq!(fault("claims: [{name: 1, selector: a}]"), DecodeError::WrongType(Field::ClaimName));
    assert_eq!(fault("predicates: {}"), DecodeError::WrongType(Field::Predicates));
    assert_eq!(fault("predicates: [1]"), DecodeError::WrongType(Field::Predicate));
    assert_eq!(fault("predicates: [{rule: exists, source: memory}]"), DecodeError::Missing(Field::ClaimRef));
    assert_eq!(fault("predicates: [{claim: a, source: memory}]"), DecodeError::Missing(Field::Rule));
    assert_eq!(fault("predicates: [{claim: a, rule: exists}]"), DecodeError::Missing(Field::Source));
    assert_eq!(
        fault("predicates: [{claim: a, rule: exist, source: memory}]"),
        DecodeError::UnknownRule("exist".to_string())
    );
    assert_eq!(
        fault("predicates: [{claim: a, rule: exists, source: prompt}]"),
        DecodeError::UnknownSource("prompt".to_string())
    );
    assert_eq!(
        fault("predicates: [{claim: a, rule: exists, source: memory, notes: [x]}]"),
        DecodeError::WrongType(Field::Notes)
    );
    assert_eq!(
        fault("predicates: [{claim: a, rule: exists, source: memory, when: 1}]"),
        DecodeError::WrongType(Field::When)
    );
    assert_eq!(
        fault("predicates: [{claim: a, rule: exists, source: memory, when: {rule: exists}}]"),
        DecodeError::Missing(Field::ClaimRef)
    );
    assert_eq!(Rulespec::from_yaml("claims: [").unwrap_err(), DecodeError::Syntax);
}

#[test]
fn a_rulespec_is_read_field_by_field() {
    let rulespec = Rulespec::from_yaml(
        "claims:\n  - name: caps\n    selector: feature.capabilities\n    extra: ignored\npredicates:\n  - claim: caps\n    rule: min_length\n    value: 2\n    source: task_prompt\n    notes: two at least\n    when:\n      claim: caps\n      rule: exists\n  - claim: caps\n    rule: not_exists\n    value: null\n    source: memory\n    when: null\nother: ignored\n",
    )
    .unwrap();
    let mut expected = Rulespec::new();
    expected.add_claim(Claim::new("caps", "feature.capabilities"));
    expected.add_predicate(
        Predicate::new("caps", PredicateRule::MinLength, InvariantSource::TaskPrompt)
            .with_value(YamlValue::Number(YamlNumber::PosInt(2)))
            .with_notes("two at least")
            .with_when(WhenCondition::new("caps", PredicateRule::Exists)),
    );
    expected.add_predicate(Predicate::new("caps", PredicateRule::NotExists, InvariantSource::Memory));
    assert_eq!(rulespec, expected);
    assert_eq!(Rulespec::from_yaml("{}").unwrap(), Rulespec::new());
    for (name, rule) in [
        ("contains", PredicateRule::Contains),
        ("equals", PredicateRule::Equals),
        ("exists", PredicateRule::Exists),
        ("not_exists", PredicateRule::NotExists),
        ("greater_than", PredicateRule::GreaterThan),
        ("less_than", PredicateRule::LessThan),
        ("min_length", PredicateRule::MinLength),
        ("max_length", PredicateRule::MaxLength),
        ("matches", PredicateRule::Matches),
        ("not_contains", PredicateRule::NotContains),
        ("any_of", PredicateRule::AnyOf),
        ("none_of", PredicateRule::NoneOf),
    ] {
        assert_eq!(g3_verify::decode::rule_from_name(name), Some(rule));
        assert_eq!(rule.to_string(), name);
    }
    assert_eq!(g3_verify::decode::rule_from_name("Exists"), None);
    assert_eq!(g3_verify::decode::source_from_name("memory"), Some(InvariantSource::Memory));
    assert_eq!(g3_verify::decode::source_from_name("task_prompt"), Some(InvariantSource::TaskPrompt));
    assert_eq!(InvariantSource::TaskPrompt.to_string(), "task_prompt");
}

#[test]
fn documents_that_are_no_envelope_say_where() {
    let fault = |text: &str| decode_envelope(&parse(text)).unwrap_err();
    assert_eq!(fault("[]"), DecodeError::WrongType(Field::Document));
    assert_eq!(fault("facts: [a]"), DecodeError::WrongType(Field::Facts));
    assert_eq!(fault("facts: {1: a}"), DecodeError::WrongType(Field::FactKey));
    assert_eq!(fault("facts: {a: 1}\nverified: 7"), DecodeError::WrongType(Field::Verified));
    assert_eq!(ActionEnvelope::from_yaml(": : :").unwrap_err(), DecodeError::Syntax);
    let envelope = ActionEnvelope::from_yaml("verified: \"g3v1:x\"\nfacts:\n  b: 1\n  a: [x]\n").unwrap();
    assert_eq!(envelope.verified, Some("g3v1:x".to_string()));
    assert_eq!(envelope.facts.len(), 2);
    assert_eq!(envelope.facts[0].0, "b");
    assert_eq!(envelope.get_fact("a"), Some(&YamlValue::Sequence(vec![YamlValue::String("x".to_string())])));
    assert_eq!(envelope.get_fact("c"), None);
}

#[test]
fn an_envelope_is_stored_with_its_stamp_and_read_back() {
    let mut envelope = ActionEnvelope::new();
    envelope.add_fact("feature", YamlValue::Mapping(vec![(
        YamlValue::String("done".to_string()),
        YamlValue::Bool(true),
    )]));
    assert_eq!(
        g3_verify::decode::format_envelope_yaml(&envelope),
        "# Action Envelope - Evidence of work done\n# Generated by g3 Plan Mode\n\nfacts:\n  feature:\n    done: true\n"
    );
    envelope.verified = Some("g3v1:AAAA".to_string());
    let text = g3_verify::decode::format_envelope_yaml(&envelope);
    assert!(text.ends_with("verified: g3v1:AAAA\n"));
    assert_eq!(ActionEnvelope::from_yaml(&text).unwrap(), envelope);
    envelope.add_fact("feature", YamlValue::Null);
    assert_eq!(envelope.facts.len(), 1);
    assert_eq!(envelope.get_fact("feature"), Some(&YamlValue::Null));
}
