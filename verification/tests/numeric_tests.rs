use g3_verify::datalog::{compile_rulespec, execute_rules, extract_facts, Fact, FactSet};
use g3_verify::evaluate::evaluate_predicate;
use g3_verify::numeric::Decimal;
use g3_verify::rulespec::{Claim, InvariantSource, Predicate, PredicateRule, Rulespec};
use g3_verify::text::{decimal_string, parse_i64, parse_u64};
use g3_verify::value::{YamlNumber, YamlValue};

fn lt(a: &str, b: &str) -> bool {
    Decimal::parse(a).unwrap().lt(&Decimal::parse(b).unwrap())
}

#[test]
fn numbers_are_compared_by_what_they_denote() {
    assert!(lt("1", "2"));
    assert!(!lt("2", "1"));
    assert!(!lt("2", "2"));
    assert!(lt("9", "10"));
    assert!(lt("999.9", "1e3"));
    assert!(lt("1e3", "1000.5"));
    assert!(!lt("1e3", "1000"));
    assert!(!lt("1000", "1e3"));
    assert!(lt("0.001", "0.01"));
    assert!(lt("1.5e-3", "0.002"));
    assert!(lt("-2", "-1"));
    assert!(lt("-1", "0"));
    assert!(lt("-1", "1"));
    assert!(!lt("-0.0", "0"));
    assert!(!lt("0", "-0.0"));
    assert!(lt("0", "0.0000001"));
    assert!(lt("+5", "6"));
    assert!(lt("007", "8"));
    assert!(!lt("1.50", "1.5"));
    assert!(!lt("1.5", "1.50"));
    assert!(lt("1.", "1.1"));
    assert!(lt(".5", "1"));
    assert!(lt("12345678901234567890123", "12345678901234567890124"));
    assert!(lt("1E2", "101"));
}

#[test]
fn infinities_bound_the_numbers_and_nan_compares_with_nothing() {
    assert!(lt("1e300", "inf"));
    assert!(lt("-inf", "-1e300"));
    assert!(lt("-Infinity", "INF"));
    assert!(!lt("inf", "inf"));
    assert!(!lt("nan", "1"));
    assert!(!lt("1", "NaN"));
    assert!(!lt("nan", "nan"));
}

#[test]
fn what_is_no_number_is_not_read() {
    for text in ["", "+", "-", ".", "e5", "1e", "1e+", "abc", "1 ", " 1", "1_000", "0x10", "1.2.3", "--1", "infinit", ".inf"] {
        assert!(Decimal::parse(text).is_none(), "{:?}", text);
    }
    for text in ["0", "-0", "1.", ".5", "1e5", "1E-5", "+1.5e+3", "inf", "-inf", "nan", "+nan", "infinity"] {
        assert!(Decimal::parse(text).is_some(), "{:?}", text);
    }
}

#[test]
fn integers_are_read_as_rust_reads_them() {
    let read = |s: &str| parse_u64(&s.chars().collect());
    assert_eq!(read("0"), Some(0));
    assert_eq!(read("+42"), Some(42));
    assert_eq!(read("007"), Some(7));
    assert_eq!(read("18446744073709551615"), Some(u64::MAX));
    assert_eq!(read("18446744073709551616"), None);
    assert_eq!(read(""), None);
    assert_eq!(read("+"), None);
    assert_eq!(read("-1"), None);
    assert_eq!(read("1 "), None);
    let signed = |s: &str| parse_i64(&s.chars().collect());
    assert_eq!(signed("-9223372036854775808"), Some(i64::MIN));
    assert_eq!(signed("9223372036854775807"), Some(i64::MAX));
    assert_eq!(signed("9223372036854775808"), None);
    assert_eq!(signed("-9223372036854775809"), None);
    assert_eq!(signed("-0"), Some(0));
    assert_eq!(signed("-"), None);
    assert_eq!(decimal_string(0), "0");
    assert_eq!(decimal_string(u64::MAX), "18446744073709551615");
}

fn number_rulespec(rule: PredicateRule, bound: YamlNumber) -> Rulespec {
    let mut rulespec = Rulespec::new();
    rulespec.add_claim(Claim::new("n", "n"));
    rulespec.add_predicate(
        Predicate::new("n", rule, InvariantSource::TaskPrompt).with_value(YamlValue::Number(bound)),
    );
    rulespec
}

fn passes_on(rulespec: &Rulespec, facts: &FactSet) -> bool {
    let compiled = compile_rulespec(rulespec, "p", 0).unwrap();
    execute_rules(&compiled, facts).predicate_results[0].passed
}

#[test]
fn the_first_value_in_text_order_is_the_one_compared() {
    let greater = number_rulespec(PredicateRule::GreaterThan, YamlNumber::PosInt(10));
    let mut facts = FactSet::new();
    facts.insert(Fact::new("n", "9"));
    facts.insert(Fact::new("n", "100"));
    // "100" comes before "9" in the order of texts
    assert!(passes_on(&greater, &facts));
    let mut only_small = FactSet::new();
    only_small.insert(Fact::new("n", "9"));
    assert!(!passes_on(&greater, &only_small));
    let mut not_a_number = FactSet::new();
    not_a_number.insert(Fact::new("n", "many"));
    assert!(!passes_on(&greater, &not_a_number));
    assert!(!passes_on(&greater, &FactSet::new()));
    let less = number_rulespec(PredicateRule::LessThan, YamlNumber::Float("2.5".to_string()));
    let mut two = FactSet::new();
    two.insert(Fact::new("n", "2.25"));
    assert!(passes_on(&less, &two));
    let negative = number_rulespec(PredicateRule::LessThan, YamlNumber::NegInt(-3));
    let mut minus_four = FactSet::new();
    minus_four.insert(Fact::new("n", "-4"));
    assert!(passes_on(&negative, &minus_four));
}

#[test]
fn direct_comparison_takes_the_first_number() {
    let greater = Predicate::new("n", PredicateRule::GreaterThan, InvariantSource::TaskPrompt)
        .with_value(YamlValue::Number(YamlNumber::PosInt(80)));
    let n = |u: u64| YamlValue::Number(YamlNumber::PosInt(u));
    assert!(evaluate_predicate(&greater, &[n(81)]).passed);
    assert!(!evaluate_predicate(&greater, &[n(80)]).passed);
    assert!(!evaluate_predicate(&greater, &[n(50), n(90)]).passed);
    assert!(evaluate_predicate(&greater, &[YamlValue::String("x".to_string()), n(90), n(1)]).passed);
    assert!(!evaluate_predicate(&greater, &[YamlValue::String("90".to_string())]).passed);
    assert!(evaluate_predicate(&greater, &[YamlValue::Number(YamlNumber::Float("80.5".to_string()))]).passed);
    assert!(evaluate_predicate(&greater, &[YamlValue::Number(YamlNumber::Float(".inf".to_string()))]).passed);
    assert!(!evaluate_predicate(&greater, &[YamlValue::Number(YamlNumber::Float(".nan".to_string()))]).passed);
    assert!(!evaluate_predicate(&greater, &[YamlValue::Number(YamlNumber::NegInt(-81))]).passed);
    let no_operand = Predicate::new("n", PredicateRule::GreaterThan, InvariantSource::TaskPrompt);
    assert!(!evaluate_predicate(&no_operand, &[n(1)]).passed);
}

#[test]
fn lengths_look_at_every_sequence() {
    let seq = |n: usize| YamlValue::Sequence(vec![YamlValue::Null; n]);
    let at_least_two = Predicate::new("s", PredicateRule::MinLength, InvariantSource::TaskPrompt)
        .with_value(YamlValue::Number(YamlNumber::PosInt(2)));
    assert!(evaluate_predicate(&at_least_two, &[seq(2)]).passed);
    assert!(!evaluate_predicate(&at_least_two, &[seq(1)]).passed);
    assert!(evaluate_predicate(&at_least_two, &[seq(1), seq(3)]).passed);
    assert!(!evaluate_predicate(&at_least_two, &[YamlValue::String("abc".to_string())]).passed);
    assert!(!evaluate_predicate(&at_least_two, &[]).passed);
    let at_most_two = Predicate::new("s", PredicateRule::MaxLength, InvariantSource::TaskPrompt)
        .with_value(YamlValue::Number(YamlNumber::PosInt(2)));
    assert!(evaluate_predicate(&at_most_two, &[seq(2)]).passed);
    assert!(!evaluate_predicate(&at_most_two, &[seq(3)]).passed);
    assert!(evaluate_predicate(&at_most_two, &[seq(3), seq(0)]).passed);
    let not_a_count = Predicate::new("s", PredicateRule::MinLength, InvariantSource::TaskPrompt)
        .with_value(YamlValue::String("2".to_string()));
    assert!(!evaluate_predicate(&not_a_count, &[seq(5)]).passed);
}

#[test]
fn compiled_lengths_read_the_length_fact() {
    let at_least_two = number_rulespec(PredicateRule::MinLength, YamlNumber::PosInt(2));
    let mut facts = FactSet::new();
    facts.insert(Fact::new("n.__length", "3"));
    assert!(passes_on(&at_least_two, &facts));
    let mut short = FactSet::new();
    short.insert(Fact::new("n.__length", "1"));
    assert!(!passes_on(&at_least_two, &short));
    assert!(!passes_on(&at_least_two, &FactSet::new()));
    let at_most_two = number_rulespec(PredicateRule::MaxLength, YamlNumber::PosInt(2));
    assert!(passes_on(&at_most_two, &FactSet::new()));
    assert!(!passes_on(&at_most_two, &facts));
}

#[test]
fn membership_reads_the_operand_between_its_brackets() {
    let mut rulespec = Rulespec::new();
    rulespec.add_claim(Claim::new("format", "format"));
    rulespec.add_predicate(
        Predicate::new("format", PredicateRule::AnyOf, InvariantSource::TaskPrompt).with_value(
            YamlValue::Sequence(vec![
                YamlValue::String("json".to_string()),
                YamlValue::String("yaml".to_string()),
                YamlValue::Number(YamlNumber::PosInt(7)),
            ]),
        ),
    );
    let compiled = compile_rulespec(&rulespec, "p", 0).unwrap();
    assert_eq!(compiled.predicates[0].expected_value, Some("[json, yaml, 7]".to_string()));
    for (value, expected) in [("json", true), ("yaml", true), ("7", true), ("xml", false), ("json, yaml", false), ("[json", false)] {
        let mut facts = FactSet::new();
        facts.insert(Fact::new("format", value));
        assert_eq!(execute_rules(&compiled, &facts).predicate_results[0].passed, expected, "{}", value);
    }
    let envelope_facts = extract_facts(&g3_verify::envelope::ActionEnvelope::new(), &compiled);
    assert!(!execute_rules(&compiled, &envelope_facts).predicate_results[0].passed);
}
