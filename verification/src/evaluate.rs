//! Direct evaluation of predicates against the values that a claim selects.

use vstd::prelude::*;
use crate::numeric::{num_lt, read_number, Decimal, Num};
use crate::pattern::{compile, is_match, regex_accepts, regex_valid, regex_verdict, Pattern};
use crate::envelope::{document_of, ActionEnvelope};
use crate::rulespec::{
    find_claim, operand_view, ClaimView, Predicate, PredicateRule, PredicateView, Rulespec, WhenView,
};
use crate::selector::{parse_selector, select_values, selector_error_text, Selector};
use crate::text::{
    chars_contain, chars_of, contains_text, decimal, push_decimal, push_str, str_eq, string_of,
};
use crate::value::{
    display_text, entry_views, item_views, lemma_view_mapping, lemma_view_sequence, number_text,
    NumberView, ValueView, YamlNumber, YamlValue,
};

verus! {

/// The outcome of one predicate.
#[derive(Clone, Debug, PartialEq, Eq)]
pub struct PredicateResult {
    /// Whether the predicate holds.
    pub passed: bool,
    /// An explanation for a human reader.
    pub reason: String,
}

impl PredicateResult {
    /// A passing outcome with the given explanation.
    pub fn pass(reason: &str) -> (r: PredicateResult)
        ensures
            r.passed,
            r.reason@ == reason@,
    {
        PredicateResult { passed: true, reason: reason.to_string() }
    }

    /// A failing outcome with the given explanation.
    pub fn fail(reason: &str) -> (r: PredicateResult)
        ensures
            !r.passed,
            r.reason@ == reason@,
    {
        PredicateResult { passed: false, reason: reason.to_string() }
    }
}

/// Whether `hay` contains `needle`: as an item of a sequence, as a part of a string, as a
/// value of a mapping, and for any other value by being equal to it.
pub open spec fn value_contains(hay: ValueView, needle: ValueView) -> bool {
    match hay {
        ValueView::Sequence(items) => exists|i: int|
            0 <= i < items.len() && (#[trigger] items[i]) == needle,
        ValueView::String(s) => match needle {
            ValueView::String(n) => contains_text(s, n),
            _ => false,
        },
        ValueView::Mapping(entries) => exists|i: int|
            0 <= i < entries.len() && (#[trigger] entries[i]).1 == needle,
        _ => hay == needle,
    }
}

/// The count that a number stands for as a length: itself where it is an integer that is not
/// negative, else zero.
pub open spec fn count_of(n: NumberView) -> nat {
    match n {
        NumberView::PosInt(u) => u as nat,
        _ => 0,
    }
}

/// The number that a text denotes in a YAML document: `.inf`, `-.inf` and `.nan` are read
/// as such, anything else in decimal notation, and what is no number as not a number.
pub open spec fn float_value(t: Seq<char>) -> Num {
    if t == ".inf"@ {
        Num::PosInf
    } else if t == "-.inf"@ {
        Num::NegInf
    } else if t == ".nan"@ {
        Num::NaN
    } else {
        match read_number(t) {
            Some(n) => n,
            None => Num::NaN,
        }
    }
}

/// The number that a YAML number denotes.
pub open spec fn number_value(n: NumberView) -> Num {
    float_value(number_text(n))
}

/// The first number among `vals`.
pub open spec fn first_number(vals: Seq<ValueView>) -> Option<NumberView>
    decreases vals.len(),
{
    if vals.len() == 0 {
        None
    } else {
        match vals[0] {
            ValueView::Number(n) => Some(n),
            _ => first_number(vals.drop_first()),
        }
    }
}

/// Whether the rule `rule` with the operand `operand` holds of the selected values `vals`.
///
/// - `exists`: some value is not null.
/// - `not_exists`: every value is null.
/// - `equals`: there is one value and it equals the operand.
/// - `contains`: some value contains the operand.
/// - `not_contains`: no value contains the operand.
/// - `any_of`: the operand is a sequence and some value is among its items.
/// - `none_of`: the operand is a sequence and no value is among its items.
/// - `min_length`, `max_length`: the operand is a number and some value is a sequence
///   with at least, or at most, that many items.
/// - `greater_than`, `less_than`: the operand is a number and the first number among the
///   values is strictly above, or below, it.
/// - `matches`: the operand is a string and, as a regular expression, matches some value
///   that is a string.
///
/// A rule that takes an operand fails without one.
pub open spec fn rule_passes(
    rule: PredicateRule,
    operand: Option<ValueView>,
    vals: Seq<ValueView>,
) -> bool {
    match rule {
        PredicateRule::Exists => exists|i: int|
            0 <= i < vals.len() && (#[trigger] vals[i]) != ValueView::Null,
        PredicateRule::NotExists => forall|i: int|
            0 <= i < vals.len() ==> (#[trigger] vals[i]) == ValueView::Null,
        PredicateRule::Equals => operand is Some && vals.len() == 1 && vals[0] == operand->0,
        PredicateRule::Contains => operand is Some && exists|i: int|
            0 <= i < vals.len() && value_contains(#[trigger] vals[i], operand->0),
        PredicateRule::NotContains => operand is Some && forall|i: int|
            0 <= i < vals.len() ==> !value_contains(#[trigger] vals[i], operand->0),
        PredicateRule::AnyOf => match operand {
            Some(ValueView::Sequence(set)) => exists|i: int|
                0 <= i < vals.len() && set.contains(#[trigger] vals[i]),
            _ => false,
        },
        PredicateRule::NoneOf => match operand {
            Some(ValueView::Sequence(set)) => forall|i: int|
                0 <= i < vals.len() ==> !set.contains(#[trigger] vals[i]),
            _ => false,
        },
        PredicateRule::MinLength => match operand {
            Some(ValueView::Number(n)) => exists|i: int|
                0 <= i < vals.len() && (#[trigger] vals[i]) is Sequence
                    && vals[i]->Sequence_0.len() >= count_of(n),
            _ => false,
        },
        PredicateRule::MaxLength => match operand {
            Some(ValueView::Number(n)) => exists|i: int|
                0 <= i < vals.len() && (#[trigger] vals[i]) is Sequence
                    && vals[i]->Sequence_0.len() <= count_of(n),
            _ => false,
        },
        PredicateRule::GreaterThan => match operand {
            Some(ValueView::Number(n)) => match first_number(vals) {
                Some(v) => num_lt(number_value(n), number_value(v)),
                None => false,
            },
            _ => false,
        },
        PredicateRule::LessThan => match operand {
            Some(ValueView::Number(n)) => match first_number(vals) {
                Some(v) => num_lt(number_value(v), number_value(n)),
                None => false,
            },
            _ => false,
        },
        PredicateRule::Matches => match operand {
            Some(ValueView::String(p)) => exists|i: int|
                0 <= i < vals.len() && (#[trigger] vals[i]) is String && regex_verdict(
                    p,
                    vals[i]->String_0,
                ) == Some(true),
            _ => false,
        },
    }
}

/// The number that a YAML number denotes.
pub fn number_decimal(n: &YamlNumber) -> (d: Decimal)
    ensures
        d@ == number_value(n@),
{
    let text = n.to_text();
    if str_eq(text.as_str(), ".inf") {
        Decimal::PosInf
    } else if str_eq(text.as_str(), "-.inf") {
        Decimal::NegInf
    } else if str_eq(text.as_str(), ".nan") {
        Decimal::NaN
    } else {
        match Decimal::parse(text.as_str()) {
            Some(d) => d,
            None => Decimal::NaN,
        }
    }
}

/// Whether `hay` contains `needle`.
pub fn contains_value(hay: &YamlValue, needle: &YamlValue) -> (r: bool)
    ensures
        r == value_contains(hay@, needle@),
{
    match hay {
        YamlValue::Sequence(items) => {
            proof {
                lemma_view_sequence(*items);
            }
            let ghost views = item_views(items@);
            let mut i: usize = 0;
            while i < items.len()
                invariant
                    i <= items.len(),
                    views == item_views(items@),
                    hay@ == ValueView::Sequence(views),
                    forall|k: int| 0 <= k < i ==> (#[trigger] views[k]) != needle@,
                decreases items.len() - i,
            {
                if items[i].same(needle) {
                    assert(0 <= i < views.len() && views[i as int] == needle@);
                    assert(exists|k: int|
                        0 <= k < views.len() && (#[trigger] views[k]) == needle@);
                    assert(hay@->Sequence_0 == views);
                    return true;
                }
                i += 1;
            }
            false
        },
        YamlValue::String(s) => match needle {
            YamlValue::String(n) => chars_contain(&chars_of(s.as_str()), &chars_of(n.as_str())),
            _ => false,
        },
        YamlValue::Mapping(entries) => {
            proof {
                lemma_view_mapping(*entries);
            }
            let ghost views = entry_views(entries@);
            let mut i: usize = 0;
            while i < entries.len()
                invariant
                    i <= entries.len(),
                    views == entry_views(entries@),
                    hay@ == ValueView::Mapping(views),
                    forall|k: int| 0 <= k < i ==> (#[trigger] views[k]).1 != needle@,
                decreases entries.len() - i,
            {
                if entries[i].1.same(needle) {
                    assert(0 <= i < views.len() && views[i as int].1 == needle@);
                    assert(exists|k: int|
                        0 <= k < views.len() && (#[trigger] views[k]).1 == needle@);
                    assert(hay@->Mapping_0 == views);
                    return true;
                }
                i += 1;
            }
            false
        },
        _ => hay.same(needle),
    }
}

/// Whether some of `values` is not null.
fn any_non_null(values: &[YamlValue]) -> (r: bool)
    ensures
        r == rule_passes(PredicateRule::Exists, None, item_views(values@)),
        r == !rule_passes(PredicateRule::NotExists, None, item_views(values@)),
{
    let ghost vals = item_views(values@);
    let mut i: usize = 0;
    while i < values.len()
        invariant
            i <= values.len(),
            vals == item_views(values@),
            forall|k: int| 0 <= k < i ==> (#[trigger] vals[k]) == ValueView::Null,
        decreases values.len() - i,
    {
        if !values[i].is_null() {
            assert(vals[i as int] != ValueView::Null);
            return true;
        }
        i += 1;
    }
    false
}

/// Whether some of `values` contains `target`.
fn any_contains(values: &[YamlValue], target: &YamlValue) -> (r: bool)
    ensures
        r == rule_passes(PredicateRule::Contains, Some(target@), item_views(values@)),
        r == !rule_passes(PredicateRule::NotContains, Some(target@), item_views(values@)),
{
    let ghost vals = item_views(values@);
    let mut i: usize = 0;
    while i < values.len()
        invariant
            i <= values.len(),
            vals == item_views(values@),
            forall|k: int| 0 <= k < i ==> !value_contains(#[trigger] vals[k], target@),
        decreases values.len() - i,
    {
        if contains_value(&values[i], target) {
            assert(value_contains(vals[i as int], target@));
            return true;
        }
        i += 1;
    }
    false
}

/// Whether `value` is one of `set`.
fn is_member(set: &Vec<YamlValue>, value: &YamlValue) -> (r: bool)
    ensures
        r == item_views(set@).contains(value@),
{
    let ghost views = item_views(set@);
    let mut j: usize = 0;
    while j < set.len()
        invariant
            j <= set.len(),
            views == item_views(set@),
            forall|k: int| 0 <= k < j ==> (#[trigger] views[k]) != value@,
        decreases set.len() - j,
    {
        if set[j].same(value) {
            assert(views[j as int] == value@);
            return true;
        }
        j += 1;
    }
    false
}

/// Whether some of `values` is one of `set`.
fn any_member(values: &[YamlValue], set: &Vec<YamlValue>) -> (r: bool)
    ensures
        r == rule_passes(
            PredicateRule::AnyOf,
            Some(ValueView::Sequence(item_views(set@))),
            item_views(values@),
        ),
        r == !rule_passes(
            PredicateRule::NoneOf,
            Some(ValueView::Sequence(item_views(set@))),
            item_views(values@),
        ),
{
    let ghost vals = item_views(values@);
    let mut i: usize = 0;
    while i < values.len()
        invariant
            i <= values.len(),
            vals == item_views(values@),
            forall|k: int| 0 <= k < i ==> !item_views(set@).contains(#[trigger] vals[k]),
        decreases values.len() - i,
    {
        if is_member(set, &values[i]) {
            assert(item_views(set@).contains(vals[i as int]));
            return true;
        }
        i += 1;
    }
    false
}

/// Whether some of `values` is a sequence whose length is at least `bound` (`at_least`) or
/// at most `bound`.
fn any_length(values: &[YamlValue], bound: u64, at_least: bool) -> (r: bool)
    ensures
        r == (exists|i: int|
            0 <= i < values@.len() && (#[trigger] item_views(values@)[i]) is Sequence && (
            if at_least {
                item_views(values@)[i]->Sequence_0.len() >= bound
            } else {
                item_views(values@)[i]->Sequence_0.len() <= bound
            })),
{
    let ghost vals = item_views(values@);
    let mut i: usize = 0;
    while i < values.len()
        invariant
            i <= values.len(),
            vals == item_views(values@),
            forall|k: int|
                0 <= k < i ==> !((#[trigger] vals[k]) is Sequence && (if at_least {
                    vals[k]->Sequence_0.len() >= bound
                } else {
                    vals[k]->Sequence_0.len() <= bound
                })),
        decreases values.len() - i,
    {
        match &values[i] {
            YamlValue::Sequence(items) => {
                proof {
                    lemma_view_sequence(*items);
                }
                let n = items.len() as u64;
                let hit = if at_least {
                    n >= bound
                } else {
                    n <= bound
                };
                if hit {
                    assert(vals[i as int] is Sequence);
                    return true;
                }
            },
            _ => {},
        }
        i += 1;
    }
    false
}

/// The first number among `values`.
fn find_number(values: &[YamlValue]) -> (r: Option<&YamlNumber>)
    ensures
        match r {
            Some(n) => first_number(item_views(values@)) == Some(n@),
            None => first_number(item_views(values@)) is None,
        },
{
    let ghost vals = item_views(values@);
    let mut i: usize = 0;
    assert(vals.skip(0) =~= vals);
    while i < values.len()
        invariant
            i <= values.len(),
            vals == item_views(values@),
            first_number(vals) == first_number(vals.skip(i as int)),
        decreases values.len() - i,
    {
        assert(vals.skip(i as int)[0] == vals[i as int]);
        assert(vals.skip(i as int).drop_first() =~= vals.skip(i + 1));
        match &values[i] {
            YamlValue::Number(n) => {
                return Some(n);
            },
            _ => {},
        }
        i += 1;
    }
    None
}

/// Whether the pattern matches some string among `values`.
fn any_match(values: &[YamlValue], pattern: &Pattern) -> (r: bool)
    ensures
        r == (exists|i: int|
            0 <= i < values@.len() && (#[trigger] item_views(values@)[i]) is String
                && regex_accepts(pattern.source(), item_views(values@)[i]->String_0)),
{
    let ghost vals = item_views(values@);
    let mut i: usize = 0;
    while i < values.len()
        invariant
            i <= values.len(),
            vals == item_views(values@),
            forall|k: int|
                0 <= k < i ==> !((#[trigger] vals[k]) is String && regex_accepts(
                    pattern.source(),
                    vals[k]->String_0,
                )),
        decreases values.len() - i,
    {
        match &values[i] {
            YamlValue::String(s) => {
                if is_match(pattern, s.as_str()) {
                    assert(vals[i as int] is String);
                    return true;
                }
            },
            _ => {},
        }
        i += 1;
    }
    false
}

/// The explanation that goes with the verdict of a rule on the selected values: what was
/// found, or what the rule lacks where its operand is missing or of the wrong kind.
pub open spec fn rule_reason(
    rule: PredicateRule,
    operand: Option<ValueView>,
    vals: Seq<ValueView>,
) -> Seq<char> {
    let passes = rule_passes(rule, operand, vals);
    match rule {
        PredicateRule::Exists => if passes {
            "Value exists"@
        } else {
            "Value does not exist"@
        },
        PredicateRule::NotExists => if passes {
            "Value does not exist as expected"@
        } else {
            "Value exists but should not"@
        },
        PredicateRule::Contains => match operand {
            Some(target) => if passes {
                "Value contains "@ + display_text(target)
            } else {
                "Value does not contain "@ + display_text(target)
            },
            None => "No value specified for contains"@,
        },
        PredicateRule::NotContains => match operand {
            Some(target) => if passes {
                "Value does not contain "@ + display_text(target)
            } else {
                "Value contains what it should not: "@ + display_text(target)
            },
            None => "No value specified for not_contains"@,
        },
        PredicateRule::Equals => match operand {
            Some(target) => if vals.len() != 1 {
                "Expected single value for equals, got "@ + decimal(vals.len())
            } else if passes {
                "Values are equal"@
            } else {
                "Values not equal, got "@ + display_text(vals[0])
            },
            None => "No value specified for equals"@,
        },
        PredicateRule::MinLength => match operand {
            Some(ValueView::Number(_)) => if passes {
                "Array has enough elements"@
            } else {
                "No array with enough elements"@
            },
            _ => "min_length requires a numeric value"@,
        },
        PredicateRule::MaxLength => match operand {
            Some(ValueView::Number(_)) => if passes {
                "Array is short enough"@
            } else {
                "No array that is short enough"@
            },
            _ => "max_length requires a numeric value"@,
        },
        PredicateRule::GreaterThan => match operand {
            Some(ValueView::Number(_)) => if first_number(vals) is None {
                "Value is not a number"@
            } else if passes {
                "Value is greater"@
            } else {
                "Value is not greater"@
            },
            _ => "greater_than requires a numeric value"@,
        },
        PredicateRule::LessThan => match operand {
            Some(ValueView::Number(_)) => if first_number(vals) is None {
                "Value is not a number"@
            } else if passes {
                "Value is less"@
            } else {
                "Value is not less"@
            },
            _ => "less_than requires a numeric value"@,
        },
        PredicateRule::Matches => match operand {
            Some(ValueView::String(pattern)) => if !regex_valid(pattern) {
                "Invalid regex: "@ + pattern
            } else if passes {
                "Value matches pattern "@ + pattern
            } else {
                "No value matches pattern "@ + pattern
            },
            _ => "matches requires a string pattern"@,
        },
        PredicateRule::AnyOf => match operand {
            Some(ValueView::Sequence(_)) => if passes {
                "Value is in allowed set"@
            } else {
                "Value is not in allowed set"@
            },
            Some(_) => "any_of requires an array value"@,
            None => "No value specified for any_of"@,
        },
        PredicateRule::NoneOf => match operand {
            Some(ValueView::Sequence(_)) => if passes {
                "Value is not in forbidden set"@
            } else {
                "Value is in forbidden set"@
            },
            Some(_) => "none_of requires an array value"@,
            None => "No value specified for none_of"@,
        },
    }
}

/// A message made of a fixed text and a variable one.
fn message(prefix: &str, detail: &str) -> (s: String)
    ensures
        s@ == prefix@ + detail@,
{
    let mut out: Vec<char> = Vec::new();
    push_str(&mut out, prefix);
    push_str(&mut out, detail);
    string_of(&out)
}

/// Applies `rule` with `operand` to the selected values.
///
/// The outcome passes exactly where [`rule_passes`] holds, and explains itself as
/// [`rule_reason`] says.
pub fn evaluate_rule(rule: PredicateRule, operand: &Option<YamlValue>, values: &[YamlValue]) -> (r:
    PredicateResult)
    ensures
        r.passed == rule_passes(rule, operand_view(*operand), item_views(values@)),
        r.reason@ == rule_reason(rule, operand_view(*operand), item_views(values@)),
{
    let ghost vals = item_views(values@);
    match rule {
        PredicateRule::Exists => {
            if any_non_null(values) {
                PredicateResult::pass("Value exists")
            } else {
                PredicateResult::fail("Value does not exist")
            }
        },
        PredicateRule::NotExists => {
            if any_non_null(values) {
                PredicateResult::fail("Value exists but should not")
            } else {
                PredicateResult::pass("Value does not exist as expected")
            }
        },
        PredicateRule::Contains => match operand {
            Some(target) => {
                let shown = target.display();
                if any_contains(values, target) {
                    PredicateResult { passed: true, reason: message("Value contains ", shown.as_str()) }
                } else {
                    PredicateResult {
                        passed: false,
                        reason: message("Value does not contain ", shown.as_str()),
                    }
                }
            },
            None => PredicateResult::fail("No value specified for contains"),
        },
        PredicateRule::NotContains => match operand {
            Some(target) => {
                let shown = target.display();
                if any_contains(values, target) {
                    PredicateResult {
                        passed: false,
                        reason: message("Value contains what it should not: ", shown.as_str()),
                    }
                } else {
                    PredicateResult {
                        passed: true,
                        reason: message("Value does not contain ", shown.as_str()),
                    }
                }
            },
            None => PredicateResult::fail("No value specified for not_contains"),
        },
        PredicateRule::Equals => match operand {
            Some(target) => {
                if values.len() != 1 {
                    let mut out: Vec<char> = Vec::new();
                    push_str(&mut out, "Expected single value for equals, got ");
                    push_decimal(&mut out, values.len() as u64);
                    assert(out@ =~= "Expected single value for equals, got "@ + decimal(
                        vals.len(),
                    ));
                    return PredicateResult { passed: false, reason: string_of(&out) };
                }
                assert(vals[0] == values@[0]@);
                if values[0].same(target) {
                    PredicateResult::pass("Values are equal")
                } else {
                    let shown = values[0].display();
                    PredicateResult {
                        passed: false,
                        reason: message("Values not equal, got ", shown.as_str()),
                    }
                }
            },
            None => PredicateResult::fail("No value specified for equals"),
        },
        PredicateRule::MinLength => match operand {
            Some(YamlValue::Number(n)) => {
                let min: u64 = match n {
                    YamlNumber::PosInt(u) => *u,
                    _ => 0,
                };
                if any_length(values, min, true) {
                    PredicateResult::pass("Array has enough elements")
                } else {
                    PredicateResult::fail("No array with enough elements")
                }
            },
            _ => PredicateResult::fail("min_length requires a numeric value"),
        },
        PredicateRule::MaxLength => match operand {
            Some(YamlValue::Number(n)) => {
                let max: u64 = match n {
                    YamlNumber::PosInt(u) => *u,
                    _ => 0,
                };
                if any_length(values, max, false) {
                    PredicateResult::pass("Array is short enough")
                } else {
                    PredicateResult::fail("No array that is short enough")
                }
            },
            _ => PredicateResult::fail("max_length requires a numeric value"),
        },
        PredicateRule::GreaterThan => match operand {
            Some(YamlValue::Number(n)) => match find_number(values) {
                Some(v) => {
                    let target = number_decimal(n);
                    let actual = number_decimal(v);
                    if target.lt(&actual) {
                        PredicateResult::pass("Value is greater")
                    } else {
                        PredicateResult::fail("Value is not greater")
                    }
                },
                None => PredicateResult::fail("Value is not a number"),
            },
            _ => PredicateResult::fail("greater_than requires a numeric value"),
        },
        PredicateRule::LessThan => match operand {
            Some(YamlValue::Number(n)) => match find_number(values) {
                Some(v) => {
                    let target = number_decimal(n);
                    let actual = number_decimal(v);
                    if actual.lt(&target) {
                        PredicateResult::pass("Value is less")
                    } else {
                        PredicateResult::fail("Value is not less")
                    }
                },
                None => PredicateResult::fail("Value is not a number"),
            },
            _ => PredicateResult::fail("less_than requires a numeric value"),
        },
        PredicateRule::Matches => match operand {
            Some(YamlValue::String(pattern)) => match compile(pattern.as_str()) {
                Some(compiled) => {
                    if any_match(values, &compiled) {
                        PredicateResult {
                            passed: true,
                            reason: message("Value matches pattern ", pattern.as_str()),
                        }
                    } else {
                        PredicateResult {
                            passed: false,
                            reason: message("No value matches pattern ", pattern.as_str()),
                        }
                    }
                },
                None => PredicateResult {
                    passed: false,
                    reason: message("Invalid regex: ", pattern.as_str()),
                },
            },
            _ => PredicateResult::fail("matches requires a string pattern"),
        },
        PredicateRule::AnyOf => match operand {
            Some(YamlValue::Sequence(set)) => {
                proof {
                    lemma_view_sequence(*set);
                }
                if any_member(values, set) {
                    PredicateResult::pass("Value is in allowed set")
                } else {
                    PredicateResult::fail("Value is not in allowed set")
                }
            },
            Some(_) => PredicateResult::fail("any_of requires an array value"),
            None => PredicateResult::fail("No value specified for any_of"),
        },
        PredicateRule::NoneOf => match operand {
            Some(YamlValue::Sequence(set)) => {
                proof {
                    lemma_view_sequence(*set);
                }
                if any_member(values, set) {
                    PredicateResult::fail("Value is in forbidden set")
                } else {
                    PredicateResult::pass("Value is not in forbidden set")
                }
            },
            Some(_) => PredicateResult::fail("none_of requires an array value"),
            None => PredicateResult::fail("No value specified for none_of"),
        },
    }
}

/// Evaluates a predicate against the values that its claim selects. The guard of the
/// predicate plays no part here.
///
/// The outcome passes exactly where [`rule_passes`] holds of the predicate's rule and
/// operand, and explains itself as [`rule_reason`] says.
pub fn evaluate_predicate(predicate: &Predicate, selected_values: &[YamlValue]) -> (r:
    PredicateResult)
    ensures
        r.passed == rule_passes(predicate@.rule, predicate@.value, item_views(selected_values@)),
        r.reason@ == rule_reason(predicate@.rule, predicate@.value, item_views(selected_values@)),
{
    evaluate_rule(predicate.rule, &predicate.value, selected_values)
}


/// The outcome of one predicate of a rulespec, with what it was evaluated on.
#[derive(Clone, Debug, PartialEq, Eq)]
pub struct PredicateEvaluation {
    /// The predicate.
    pub predicate: Predicate,
    /// The name of its claim.
    pub claim_name: String,
    /// The values that the claim selected; none where the predicate was skipped.
    pub selected_values: Vec<YamlValue>,
    /// The outcome.
    pub result: PredicateResult,
}

/// The outcomes of all predicates of a rulespec.
#[derive(Clone, Debug, PartialEq, Eq)]
pub struct RulespecEvaluation {
    /// One outcome for each predicate, in the order of the rulespec.
    pub predicate_results: Vec<PredicateEvaluation>,
    /// How many predicates passed.
    pub passed_count: usize,
    /// How many predicates failed.
    pub failed_count: usize,
}

impl RulespecEvaluation {
    /// Whether no predicate failed.
    pub fn all_passed(&self) -> (r: bool)
        ensures
            r == (self.failed_count == 0),
    {
        self.failed_count == 0
    }
}

/// Whether the rule holds of what the claim named `name` selects in the document `doc`.
/// It does not where no claim has the name or the claim's selector does not parse.
pub open spec fn claim_passes(
    claims: Seq<ClaimView>,
    doc: ValueView,
    name: Seq<char>,
    rule: PredicateRule,
    operand: Option<ValueView>,
) -> bool {
    match find_claim(claims, name) {
        Some(c) => match parse_selector(c.selector) {
            Ok(segs) => rule_passes(rule, operand, select_values(segs, doc)),
            Err(_) => false,
        },
        None => false,
    }
}

/// Whether the guard `w` holds in the document.
pub open spec fn guard_holds(claims: Seq<ClaimView>, doc: ValueView, w: WhenView) -> bool {
    claim_passes(claims, doc, w.claim, w.rule, w.value)
}

/// Whether a predicate passes: vacuously where it has a guard that does not hold, else
/// where its rule holds of what its claim selects.
pub open spec fn predicate_passes(claims: Seq<ClaimView>, doc: ValueView, p: PredicateView) -> bool {
    match p.when {
        Some(w) => !guard_holds(claims, doc, w) || claim_passes(
            claims,
            doc,
            p.claim,
            p.rule,
            p.value,
        ),
        None => claim_passes(claims, doc, p.claim, p.rule, p.value),
    }
}

/// The values that the claim named `name` selects in the document; none where no claim has
/// the name or the claim's selector does not parse.
pub open spec fn claim_values(claims: Seq<ClaimView>, doc: ValueView, name: Seq<char>) -> Seq<
    ValueView,
> {
    match find_claim(claims, name) {
        Some(c) => match parse_selector(c.selector) {
            Ok(segs) => select_values(segs, doc),
            Err(_) => Seq::empty(),
        },
        None => Seq::empty(),
    }
}

/// The explanation that goes with the verdict of a rule on what the claim named `name`
/// selects: that no claim has the name, that the selector of the claim does not parse, or
/// else that of the rule.
pub open spec fn claim_reason(
    claims: Seq<ClaimView>,
    doc: ValueView,
    name: Seq<char>,
    rule: PredicateRule,
    operand: Option<ValueView>,
) -> Seq<char> {
    match find_claim(claims, name) {
        Some(c) => match parse_selector(c.selector) {
            Ok(segs) => rule_reason(rule, operand, select_values(segs, doc)),
            Err(e) => "Invalid selector: "@ + selector_error_text(e),
        },
        None => "Unknown claim: "@ + name,
    }
}

/// What is said of a predicate that was skipped because its guard does not hold.
pub open spec fn skipped_reason() -> Seq<char> {
    "Skipped (when condition not met)"@
}

/// The explanation that goes with the outcome of a predicate: that it was skipped, where
/// its guard does not hold, and else that of its rule on what its claim selects.
pub open spec fn predicate_reason(claims: Seq<ClaimView>, doc: ValueView, p: PredicateView) -> Seq<
    char,
> {
    if p.when is Some && !guard_holds(claims, doc, p.when->0) {
        skipped_reason()
    } else {
        claim_reason(claims, doc, p.claim, p.rule, p.value)
    }
}

/// Whether `e` is the outcome of the predicate `p` in the document: it passes exactly where
/// the predicate passes, explains itself as [`predicate_reason`] says, carries the
/// predicate and the name of its claim, and holds the values that the claim selected, or
/// none where the predicate was skipped because its guard does not hold.
pub open spec fn is_evaluation_of(
    e: PredicateEvaluation,
    claims: Seq<ClaimView>,
    doc: ValueView,
    p: PredicateView,
) -> bool {
    &&& e.result.passed == predicate_passes(claims, doc, p)
    &&& e.predicate@ == p
    &&& e.claim_name@ == p.claim
    &&& e.result.reason@ == predicate_reason(claims, doc, p)
    &&& if p.when is Some && !guard_holds(claims, doc, p.when->0) {
        e.selected_values@.len() == 0
    } else {
        item_views(e.selected_values@) == claim_values(claims, doc, p.claim)
    }
}

/// How many of the first `n` predicates pass.
pub open spec fn passes_among(
    claims: Seq<ClaimView>,
    doc: ValueView,
    predicates: Seq<PredicateView>,
    n: int,
) -> nat
    decreases n,
{
    if n <= 0 || n > predicates.len() {
        0
    } else {
        passes_among(claims, doc, predicates, n - 1) + if predicate_passes(
            claims,
            doc,
            predicates[n - 1],
        ) {
            1nat
        } else {
            0nat
        }
    }
}

/// The explanation of a rule that was applied is never that of a skipped predicate.
pub proof fn lemma_rule_reason_not_skipped(
    rule: PredicateRule,
    operand: Option<ValueView>,
    vals: Seq<ValueView>,
)
    ensures
        rule_reason(rule, operand, vals) != skipped_reason(),
{
    let reason = rule_reason(rule, operand, vals);
    reveal_strlit("Skipped (when condition not met)");
    assert(skipped_reason()[0] == 'S');
    reveal_strlit("Value exists");
    reveal_strlit("Value does not exist");
    reveal_strlit("Value does not exist as expected");
    reveal_strlit("Value exists but should not");
    reveal_strlit("Value contains ");
    reveal_strlit("Value does not contain ");
    reveal_strlit("Value contains what it should not: ");
    reveal_strlit("No value specified for contains");
    reveal_strlit("No value specified for not_contains");
    reveal_strlit("Expected single value for equals, got ");
    reveal_strlit("Values are equal");
    reveal_strlit("Values not equal, got ");
    reveal_strlit("No value specified for equals");
    reveal_strlit("Array has enough elements");
    reveal_strlit("No array with enough elements");
    reveal_strlit("min_length requires a numeric value");
    reveal_strlit("Array is short enough");
    reveal_strlit("No array that is short enough");
    reveal_strlit("max_length requires a numeric value");
    reveal_strlit("Value is not a number");
    reveal_strlit("Value is greater");
    reveal_strlit("Value is not greater");
    reveal_strlit("greater_than requires a numeric value");
    reveal_strlit("Value is less");
    reveal_strlit("Value is not less");
    reveal_strlit("less_than requires a numeric value");
    reveal_strlit("Invalid regex: ");
    reveal_strlit("Value matches pattern ");
    reveal_strlit("No value matches pattern ");
    reveal_strlit("matches requires a string pattern");
    reveal_strlit("Value is in allowed set");
    reveal_strlit("Value is not in allowed set");
    reveal_strlit("any_of requires an array value");
    reveal_strlit("No value specified for any_of");
    reveal_strlit("Value is not in forbidden set");
    reveal_strlit("Value is in forbidden set");
    reveal_strlit("none_of requires an array value");
    reveal_strlit("No value specified for none_of");
    assert(reason.len() > 0 && reason[0] != 'S');
}

/// The explanation of an outcome is that of a skipped predicate exactly where the predicate
/// has a guard that does not hold.
pub proof fn lemma_skipped_iff_guard_fails(claims: Seq<ClaimView>, doc: ValueView, p: PredicateView)
    ensures
        predicate_reason(claims, doc, p) == skipped_reason() <==> p.when is Some && !guard_holds(
            claims,
            doc,
            p.when->0,
        ),
{
    reveal_strlit("Skipped (when condition not met)");
    reveal_strlit("Invalid selector: ");
    reveal_strlit("Unknown claim: ");
    assert(skipped_reason()[0] == 'S');
    match find_claim(claims, p.claim) {
        Some(c) => match parse_selector(c.selector) {
            Ok(segs) => {
                lemma_rule_reason_not_skipped(p.rule, p.value, select_values(segs, doc));
            },
            Err(e) => {
                assert(("Invalid selector: "@ + selector_error_text(e))[0] == 'I');
            },
        },
        None => {
            assert(("Unknown claim: "@ + p.claim)[0] == 'U');
        },
    }
}

/// A predicate whose guard does not hold passes, whatever its own rule would give.
pub proof fn lemma_vacuous_when(claims: Seq<ClaimView>, doc: ValueView, p: PredicateView)
    requires
        p.when is Some,
        !guard_holds(claims, doc, p.when->0),
    ensures
        predicate_passes(claims, doc, p),
{
}

/// Applies a rule to what the claim named `name` selects in `doc`.
fn evaluate_claim(
    rulespec: &Rulespec,
    doc: &YamlValue,
    name: &str,
    rule: PredicateRule,
    operand: &Option<YamlValue>,
) -> (r: (Vec<YamlValue>, PredicateResult))
    ensures
        r.1.passed == claim_passes(rulespec@.claims, doc@, name@, rule, operand_view(*operand)),
        r.1.reason@ == claim_reason(rulespec@.claims, doc@, name@, rule, operand_view(*operand)),
        item_views(r.0@) == claim_values(rulespec@.claims, doc@, name@),
{
    match rulespec.claim_named(name) {
        Some(claim) => match Selector::parse(claim.selector.as_str()) {
            Ok(selector) => {
                let values = selector.select(doc);
                let result = evaluate_rule(rule, operand, values.as_slice());
                (values, result)
            },
            Err(e) => {
                let detail = e.message();
                (
                    Vec::new(),
                    PredicateResult {
                        passed: false,
                        reason: message("Invalid selector: ", detail.as_str()),
                    },
                )
            },
        },
        None => (
            Vec::new(),
            PredicateResult { passed: false, reason: message("Unknown claim: ", name) },
        ),
    }
}

/// Evaluates every predicate of a rulespec against an envelope.
///
/// The result holds one outcome for each predicate, in order; each passes exactly where
/// [`predicate_passes`] holds in the envelope's facts, and the two counts are the numbers
/// of passing and failing outcomes.
pub fn evaluate_rulespec(rulespec: &Rulespec, envelope: &ActionEnvelope) -> (r:
    RulespecEvaluation)
    ensures
        r.predicate_results@.len() == rulespec@.predicates.len(),
        forall|k: int|
            0 <= k < rulespec@.predicates.len() ==> is_evaluation_of(
                #[trigger] r.predicate_results@[k],
                rulespec@.claims,
                document_of(envelope@.facts),
                rulespec@.predicates[k],
            ),
        r.passed_count == passes_among(
            rulespec@.claims,
            document_of(envelope@.facts),
            rulespec@.predicates,
            rulespec@.predicates.len() as int,
        ),
        r.passed_count + r.failed_count == rulespec@.predicates.len(),
{
    let doc = envelope.to_yaml_value();
    let ghost claims = rulespec@.claims;
    let ghost predicates = rulespec@.predicates;
    let mut results: Vec<PredicateEvaluation> = Vec::new();
    let mut passed_count: usize = 0;
    let mut failed_count: usize = 0;
    let mut k: usize = 0;
    while k < rulespec.predicates.len()
        invariant
            k <= rulespec.predicates.len(),
            claims == rulespec@.claims,
            predicates == rulespec@.predicates,
            predicates.len() == rulespec.predicates.len(),
            doc@ == document_of(envelope@.facts),
            results@.len() == k,
            forall|j: int|
                0 <= j < k ==> is_evaluation_of(#[trigger] results@[j], claims, doc@, predicates[j]),
            passed_count == passes_among(claims, doc@, predicates, k as int),
            passed_count + failed_count == k,
        decreases rulespec.predicates.len() - k,
    {
        let predicate = &rulespec.predicates[k];
        assert(predicates[k as int] == predicate@);
        let skipped = match &predicate.when {
            Some(w) => {
                let guard = evaluate_claim(rulespec, &doc, w.claim.as_str(), w.rule, &w.value);
                !guard.1.passed
            },
            None => false,
        };
        let (selected_values, result) = if skipped {
            (Vec::new(), PredicateResult::pass("Skipped (when condition not met)"))
        } else {
            evaluate_claim(rulespec, &doc, predicate.claim.as_str(), predicate.rule, &predicate.value)
        };
        assert(result.passed == predicate_passes(claims, doc@, predicates[k as int]));
        if result.passed {
            passed_count += 1;
        } else {
            failed_count += 1;
        }
        results.push(
            PredicateEvaluation {
                predicate: predicate.clone_predicate(),
                claim_name: predicate.claim.clone(),
                selected_values,
                result,
            },
        );
        k += 1;
    }
    RulespecEvaluation { predicate_results: results, passed_count, failed_count }
}

} // verus!
