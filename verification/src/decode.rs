//! Reading rulespecs and envelopes from YAML documents.

use vstd::prelude::*;
use crate::assoc::with_entry;
use crate::canonical::entry;
use crate::envelope::{ActionEnvelope, EnvelopeView};
use crate::rulespec::{
    claim_views, predicate_views, rule_name, source_name, when_view, Claim, ClaimView,
    InvariantSource, Predicate, PredicateRule, PredicateView, Rulespec, RulespecView, WhenCondition,
    WhenView,
};
use crate::selector::lookup;
use crate::text::{push_str, str_eq, string_of};
use crate::value::{
    entry_views, item_views, lemma_view_mapping, lemma_view_sequence, ValueView, YamlValue,
};
use crate::yaml::{emit_yaml, parse_yaml, yaml_parse, yaml_text};

verus! {

/// A place in a document of a rulespec or an envelope.
#[derive(Clone, Copy, Debug, PartialEq, Eq, Structural)]
pub enum Field {
    /// The document itself.
    Document,
    /// The list under `claims`.
    Claims,
    /// An item of that list.
    Claim,
    /// The `name` of a claim.
    ClaimName,
    /// The `selector` of a claim.
    ClaimSelector,
    /// The list under `predicates`.
    Predicates,
    /// An item of that list.
    Predicate,
    /// The `claim` of a predicate or of a guard.
    ClaimRef,
    /// The `rule` of a predicate or of a guard.
    Rule,
    /// The `source` of a predicate.
    Source,
    /// The `notes` of a predicate.
    Notes,
    /// The guard under `when`.
    When,
    /// The mapping under `facts`.
    Facts,
    /// A key of that mapping.
    FactKey,
    /// The text under `verified`.
    Verified,
}

/// Why a document is no rulespec, or no envelope.
#[derive(Clone, Debug, PartialEq, Eq)]
pub enum DecodeError {
    /// The text is no YAML document.
    Syntax,
    /// Something that has to be there is missing.
    Missing(Field),
    /// Something is of another kind than it has to be.
    WrongType(Field),
    /// This is the name of no rule.
    UnknownRule(String),
    /// This is the name of no source.
    UnknownSource(String),
}

/// Mathematical form of a [`DecodeError`].
pub enum DecodeErrorView {
    Syntax,
    Missing(Field),
    WrongType(Field),
    UnknownRule(Seq<char>),
    UnknownSource(Seq<char>),
}

impl View for DecodeError {
    type V = DecodeErrorView;

    open spec fn view(&self) -> DecodeErrorView {
        match self {
            DecodeError::Syntax => DecodeErrorView::Syntax,
            DecodeError::Missing(f) => DecodeErrorView::Missing(*f),
            DecodeError::WrongType(f) => DecodeErrorView::WrongType(*f),
            DecodeError::UnknownRule(t) => DecodeErrorView::UnknownRule(t@),
            DecodeError::UnknownSource(t) => DecodeErrorView::UnknownSource(t@),
        }
    }
}

/// How a place in a document is called in a message.
pub open spec fn field_name(f: Field) -> Seq<char> {
    match f {
        Field::Document => "document"@,
        Field::Claims => "claims"@,
        Field::Claim => "claim"@,
        Field::ClaimName => "name"@,
        Field::ClaimSelector => "selector"@,
        Field::Predicates => "predicates"@,
        Field::Predicate => "predicate"@,
        Field::ClaimRef => "claim"@,
        Field::Rule => "rule"@,
        Field::Source => "source"@,
        Field::Notes => "notes"@,
        Field::When => "when"@,
        Field::Facts => "facts"@,
        Field::FactKey => "key of facts"@,
        Field::Verified => "verified"@,
    }
}

/// The text of the message that goes with a decode error.
pub open spec fn decode_error_text(e: DecodeErrorView) -> Seq<char> {
    match e {
        DecodeErrorView::Syntax => "invalid YAML"@,
        DecodeErrorView::Missing(f) => "missing field `"@ + field_name(f) + "`"@,
        DecodeErrorView::WrongType(f) => "invalid type for `"@ + field_name(f) + "`"@,
        DecodeErrorView::UnknownRule(t) => "unknown rule `"@ + t + "`"@,
        DecodeErrorView::UnknownSource(t) => "unknown source `"@ + t + "`"@,
    }
}

impl Field {
    /// How this place is called in a message.
    pub fn name(&self) -> (s: &'static str)
        ensures
            s@ == field_name(*self),
    {
        match self {
            Field::Document => "document",
            Field::Claims => "claims",
            Field::Claim => "claim",
            Field::ClaimName => "name",
            Field::ClaimSelector => "selector",
            Field::Predicates => "predicates",
            Field::Predicate => "predicate",
            Field::ClaimRef => "claim",
            Field::Rule => "rule",
            Field::Source => "source",
            Field::Notes => "notes",
            Field::When => "when",
            Field::Facts => "facts",
            Field::FactKey => "key of facts",
            Field::Verified => "verified",
        }
    }
}

impl DecodeError {
    /// The message that goes with this error.
    pub fn to_string(&self) -> (s: String)
        ensures
            s@ == decode_error_text(self@),
    {
        let mut out: Vec<char> = Vec::new();
        match self {
            DecodeError::Syntax => {
                push_str(&mut out, "invalid YAML");
            },
            DecodeError::Missing(f) => {
                push_str(&mut out, "missing field `");
                push_str(&mut out, f.name());
                push_str(&mut out, "`");
            },
            DecodeError::WrongType(f) => {
                push_str(&mut out, "invalid type for `");
                push_str(&mut out, f.name());
                push_str(&mut out, "`");
            },
            DecodeError::UnknownRule(t) => {
                push_str(&mut out, "unknown rule `");
                push_str(&mut out, t.as_str());
                push_str(&mut out, "`");
            },
            DecodeError::UnknownSource(t) => {
                push_str(&mut out, "unknown source `");
                push_str(&mut out, t.as_str());
                push_str(&mut out, "`");
            },
        }
        assert(out@ =~= decode_error_text(self@));
        string_of(&out)
    }
}

/// The value under the string key `name`, if the mapping has the key.
pub open spec fn field_of(entries: Seq<(ValueView, ValueView)>, name: Seq<char>) -> Option<
    ValueView,
> {
    lookup(entries, ValueView::String(name))
}

/// A text that has to be there.
pub open spec fn required_text(v: Option<ValueView>, place: Field) -> Result<
    Seq<char>,
    DecodeErrorView,
> {
    match v {
        Some(ValueView::String(s)) => Ok(s),
        Some(_) => Err(DecodeErrorView::WrongType(place)),
        None => Err(DecodeErrorView::Missing(place)),
    }
}

/// A text that may be missing; null counts as missing.
pub open spec fn optional_text(v: Option<ValueView>, place: Field) -> Result<
    Option<Seq<char>>,
    DecodeErrorView,
> {
    match v {
        Some(ValueView::String(s)) => Ok(Some(s)),
        Some(ValueView::Null) => Ok(None),
        Some(_) => Err(DecodeErrorView::WrongType(place)),
        None => Ok(None),
    }
}

/// An operand that may be missing; null counts as missing.
pub open spec fn optional_operand(v: Option<ValueView>) -> Option<ValueView> {
    match v {
        Some(ValueView::Null) => None,
        Some(x) => Some(x),
        None => None,
    }
}

/// The rule of the given name.
pub open spec fn rule_named(s: Seq<char>) -> Option<PredicateRule> {
    if s == rule_name(PredicateRule::Contains) {
        Some(PredicateRule::Contains)
    } else if s == rule_name(PredicateRule::Equals) {
        Some(PredicateRule::Equals)
    } else if s == rule_name(PredicateRule::Exists) {
        Some(PredicateRule::Exists)
    } else if s == rule_name(PredicateRule::NotExists) {
        Some(PredicateRule::NotExists)
    } else if s == rule_name(PredicateRule::GreaterThan) {
        Some(PredicateRule::GreaterThan)
    } else if s == rule_name(PredicateRule::LessThan) {
        Some(PredicateRule::LessThan)
    } else if s == rule_name(PredicateRule::MinLength) {
        Some(PredicateRule::MinLength)
    } else if s == rule_name(PredicateRule::MaxLength) {
        Some(PredicateRule::MaxLength)
    } else if s == rule_name(PredicateRule::Matches) {
        Some(PredicateRule::Matches)
    } else if s == rule_name(PredicateRule::NotContains) {
        Some(PredicateRule::NotContains)
    } else if s == rule_name(PredicateRule::AnyOf) {
        Some(PredicateRule::AnyOf)
    } else if s == rule_name(PredicateRule::NoneOf) {
        Some(PredicateRule::NoneOf)
    } else {
        None
    }
}

/// The source of the given name.
pub open spec fn source_named(s: Seq<char>) -> Option<InvariantSource> {
    if s == source_name(InvariantSource::TaskPrompt) {
        Some(InvariantSource::TaskPrompt)
    } else if s == source_name(InvariantSource::Memory) {
        Some(InvariantSource::Memory)
    } else {
        None
    }
}

/// The rule under the key `rule`.
pub open spec fn decoded_rule(entries: Seq<(ValueView, ValueView)>) -> Result<
    PredicateRule,
    DecodeErrorView,
> {
    match required_text(field_of(entries, "rule"@), Field::Rule) {
        Ok(s) => match rule_named(s) {
            Some(r) => Ok(r),
            None => Err(DecodeErrorView::UnknownRule(s)),
        },
        Err(e) => Err(e),
    }
}

/// The source under the key `source`.
pub open spec fn decoded_source(entries: Seq<(ValueView, ValueView)>) -> Result<
    InvariantSource,
    DecodeErrorView,
> {
    match required_text(field_of(entries, "source"@), Field::Source) {
        Ok(s) => match source_named(s) {
            Some(r) => Ok(r),
            None => Err(DecodeErrorView::UnknownSource(s)),
        },
        Err(e) => Err(e),
    }
}

/// The claim that a document states: a mapping with a `name` and a `selector`, both texts.
pub open spec fn decoded_claim(v: ValueView) -> Result<ClaimView, DecodeErrorView> {
    match v {
        ValueView::Mapping(entries) => match required_text(
            field_of(entries, "name"@),
            Field::ClaimName,
        ) {
            Ok(name) => match required_text(field_of(entries, "selector"@), Field::ClaimSelector) {
                Ok(selector) => Ok(ClaimView { name, selector }),
                Err(e) => Err(e),
            },
            Err(e) => Err(e),
        },
        _ => Err(DecodeErrorView::WrongType(Field::Claim)),
    }
}

/// The guard that a document states: a mapping with a `claim`, a `rule` and, where the rule
/// takes one, a `value`.
pub open spec fn decoded_when(v: ValueView) -> Result<WhenView, DecodeErrorView> {
    match v {
        ValueView::Mapping(entries) => match required_text(
            field_of(entries, "claim"@),
            Field::ClaimRef,
        ) {
            Ok(claim) => match decoded_rule(entries) {
                Ok(rule) => Ok(
                    WhenView { claim, rule, value: optional_operand(field_of(entries, "value"@)) },
                ),
                Err(e) => Err(e),
            },
            Err(e) => Err(e),
        },
        _ => Err(DecodeErrorView::WrongType(Field::When)),
    }
}

/// The guard under the key `when`, where there is one; null counts as none.
pub open spec fn decoded_guard(entries: Seq<(ValueView, ValueView)>) -> Result<
    Option<WhenView>,
    DecodeErrorView,
> {
    match field_of(entries, "when"@) {
        None => Ok(None),
        Some(ValueView::Null) => Ok(None),
        Some(w) => match decoded_when(w) {
            Ok(x) => Ok(Some(x)),
            Err(e) => Err(e),
        },
    }
}

/// The predicate that a document states: a mapping with a `claim`, a `rule`, a `source`
/// and, where they are there, a `value`, `notes` and a guard under `when`. Other keys do
/// not count. The fields are read in this order, and the first fault is the fault.
pub open spec fn decoded_predicate(v: ValueView) -> Result<PredicateView, DecodeErrorView> {
    match v {
        ValueView::Mapping(entries) => match required_text(
            field_of(entries, "claim"@),
            Field::ClaimRef,
        ) {
            Err(e) => Err(e),
            Ok(claim) => match decoded_rule(entries) {
                Err(e) => Err(e),
                Ok(rule) => match decoded_source(entries) {
                    Err(e) => Err(e),
                    Ok(source) => match optional_text(field_of(entries, "notes"@), Field::Notes) {
                        Err(e) => Err(e),
                        Ok(notes) => match decoded_guard(entries) {
                            Err(e) => Err(e),
                            Ok(when) => Ok(
                                PredicateView {
                                    claim,
                                    rule,
                                    value: optional_operand(field_of(entries, "value"@)),
                                    source,
                                    notes,
                                    when,
                                },
                            ),
                        },
                    },
                },
            },
        },
        _ => Err(DecodeErrorView::WrongType(Field::Predicate)),
    }
}

/// The claims that the first `n` items state, or the fault of the first item that states
/// none.
pub open spec fn decoded_claims(items: Seq<ValueView>, n: int) -> Result<
    Seq<ClaimView>,
    DecodeErrorView,
>
    decreases n,
{
    if n <= 0 || n > items.len() {
        Ok(Seq::empty())
    } else {
        match decoded_claims(items, n - 1) {
            Err(e) => Err(e),
            Ok(before) => match decoded_claim(items[n - 1]) {
                Err(e) => Err(e),
                Ok(c) => Ok(before.push(c)),
            },
        }
    }
}

/// The predicates that the first `n` items state, or the fault of the first item that
/// states none.
pub open spec fn decoded_predicates(items: Seq<ValueView>, n: int) -> Result<
    Seq<PredicateView>,
    DecodeErrorView,
>
    decreases n,
{
    if n <= 0 || n > items.len() {
        Ok(Seq::empty())
    } else {
        match decoded_predicates(items, n - 1) {
            Err(e) => Err(e),
            Ok(before) => match decoded_predicate(items[n - 1]) {
                Err(e) => Err(e),
                Ok(p) => Ok(before.push(p)),
            },
        }
    }
}

/// The claims under the key `claims`: none where the key is missing, else those of the
/// list that stands there.
pub open spec fn claims_field(entries: Seq<(ValueView, ValueView)>) -> Result<
    Seq<ClaimView>,
    DecodeErrorView,
> {
    match field_of(entries, "claims"@) {
        None => Ok(Seq::empty()),
        Some(ValueView::Sequence(items)) => decoded_claims(items, items.len() as int),
        Some(_) => Err(DecodeErrorView::WrongType(Field::Claims)),
    }
}

/// The predicates under the key `predicates`: none where the key is missing, else those of
/// the list that stands there.
pub open spec fn predicates_field(entries: Seq<(ValueView, ValueView)>) -> Result<
    Seq<PredicateView>,
    DecodeErrorView,
> {
    match field_of(entries, "predicates"@) {
        None => Ok(Seq::empty()),
        Some(ValueView::Sequence(items)) => decoded_predicates(items, items.len() as int),
        Some(_) => Err(DecodeErrorView::WrongType(Field::Predicates)),
    }
}

/// The rulespec that a document states: a mapping with, where they are there, a list of
/// claims under `claims` and a list of predicates under `predicates`.
pub open spec fn decoded_rulespec(v: ValueView) -> Result<RulespecView, DecodeErrorView> {
    match v {
        ValueView::Mapping(entries) => match claims_field(entries) {
            Err(e) => Err(e),
            Ok(claims) => match predicates_field(entries) {
                Err(e) => Err(e),
                Ok(predicates) => Ok(RulespecView { claims, predicates }),
            },
        },
        _ => Err(DecodeErrorView::WrongType(Field::Document)),
    }
}

/// The facts that the first `n` entries of a mapping state, or a fault where a key is no
/// text. A key that comes again takes the place of the one before.
pub open spec fn decoded_facts(entries: Seq<(ValueView, ValueView)>, n: int) -> Result<
    Seq<(Seq<char>, ValueView)>,
    DecodeErrorView,
>
    decreases n,
{
    if n <= 0 || n > entries.len() {
        Ok(Seq::empty())
    } else {
        match decoded_facts(entries, n - 1) {
            Err(e) => Err(e),
            Ok(before) => match entries[n - 1].0 {
                ValueView::String(k) => Ok(with_entry(before, k, entries[n - 1].1)),
                _ => Err(DecodeErrorView::WrongType(Field::FactKey)),
            },
        }
    }
}

/// The facts under the key `facts`: none where the key is missing, else those of the
/// mapping that stands there.
pub open spec fn facts_field(entries: Seq<(ValueView, ValueView)>) -> Result<
    Seq<(Seq<char>, ValueView)>,
    DecodeErrorView,
> {
    match field_of(entries, "facts"@) {
        None => Ok(Seq::empty()),
        Some(ValueView::Mapping(facts)) => decoded_facts(facts, facts.len() as int),
        Some(_) => Err(DecodeErrorView::WrongType(Field::Facts)),
    }
}

/// The envelope that a document states: a mapping with, where they are there, the facts
/// under `facts` and the stamp under `verified`. Every other key is passed over, so a
/// document that states its facts at the top, without the key `facts`, gives an envelope
/// without facts.
pub open spec fn decoded_envelope(v: ValueView) -> Result<EnvelopeView, DecodeErrorView> {
    match v {
        ValueView::Mapping(entries) => match facts_field(entries) {
            Err(e) => Err(e),
            Ok(facts) => match optional_text(field_of(entries, "verified"@), Field::Verified) {
                Err(e) => Err(e),
                Ok(verified) => Ok(EnvelopeView { facts, verified }),
            },
        },
        _ => Err(DecodeErrorView::WrongType(Field::Document)),
    }
}

/// What reading a text as an envelope gives.
pub open spec fn envelope_of_text(text: Seq<char>) -> Result<EnvelopeView, DecodeErrorView> {
    match yaml_parse(text) {
        Some(doc) => decoded_envelope(doc),
        None => Err(DecodeErrorView::Syntax),
    }
}

/// What reading a text as a rulespec gives.
pub open spec fn rulespec_of_text(text: Seq<char>) -> Result<RulespecView, DecodeErrorView> {
    match yaml_parse(text) {
        Some(doc) => decoded_rulespec(doc),
        None => Err(DecodeErrorView::Syntax),
    }
}

/// The value under the string key `name`.
fn get_field<'a>(entries: &'a Vec<(YamlValue, YamlValue)>, name: &str) -> (r: Option<&'a YamlValue>)
    ensures
        match r {
            Some(v) => field_of(entry_views(entries@), name@) == Some(v@),
            None => field_of(entry_views(entries@), name@) is None,
        },
{
    let ghost all = entry_views(entries@);
    let ghost key = ValueView::String(name@);
    let mut i: usize = 0;
    assert(all.skip(0) =~= all);
    while i < entries.len()
        invariant
            i <= entries.len(),
            all == entry_views(entries@),
            key == ValueView::String(name@),
            lookup(all, key) == lookup(all.skip(i as int), key),
        decreases entries.len() - i,
    {
        let hit = match &entries[i].0 {
            YamlValue::String(k) => str_eq(k.as_str(), name),
            _ => false,
        };
        assert(all.skip(i as int)[0] == all[i as int]);
        assert(all.skip(i as int).drop_first() =~= all.skip(i + 1));
        if hit {
            return Some(&entries[i].1);
        }
        i += 1;
    }
    None
}

/// The view of the outcome of reading a text.
pub open spec fn text_result(r: Result<String, DecodeError>) -> Result<Seq<char>, DecodeErrorView> {
    match r {
        Ok(s) => Ok(s@),
        Err(e) => Err(e@),
    }
}

/// Reads a text that has to be there.
fn read_text(v: Option<&YamlValue>, place: Field) -> (r: Result<String, DecodeError>)
    ensures
        text_result(r) == required_text(
            match v {
                Some(x) => Some(x@),
                None => None,
            },
            place,
        ),
{
    match v {
        Some(YamlValue::String(s)) => Ok(s.clone()),
        Some(YamlValue::Sequence(x)) => {
            proof {
                lemma_view_sequence(*x);
            }
            Err(DecodeError::WrongType(place))
        },
        Some(YamlValue::Mapping(x)) => {
            proof {
                lemma_view_mapping(*x);
            }
            Err(DecodeError::WrongType(place))
        },
        Some(_) => Err(DecodeError::WrongType(place)),
        None => Err(DecodeError::Missing(place)),
    }
}

/// Reads a text that may be missing.
fn read_optional_text(v: Option<&YamlValue>, place: Field) -> (r: Result<
    Option<String>,
    DecodeError,
>)
    ensures
        match r {
            Ok(t) => optional_text(
                match v {
                    Some(x) => Some(x@),
                    None => None,
                },
                place,
            ) == Ok::<_, DecodeErrorView>(crate::rulespec::text_view(t)),
            Err(e) => optional_text(
                match v {
                    Some(x) => Some(x@),
                    None => None,
                },
                place,
            ) == Err::<Option<Seq<char>>, _>(e@),
        },
{
    match v {
        Some(YamlValue::String(s)) => Ok(Some(s.clone())),
        Some(YamlValue::Null) => Ok(None),
        Some(YamlValue::Sequence(x)) => {
            proof {
                lemma_view_sequence(*x);
            }
            Err(DecodeError::WrongType(place))
        },
        Some(YamlValue::Mapping(x)) => {
            proof {
                lemma_view_mapping(*x);
            }
            Err(DecodeError::WrongType(place))
        },
        Some(_) => Err(DecodeError::WrongType(place)),
        None => Ok(None),
    }
}

/// Reads an operand that may be missing.
fn read_operand(v: Option<&YamlValue>) -> (r: Option<YamlValue>)
    ensures
        crate::rulespec::operand_view(r) == optional_operand(
            match v {
                Some(x) => Some(x@),
                None => None,
            },
        ),
{
    match v {
        Some(YamlValue::Null) => None,
        Some(x) => {
            proof {
                match x {
                    YamlValue::Sequence(y) => {
                        lemma_view_sequence(*y);
                    },
                    YamlValue::Mapping(y) => {
                        lemma_view_mapping(*y);
                    },
                    _ => {},
                }
            }
            Some(x.clone_value())
        },
        None => None,
    }
}

/// The rule of the given name.
pub fn rule_from_name(name: &str) -> (r: Option<PredicateRule>)
    ensures
        r == rule_named(name@),
{
    if str_eq(name, "contains") {
        Some(PredicateRule::Contains)
    } else if str_eq(name, "equals") {
        Some(PredicateRule::Equals)
    } else if str_eq(name, "exists") {
        Some(PredicateRule::Exists)
    } else if str_eq(name, "not_exists") {
        Some(PredicateRule::NotExists)
    } else if str_eq(name, "greater_than") {
        Some(PredicateRule::GreaterThan)
    } else if str_eq(name, "less_than") {
        Some(PredicateRule::LessThan)
    } else if str_eq(name, "min_length") {
        Some(PredicateRule::MinLength)
    } else if str_eq(name, "max_length") {
        Some(PredicateRule::MaxLength)
    } else if str_eq(name, "matches") {
        Some(PredicateRule::Matches)
    } else if str_eq(name, "not_contains") {
        Some(PredicateRule::NotContains)
    } else if str_eq(name, "any_of") {
        Some(PredicateRule::AnyOf)
    } else if str_eq(name, "none_of") {
        Some(PredicateRule::NoneOf)
    } else {
        None
    }
}

/// The source of the given name.
pub fn source_from_name(name: &str) -> (r: Option<InvariantSource>)
    ensures
        r == source_named(name@),
{
    if str_eq(name, "task_prompt") {
        Some(InvariantSource::TaskPrompt)
    } else if str_eq(name, "memory") {
        Some(InvariantSource::Memory)
    } else {
        None
    }
}

/// Reads the rule under the key `rule`.
fn read_rule(entries: &Vec<(YamlValue, YamlValue)>) -> (r: Result<PredicateRule, DecodeError>)
    ensures
        match r {
            Ok(x) => decoded_rule(entry_views(entries@)) == Ok::<_, DecodeErrorView>(x),
            Err(e) => decoded_rule(entry_views(entries@)) == Err::<PredicateRule, _>(e@),
        },
{
    match read_text(get_field(entries, "rule"), Field::Rule) {
        Ok(s) => match rule_from_name(s.as_str()) {
            Some(r) => Ok(r),
            None => Err(DecodeError::UnknownRule(s)),
        },
        Err(e) => Err(e),
    }
}

/// Reads the source under the key `source`.
fn read_source(entries: &Vec<(YamlValue, YamlValue)>) -> (r: Result<InvariantSource, DecodeError>)
    ensures
        match r {
            Ok(x) => decoded_source(entry_views(entries@)) == Ok::<_, DecodeErrorView>(x),
            Err(e) => decoded_source(entry_views(entries@)) == Err::<InvariantSource, _>(e@),
        },
{
    match read_text(get_field(entries, "source"), Field::Source) {
        Ok(s) => match source_from_name(s.as_str()) {
            Some(r) => Ok(r),
            None => Err(DecodeError::UnknownSource(s)),
        },
        Err(e) => Err(e),
    }
}

/// Reads a claim from a document.
pub fn decode_claim(v: &YamlValue) -> (r: Result<Claim, DecodeError>)
    ensures
        match r {
            Ok(c) => decoded_claim(v@) == Ok::<_, DecodeErrorView>(c@),
            Err(e) => decoded_claim(v@) == Err::<ClaimView, _>(e@),
        },
{
    match v {
        YamlValue::Mapping(entries) => {
            proof {
                lemma_view_mapping(*entries);
            }
            let name = match read_text(get_field(entries, "name"), Field::ClaimName) {
                Ok(s) => s,
                Err(e) => {
                    return Err(e);
                },
            };
            let selector = match read_text(get_field(entries, "selector"), Field::ClaimSelector) {
                Ok(s) => s,
                Err(e) => {
                    return Err(e);
                },
            };
            Ok(Claim { name, selector })
        },
        YamlValue::Sequence(x) => {
            proof {
                lemma_view_sequence(*x);
            }
            Err(DecodeError::WrongType(Field::Claim))
        },
        _ => Err(DecodeError::WrongType(Field::Claim)),
    }
}

/// Reads a guard from a document.
pub fn decode_when(v: &YamlValue) -> (r: Result<WhenCondition, DecodeError>)
    ensures
        match r {
            Ok(w) => decoded_when(v@) == Ok::<_, DecodeErrorView>(w@),
            Err(e) => decoded_when(v@) == Err::<WhenView, _>(e@),
        },
{
    match v {
        YamlValue::Mapping(entries) => {
            proof {
                lemma_view_mapping(*entries);
            }
            let claim = match read_text(get_field(entries, "claim"), Field::ClaimRef) {
                Ok(s) => s,
                Err(e) => {
                    return Err(e);
                },
            };
            let rule = match read_rule(entries) {
                Ok(r) => r,
                Err(e) => {
                    return Err(e);
                },
            };
            let value = read_operand(get_field(entries, "value"));
            Ok(WhenCondition { claim, rule, value })
        },
        YamlValue::Sequence(x) => {
            proof {
                lemma_view_sequence(*x);
            }
            Err(DecodeError::WrongType(Field::When))
        },
        _ => Err(DecodeError::WrongType(Field::When)),
    }
}

/// Reads the guard under the key `when`.
fn read_guard(entries: &Vec<(YamlValue, YamlValue)>) -> (r: Result<
    Option<WhenCondition>,
    DecodeError,
>)
    ensures
        match r {
            Ok(w) => decoded_guard(entry_views(entries@)) == Ok::<_, DecodeErrorView>(when_view(w)),
            Err(e) => decoded_guard(entry_views(entries@)) == Err::<Option<WhenView>, _>(e@),
        },
{
    match get_field(entries, "when") {
        None => Ok(None),
        Some(YamlValue::Null) => Ok(None),
        Some(w) => {
            proof {
                match w {
                    YamlValue::Sequence(y) => {
                        lemma_view_sequence(*y);
                    },
                    YamlValue::Mapping(y) => {
                        lemma_view_mapping(*y);
                    },
                    _ => {},
                }
            }
            match decode_when(w) {
                Ok(x) => Ok(Some(x)),
                Err(e) => Err(e),
            }
        },
    }
}

/// Reads a predicate from a document.
pub fn decode_predicate(v: &YamlValue) -> (r: Result<Predicate, DecodeError>)
    ensures
        match r {
            Ok(p) => decoded_predicate(v@) == Ok::<_, DecodeErrorView>(p@),
            Err(e) => decoded_predicate(v@) == Err::<PredicateView, _>(e@),
        },
{
    match v {
        YamlValue::Mapping(entries) => {
            proof {
                lemma_view_mapping(*entries);
            }
            let claim = match read_text(get_field(entries, "claim"), Field::ClaimRef) {
                Ok(s) => s,
                Err(e) => {
                    return Err(e);
                },
            };
            let rule = match read_rule(entries) {
                Ok(r) => r,
                Err(e) => {
                    return Err(e);
                },
            };
            let source = match read_source(entries) {
                Ok(r) => r,
                Err(e) => {
                    return Err(e);
                },
            };
            let notes = match read_optional_text(get_field(entries, "notes"), Field::Notes) {
                Ok(r) => r,
                Err(e) => {
                    return Err(e);
                },
            };
            let when = match read_guard(entries) {
                Ok(r) => r,
                Err(e) => {
                    return Err(e);
                },
            };
            let value = read_operand(get_field(entries, "value"));
            Ok(Predicate { claim, rule, value, source, notes, when })
        },
        YamlValue::Sequence(x) => {
            proof {
                lemma_view_sequence(*x);
            }
            Err(DecodeError::WrongType(Field::Predicate))
        },
        _ => Err(DecodeError::WrongType(Field::Predicate)),
    }
}

/// Reads a rulespec from a document.
///
/// Returns exactly what [`decoded_rulespec`] gives: the rulespec that the document states,
/// or the first fault of the document.
#[verifier::loop_isolation(false)]
pub fn decode_rulespec(v: &YamlValue) -> (r: Result<Rulespec, DecodeError>)
    ensures
        match r {
            Ok(x) => decoded_rulespec(v@) == Ok::<_, DecodeErrorView>(x@),
            Err(e) => decoded_rulespec(v@) == Err::<RulespecView, _>(e@),
        },
{
    let entries = match v {
        YamlValue::Mapping(entries) => {
            proof {
                lemma_view_mapping(*entries);
            }
            entries
        },
        YamlValue::Sequence(x) => {
            proof {
                lemma_view_sequence(*x);
            }
            return Err(DecodeError::WrongType(Field::Document));
        },
        _ => {
            return Err(DecodeError::WrongType(Field::Document));
        },
    };
    let mut claims: Vec<Claim> = Vec::new();
    match get_field(entries, "claims") {
        None => {
            assert(claim_views(claims@) =~= Seq::<ClaimView>::empty());
        },
        Some(YamlValue::Sequence(items)) => {
            proof {
                lemma_view_sequence(*items);
            }
            let ghost views = item_views(items@);
            let mut i: usize = 0;
            assert(claim_views(claims@) =~= Seq::<ClaimView>::empty());
            while i < items.len()
                invariant
                    i <= items.len(),
                    views == item_views(items@),
                    decoded_claims(views, i as int) == Ok::<_, DecodeErrorView>(claim_views(claims@)),
                decreases items.len() - i,
            {
                match decode_claim(&items[i]) {
                    Ok(c) => {
                        let ghost before = claim_views(claims@);
                        claims.push(c);
                        assert(claim_views(claims@) =~= before.push(c@));
                    },
                    Err(e) => {
                        proof {
                            lemma_claims_fault(views, i + 1, views.len() as int);
                        }
                        return Err(e);
                    },
                }
                i += 1;
            }
        },
        Some(other) => {
            proof {
                match other {
                    YamlValue::Mapping(y) => {
                        lemma_view_mapping(*y);
                    },
                    _ => {},
                }
            }
            return Err(DecodeError::WrongType(Field::Claims));
        },
    }
    let mut predicates: Vec<Predicate> = Vec::new();
    match get_field(entries, "predicates") {
        None => {
            assert(predicate_views(predicates@) =~= Seq::<PredicateView>::empty());
        },
        Some(YamlValue::Sequence(items)) => {
            proof {
                lemma_view_sequence(*items);
            }
            let ghost views = item_views(items@);
            let mut i: usize = 0;
            assert(predicate_views(predicates@) =~= Seq::<PredicateView>::empty());
            while i < items.len()
                invariant
                    i <= items.len(),
                    views == item_views(items@),
                    decoded_predicates(views, i as int) == Ok::<_, DecodeErrorView>(
                        predicate_views(predicates@),
                    ),
                decreases items.len() - i,
            {
                match decode_predicate(&items[i]) {
                    Ok(p) => {
                        let ghost before = predicate_views(predicates@);
                        predicates.push(p);
                        assert(predicate_views(predicates@) =~= before.push(p@));
                    },
                    Err(e) => {
                        proof {
                            lemma_predicates_fault(views, i + 1, views.len() as int);
                        }
                        return Err(e);
                    },
                }
                i += 1;
            }
        },
        Some(other) => {
            proof {
                match other {
                    YamlValue::Mapping(y) => {
                        lemma_view_mapping(*y);
                    },
                    _ => {},
                }
            }
            return Err(DecodeError::WrongType(Field::Predicates));
        },
    }
    Ok(Rulespec { claims, predicates })
}

/// A fault among the first items is the fault of the whole list.
proof fn lemma_claims_fault(items: Seq<ValueView>, n: int, m: int)
    requires
        0 <= n <= m <= items.len(),
        decoded_claims(items, n) is Err,
    ensures
        decoded_claims(items, m) == decoded_claims(items, n),
    decreases m - n,
{
    if n < m {
        lemma_claims_fault(items, n, m - 1);
    }
}

/// A fault among the first items is the fault of the whole list.
proof fn lemma_predicates_fault(items: Seq<ValueView>, n: int, m: int)
    requires
        0 <= n <= m <= items.len(),
        decoded_predicates(items, n) is Err,
    ensures
        decoded_predicates(items, m) == decoded_predicates(items, n),
    decreases m - n,
{
    if n < m {
        lemma_predicates_fault(items, n, m - 1);
    }
}

/// A fault among the first entries is the fault of the whole mapping.
proof fn lemma_facts_fault(entries: Seq<(ValueView, ValueView)>, n: int, m: int)
    requires
        0 <= n <= m <= entries.len(),
        decoded_facts(entries, n) is Err,
    ensures
        decoded_facts(entries, m) == decoded_facts(entries, n),
    decreases m - n,
{
    if n < m {
        lemma_facts_fault(entries, n, m - 1);
    }
}

/// Reads an envelope from a document.
///
/// Returns exactly what [`decoded_envelope`] gives. Keys other than `facts` and `verified`
/// are passed over.
#[verifier::loop_isolation(false)]
pub fn decode_envelope(v: &YamlValue) -> (r: Result<ActionEnvelope, DecodeError>)
    ensures
        match r {
            Ok(x) => decoded_envelope(v@) == Ok::<_, DecodeErrorView>(x@),
            Err(e) => decoded_envelope(v@) == Err::<EnvelopeView, _>(e@),
        },
{
    let entries = match v {
        YamlValue::Mapping(entries) => {
            proof {
                lemma_view_mapping(*entries);
            }
            entries
        },
        YamlValue::Sequence(x) => {
            proof {
                lemma_view_sequence(*x);
            }
            return Err(DecodeError::WrongType(Field::Document));
        },
        _ => {
            return Err(DecodeError::WrongType(Field::Document));
        },
    };
    let mut envelope = ActionEnvelope::new();
    match get_field(entries, "facts") {
        None => {
            assert(envelope@.facts =~= Seq::<(Seq<char>, ValueView)>::empty());
        },
        Some(YamlValue::Mapping(facts)) => {
            proof {
                lemma_view_mapping(*facts);
            }
            let ghost views = entry_views(facts@);
            let mut i: usize = 0;
            assert(envelope@.facts =~= Seq::<(Seq<char>, ValueView)>::empty());
            while i < facts.len()
                invariant
                    i <= facts.len(),
                    views == entry_views(facts@),
                    envelope@.verified is None,
                    decoded_facts(views, i as int) == Ok::<_, DecodeErrorView>(envelope@.facts),
                decreases facts.len() - i,
            {
                match &facts[i].0 {
                    YamlValue::String(k) => {
                        envelope.add_fact(k.as_str(), facts[i].1.clone_value());
                    },
                    other => {
                        proof {
                            match other {
                                YamlValue::Sequence(y) => {
                                    lemma_view_sequence(*y);
                                },
                                YamlValue::Mapping(y) => {
                                    lemma_view_mapping(*y);
                                },
                                _ => {},
                            }
                            lemma_facts_fault(views, i + 1, views.len() as int);
                        }
                        return Err(DecodeError::WrongType(Field::FactKey));
                    },
                }
                i += 1;
            }
        },
        Some(other) => {
            proof {
                match other {
                    YamlValue::Sequence(y) => {
                        lemma_view_sequence(*y);
                    },
                    _ => {},
                }
            }
            return Err(DecodeError::WrongType(Field::Facts));
        },
    }
    match read_optional_text(get_field(entries, "verified"), Field::Verified) {
        Ok(t) => {
            envelope.verified = t;
        },
        Err(e) => {
            return Err(e);
        },
    }
    Ok(envelope)
}

impl Rulespec {
    /// Reads a rulespec from YAML text.
    ///
    /// Fails with [`DecodeError::Syntax`] where the text is no YAML document, and else
    /// returns what [`decode_rulespec`] gives for the document.
    pub fn from_yaml(text: &str) -> (r: Result<Rulespec, DecodeError>)
        ensures
            match r {
                Ok(x) => rulespec_of_text(text@) == Ok::<_, DecodeErrorView>(x@),
                Err(e) => rulespec_of_text(text@) == Err::<RulespecView, _>(e@),
            },
    {
        match parse_yaml(text) {
            Some(doc) => decode_rulespec(&doc),
            None => Err(DecodeError::Syntax),
        }
    }
}

/// The document that an envelope is stored as: its facts under `facts` and, where it has
/// one, its stamp under `verified`.
pub open spec fn envelope_document(e: EnvelopeView) -> ValueView {
    ValueView::Mapping(
        seq![entry("facts"@, crate::envelope::document_of(e.facts))] + (match e.verified {
            Some(t) => seq![entry("verified"@, ValueView::String(t))],
            None => Seq::empty(),
        }),
    )
}

/// The text of the file that an envelope is stored in: two lines of comment, an empty
/// line, and the YAML text of its document.
pub open spec fn envelope_file_text(e: EnvelopeView) -> Seq<char> {
    "# Action Envelope - Evidence of work done\n# Generated by g3 Plan Mode\n\n"@ + yaml_text(
        envelope_document(e),
    )
}

impl ActionEnvelope {
    /// Reads an envelope from YAML text.
    ///
    /// Fails with [`DecodeError::Syntax`] where the text is no YAML document, and else
    /// returns what [`decode_envelope`] gives for the document.
    pub fn from_yaml(text: &str) -> (r: Result<ActionEnvelope, DecodeError>)
        ensures
            match r {
                Ok(x) => envelope_of_text(text@) == Ok::<_, DecodeErrorView>(x@),
                Err(e) => envelope_of_text(text@) == Err::<EnvelopeView, _>(e@),
            },
    {
        match parse_yaml(text) {
            Some(doc) => decode_envelope(&doc),
            None => Err(DecodeError::Syntax),
        }
    }

    /// The YAML text of the document that this envelope is stored as.
    pub fn to_yaml(&self) -> (r: String)
        ensures
            r@ == yaml_text(envelope_document(self@)),
    {
        emit_yaml(&self.to_document())
    }

    /// The document that this envelope is stored as.
    pub fn to_document(&self) -> (r: YamlValue)
        ensures
            r@ == envelope_document(self@),
    {
        let mut entries: Vec<(YamlValue, YamlValue)> = Vec::new();
        entries.push((YamlValue::String("facts".to_string()), self.to_yaml_value()));
        match &self.verified {
            Some(t) => {
                entries.push(
                    (YamlValue::String("verified".to_string()), YamlValue::String(t.clone())),
                );
            },
            None => {},
        }
        proof {
            lemma_view_mapping(entries);
            assert(entry_views(entries@) =~= envelope_document(self@)->Mapping_0);
        }
        YamlValue::Mapping(entries)
    }
}

/// The text of the file that an envelope is stored in.
pub fn format_envelope_yaml(envelope: &ActionEnvelope) -> (r: String)
    ensures
        r@ == envelope_file_text(envelope@),
{
    let mut out: Vec<char> = Vec::new();
    push_str(&mut out, "# Action Envelope - Evidence of work done\n# Generated by g3 Plan Mode\n\n");
    let yaml = envelope.to_yaml();
    push_str(&mut out, yaml.as_str());
    string_of(&out)
}

} // verus!
