//! Rulespecs: named claims over a fact document and the predicates that must hold of them.

use vstd::prelude::*;
use crate::selector::{
    parse_selector, selector_error_text, Selector, SelectorError, SelectorErrorView,
};
use crate::text::{chars_blank, chars_of, is_blank, push_str, str_eq, string_of};
use crate::value::{YamlValue, ValueView};

verus! {

/// Where an invariant was taken from.
#[derive(Clone, Copy, Debug, PartialEq, Eq, Structural)]
pub enum InvariantSource {
    /// The user's task prompt.
    TaskPrompt,
    /// Persistent workspace memory.
    Memory,
}

/// The name of a source as it is written in a rulespec.
pub open spec fn source_name(s: InvariantSource) -> Seq<char> {
    match s {
        InvariantSource::TaskPrompt => "task_prompt"@,
        InvariantSource::Memory => "memory"@,
    }
}

impl InvariantSource {
    /// The name of this source as it is written in a rulespec.
    pub fn to_string(&self) -> (s: String)
        ensures
            s@ == source_name(*self),
    {
        match self {
            InvariantSource::TaskPrompt => "task_prompt".to_string(),
            InvariantSource::Memory => "memory".to_string(),
        }
    }
}

/// The rule that a predicate applies to the values of its claim.
#[derive(Clone, Copy, Debug, PartialEq, Eq, Structural)]
pub enum PredicateRule {
    /// Some value contains the operand.
    Contains,
    /// The one selected value equals the operand.
    Equals,
    /// A value that is not null is there.
    Exists,
    /// No value that is not null is there.
    NotExists,
    /// The number is above the operand.
    GreaterThan,
    /// The number is below the operand.
    LessThan,
    /// The sequence has at least as many items as the operand says.
    MinLength,
    /// The sequence has at most as many items as the operand says.
    MaxLength,
    /// Some string matches the operand as a regular expression.
    Matches,
    /// No value contains the operand.
    NotContains,
    /// Some value is one of the operand's items.
    AnyOf,
    /// No value is one of the operand's items.
    NoneOf,
}

/// The name of a rule as it is written in a rulespec.
pub open spec fn rule_name(r: PredicateRule) -> Seq<char> {
    match r {
        PredicateRule::Contains => "contains"@,
        PredicateRule::Equals => "equals"@,
        PredicateRule::Exists => "exists"@,
        PredicateRule::NotExists => "not_exists"@,
        PredicateRule::GreaterThan => "greater_than"@,
        PredicateRule::LessThan => "less_than"@,
        PredicateRule::MinLength => "min_length"@,
        PredicateRule::MaxLength => "max_length"@,
        PredicateRule::Matches => "matches"@,
        PredicateRule::NotContains => "not_contains"@,
        PredicateRule::AnyOf => "any_of"@,
        PredicateRule::NoneOf => "none_of"@,
    }
}

/// Whether a rule works without an operand.
pub open spec fn rule_is_nullary(r: PredicateRule) -> bool {
    r == PredicateRule::Exists || r == PredicateRule::NotExists
}

impl PredicateRule {
    /// The name of this rule as it is written in a rulespec.
    pub fn to_string(&self) -> (s: String)
        ensures
            s@ == rule_name(*self),
    {
        match self {
            PredicateRule::Contains => "contains".to_string(),
            PredicateRule::Equals => "equals".to_string(),
            PredicateRule::Exists => "exists".to_string(),
            PredicateRule::NotExists => "not_exists".to_string(),
            PredicateRule::GreaterThan => "greater_than".to_string(),
            PredicateRule::LessThan => "less_than".to_string(),
            PredicateRule::MinLength => "min_length".to_string(),
            PredicateRule::MaxLength => "max_length".to_string(),
            PredicateRule::Matches => "matches".to_string(),
            PredicateRule::NotContains => "not_contains".to_string(),
            PredicateRule::AnyOf => "any_of".to_string(),
            PredicateRule::NoneOf => "none_of".to_string(),
        }
    }

    /// Whether this rule works without an operand.
    pub fn is_nullary(&self) -> (r: bool)
        ensures
            r == rule_is_nullary(*self),
    {
        match self {
            PredicateRule::Exists => true,
            PredicateRule::NotExists => true,
            _ => false,
        }
    }
}

/// A named selector over the fact document.
#[derive(Clone, Debug, PartialEq, Eq)]
pub struct Claim {
    /// The name by which predicates refer to this claim.
    pub name: String,
    /// The selector path into the fact document.
    pub selector: String,
}

/// Mathematical form of a [`Claim`].
pub struct ClaimView {
    pub name: Seq<char>,
    pub selector: Seq<char>,
}

impl View for Claim {
    type V = ClaimView;

    open spec fn view(&self) -> ClaimView {
        ClaimView { name: self.name@, selector: self.selector@ }
    }
}

/// The guard of a predicate: the predicate counts only where the guard holds.
#[derive(Clone, Debug, PartialEq, Eq)]
pub struct WhenCondition {
    /// The claim that the guard looks at.
    pub claim: String,
    /// The rule of the guard.
    pub rule: PredicateRule,
    /// The operand of the rule, where it takes one.
    pub value: Option<YamlValue>,
}

/// Mathematical form of a [`WhenCondition`].
pub struct WhenView {
    pub claim: Seq<char>,
    pub rule: PredicateRule,
    pub value: Option<ValueView>,
}

/// The view of an operand that may be missing.
pub open spec fn operand_view(v: Option<YamlValue>) -> Option<ValueView> {
    match v {
        Some(x) => Some(x@),
        None => None,
    }
}

/// The view of a text that may be missing.
pub open spec fn text_view(v: Option<String>) -> Option<Seq<char>> {
    match v {
        Some(x) => Some(x@),
        None => None,
    }
}

impl View for WhenCondition {
    type V = WhenView;

    open spec fn view(&self) -> WhenView {
        WhenView { claim: self.claim@, rule: self.rule, value: operand_view(self.value) }
    }
}

/// A rule to evaluate against the values of a claim.
#[derive(Clone, Debug, PartialEq, Eq)]
pub struct Predicate {
    /// The claim that this predicate is about.
    pub claim: String,
    /// The rule to apply.
    pub rule: PredicateRule,
    /// The operand of the rule, where it takes one.
    pub value: Option<YamlValue>,
    /// Where the invariant was taken from.
    pub source: InvariantSource,
    /// Free text that explains the invariant.
    pub notes: Option<String>,
    /// The guard, where the predicate has one.
    pub when: Option<WhenCondition>,
}

/// Mathematical form of a [`Predicate`].
pub struct PredicateView {
    pub claim: Seq<char>,
    pub rule: PredicateRule,
    pub value: Option<ValueView>,
    pub source: InvariantSource,
    pub notes: Option<Seq<char>>,
    pub when: Option<WhenView>,
}

/// The view of a guard that may be missing.
pub open spec fn when_view(w: Option<WhenCondition>) -> Option<WhenView> {
    match w {
        Some(x) => Some(x@),
        None => None,
    }
}

impl View for Predicate {
    type V = PredicateView;

    open spec fn view(&self) -> PredicateView {
        PredicateView {
            claim: self.claim@,
            rule: self.rule,
            value: operand_view(self.value),
            source: self.source,
            notes: text_view(self.notes),
            when: when_view(self.when),
        }
    }
}

/// Claims and the predicates over them.
#[derive(Clone, Debug, PartialEq, Eq)]
pub struct Rulespec {
    /// The named claims.
    pub claims: Vec<Claim>,
    /// The predicates over the claims.
    pub predicates: Vec<Predicate>,
}

/// Mathematical form of a [`Rulespec`].
pub struct RulespecView {
    pub claims: Seq<ClaimView>,
    pub predicates: Seq<PredicateView>,
}

/// The views of a run of claims, in order.
pub open spec fn claim_views(claims: Seq<Claim>) -> Seq<ClaimView> {
    Seq::new(claims.len(), |i: int| claims[i]@)
}

/// The views of a run of predicates, in order.
pub open spec fn predicate_views(predicates: Seq<Predicate>) -> Seq<PredicateView> {
    Seq::new(predicates.len(), |i: int| predicates[i]@)
}

impl View for Rulespec {
    type V = RulespecView;

    open spec fn view(&self) -> RulespecView {
        RulespecView {
            claims: claim_views(self.claims@),
            predicates: predicate_views(self.predicates@),
        }
    }
}

/// What is wrong with a rulespec.
#[derive(Clone, Debug, PartialEq, Eq)]
pub enum RulespecError {
    /// A claim has no name.
    EmptyClaimName,
    /// A claim has no selector.
    EmptyClaimSelector,
    /// The selector of a claim does not parse.
    InvalidSelector(SelectorError),
    /// A predicate names no claim.
    EmptyPredicateClaim,
    /// The rule of a predicate takes an operand and has none.
    MissingValue(PredicateRule),
    /// A guard names no claim.
    EmptyWhenClaim,
    /// The rule of a guard takes an operand and has none.
    MissingWhenValue(PredicateRule),
    /// Two claims have this name.
    DuplicateClaim(String),
    /// A predicate refers to this claim, which is not declared.
    UnknownClaim(String),
    /// A guard refers to this claim, which is not declared.
    UnknownWhenClaim(String),
}

/// Mathematical form of a [`RulespecError`].
pub enum RulespecErrorView {
    EmptyClaimName,
    EmptyClaimSelector,
    InvalidSelector(SelectorErrorView),
    EmptyPredicateClaim,
    MissingValue(PredicateRule),
    EmptyWhenClaim,
    MissingWhenValue(PredicateRule),
    DuplicateClaim(Seq<char>),
    UnknownClaim(Seq<char>),
    UnknownWhenClaim(Seq<char>),
}

impl View for RulespecError {
    type V = RulespecErrorView;

    open spec fn view(&self) -> RulespecErrorView {
        match self {
            RulespecError::EmptyClaimName => RulespecErrorView::EmptyClaimName,
            RulespecError::EmptyClaimSelector => RulespecErrorView::EmptyClaimSelector,
            RulespecError::InvalidSelector(e) => RulespecErrorView::InvalidSelector(e@),
            RulespecError::EmptyPredicateClaim => RulespecErrorView::EmptyPredicateClaim,
            RulespecError::MissingValue(r) => RulespecErrorView::MissingValue(*r),
            RulespecError::EmptyWhenClaim => RulespecErrorView::EmptyWhenClaim,
            RulespecError::MissingWhenValue(r) => RulespecErrorView::MissingWhenValue(*r),
            RulespecError::DuplicateClaim(n) => RulespecErrorView::DuplicateClaim(n@),
            RulespecError::UnknownClaim(n) => RulespecErrorView::UnknownClaim(n@),
            RulespecError::UnknownWhenClaim(n) => RulespecErrorView::UnknownWhenClaim(n@),
        }
    }
}

/// The text of the message that goes with an error.
pub open spec fn rulespec_error_text(e: RulespecErrorView) -> Seq<char> {
    match e {
        RulespecErrorView::EmptyClaimName => "Claim name cannot be empty"@,
        RulespecErrorView::EmptyClaimSelector => "Claim selector cannot be empty"@,
        RulespecErrorView::InvalidSelector(s) => selector_error_text(s),
        RulespecErrorView::EmptyPredicateClaim => "Predicate claim reference cannot be empty"@,
        RulespecErrorView::MissingValue(r) => "Predicate rule '"@ + rule_name(r)
            + "' requires a value"@,
        RulespecErrorView::EmptyWhenClaim => "When condition claim reference cannot be empty"@,
        RulespecErrorView::MissingWhenValue(r) => "When condition rule '"@ + rule_name(r)
            + "' requires a value"@,
        RulespecErrorView::DuplicateClaim(n) => "Duplicate claim name: "@ + n,
        RulespecErrorView::UnknownClaim(n) => "Predicate references unknown claim: "@ + n,
        RulespecErrorView::UnknownWhenClaim(n) => "When condition references unknown claim: "@
            + n,
    }
}

/// Builds `prefix`, then `middle`, then `suffix`.
fn join3(prefix: &str, middle: &str, suffix: &str) -> (s: String)
    ensures
        s@ == prefix@ + middle@ + suffix@,
{
    let mut out: Vec<char> = Vec::new();
    push_str(&mut out, prefix);
    push_str(&mut out, middle);
    push_str(&mut out, suffix);
    assert(out@ =~= prefix@ + middle@ + suffix@);
    string_of(&out)
}

impl RulespecError {
    /// The message that goes with this error.
    pub fn to_string(&self) -> (s: String)
        ensures
            s@ == rulespec_error_text(self@),
    {
        match self {
            RulespecError::EmptyClaimName => "Claim name cannot be empty".to_string(),
            RulespecError::EmptyClaimSelector => "Claim selector cannot be empty".to_string(),
            RulespecError::InvalidSelector(e) => e.message(),
            RulespecError::EmptyPredicateClaim => "Predicate claim reference cannot be empty".to_string(),
            RulespecError::MissingValue(r) => {
                let name = r.to_string();
                join3("Predicate rule '", name.as_str(), "' requires a value")
            },
            RulespecError::EmptyWhenClaim => "When condition claim reference cannot be empty".to_string(),
            RulespecError::MissingWhenValue(r) => {
                let name = r.to_string();
                join3("When condition rule '", name.as_str(), "' requires a value")
            },
            RulespecError::DuplicateClaim(n) => {
                let s = join3("Duplicate claim name: ", n.as_str(), "");
                assert(s@ =~= "Duplicate claim name: "@ + n@) by {
                    reveal_strlit("");
                }
                s
            },
            RulespecError::UnknownClaim(n) => {
                let s = join3("Predicate references unknown claim: ", n.as_str(), "");
                assert(s@ =~= "Predicate references unknown claim: "@ + n@) by {
                    reveal_strlit("");
                }
                s
            },
            RulespecError::UnknownWhenClaim(n) => {
                let s = join3("When condition references unknown claim: ", n.as_str(), "");
                assert(s@ =~= "When condition references unknown claim: "@ + n@) by {
                    reveal_strlit("");
                }
                s
            },
        }
    }
}


/// What is wrong with a claim taken alone, if anything: a blank name, a blank selector, or
/// a selector that does not parse, in this order.
pub open spec fn claim_error(c: ClaimView) -> Option<RulespecErrorView> {
    if is_blank(c.name) {
        Some(RulespecErrorView::EmptyClaimName)
    } else if is_blank(c.selector) {
        Some(RulespecErrorView::EmptyClaimSelector)
    } else {
        match parse_selector(c.selector) {
            Err(e) => Some(RulespecErrorView::InvalidSelector(e)),
            Ok(_) => None,
        }
    }
}

/// What is wrong with a guard taken alone, if anything.
pub open spec fn when_error(w: WhenView) -> Option<RulespecErrorView> {
    if is_blank(w.claim) {
        Some(RulespecErrorView::EmptyWhenClaim)
    } else if !rule_is_nullary(w.rule) && w.value is None {
        Some(RulespecErrorView::MissingWhenValue(w.rule))
    } else {
        None
    }
}

/// What is wrong with a predicate taken alone, if anything: a blank claim reference, a
/// missing operand, or a fault of its guard, in this order.
pub open spec fn predicate_error(p: PredicateView) -> Option<RulespecErrorView> {
    if is_blank(p.claim) {
        Some(RulespecErrorView::EmptyPredicateClaim)
    } else if !rule_is_nullary(p.rule) && p.value is None {
        Some(RulespecErrorView::MissingValue(p.rule))
    } else {
        match p.when {
            Some(w) => when_error(w),
            None => None,
        }
    }
}

/// Whether one of the first `upto` claims has the name `name`.
pub open spec fn declared_before(claims: Seq<ClaimView>, upto: int, name: Seq<char>) -> bool {
    exists|j: int| 0 <= j < upto && j < claims.len() && (#[trigger] claims[j]).name == name
}

/// Whether a claim has the name `name`.
pub open spec fn declared(claims: Seq<ClaimView>, name: Seq<char>) -> bool {
    declared_before(claims, claims.len() as int, name)
}

/// The first fault among the claims from index `i` on: a claim's own fault, or a name that
/// an earlier claim has.
pub open spec fn claims_error(claims: Seq<ClaimView>, i: int) -> Option<RulespecErrorView>
    decreases claims.len() - i,
{
    if i < 0 || i >= claims.len() {
        None
    } else {
        match claim_error(claims[i]) {
            Some(e) => Some(e),
            None => if declared_before(claims, i, claims[i].name) {
                Some(RulespecErrorView::DuplicateClaim(claims[i].name))
            } else {
                claims_error(claims, i + 1)
            },
        }
    }
}

/// The fault of a predicate among the given claims: its own fault, or a reference to a
/// claim that is not declared, first its own and then its guard's.
pub open spec fn predicate_error_in(claims: Seq<ClaimView>, p: PredicateView) -> Option<
    RulespecErrorView,
> {
    match predicate_error(p) {
        Some(e) => Some(e),
        None => if !declared(claims, p.claim) {
            Some(RulespecErrorView::UnknownClaim(p.claim))
        } else {
            match p.when {
                Some(w) => if !declared(claims, w.claim) {
                    Some(RulespecErrorView::UnknownWhenClaim(w.claim))
                } else {
                    None
                },
                None => None,
            }
        },
    }
}

/// The first fault among the predicates from index `i` on.
pub open spec fn predicates_error(
    claims: Seq<ClaimView>,
    predicates: Seq<PredicateView>,
    i: int,
) -> Option<RulespecErrorView>
    decreases predicates.len() - i,
{
    if i < 0 || i >= predicates.len() {
        None
    } else {
        match predicate_error_in(claims, predicates[i]) {
            Some(e) => Some(e),
            None => predicates_error(claims, predicates, i + 1),
        }
    }
}

/// The first fault of a rulespec, claims first; `None` where it has none.
pub open spec fn rulespec_error(r: RulespecView) -> Option<RulespecErrorView> {
    match claims_error(r.claims, 0) {
        Some(e) => Some(e),
        None => predicates_error(r.claims, r.predicates, 0),
    }
}

/// Whether a rulespec is valid: every claim has a name and a selector that parses, no two
/// claims share a name, every predicate and guard has its operand where the rule takes one,
/// and each refers to a declared claim.
pub open spec fn rulespec_valid(r: RulespecView) -> bool {
    &&& forall|i: int| 0 <= i < r.claims.len() ==> claim_error(#[trigger] r.claims[i]) is None
    &&& forall|i: int, j: int|
        0 <= i < j < r.claims.len() ==> (#[trigger] r.claims[i]).name != (
        #[trigger] r.claims[j]).name
    &&& forall|k: int|
        0 <= k < r.predicates.len() ==> predicate_error_in(r.claims, #[trigger] r.predicates[k])
            is None
}

proof fn lemma_claims_error(claims: Seq<ClaimView>, i: int)
    requires
        0 <= i <= claims.len(),
    ensures
        claims_error(claims, i) is None <==> (forall|k: int|
            i <= k < claims.len() ==> claim_error(#[trigger] claims[k]) is None
                && !declared_before(claims, k, claims[k].name)),
    decreases claims.len() - i,
{
    if i < claims.len() {
        lemma_claims_error(claims, i + 1);
    }
}

proof fn lemma_predicates_error(claims: Seq<ClaimView>, predicates: Seq<PredicateView>, i: int)
    requires
        0 <= i <= predicates.len(),
    ensures
        predicates_error(claims, predicates, i) is None <==> (forall|k: int|
            i <= k < predicates.len() ==> predicate_error_in(claims, #[trigger] predicates[k])
                is None),
    decreases predicates.len() - i,
{
    if i < predicates.len() {
        lemma_predicates_error(claims, predicates, i + 1);
    }
}

/// A rulespec is valid exactly when it has no fault.
pub proof fn lemma_valid_iff_no_error(r: RulespecView)
    ensures
        rulespec_valid(r) <==> rulespec_error(r) is None,
{
    lemma_claims_error(r.claims, 0);
    lemma_predicates_error(r.claims, r.predicates, 0);
    let distinct = forall|i: int, j: int|
        0 <= i < j < r.claims.len() ==> (#[trigger] r.claims[i]).name != (
        #[trigger] r.claims[j]).name;
    let fresh = forall|k: int|
        0 <= k < r.claims.len() ==> !declared_before(r.claims, k, (#[trigger] r.claims[k]).name);
    if distinct {
        assert forall|k: int| 0 <= k < r.claims.len() implies !declared_before(
            r.claims,
            k,
            (#[trigger] r.claims[k]).name,
        ) by {
            if declared_before(r.claims, k, r.claims[k].name) {
                let j = choose|j: int|
                    0 <= j < k && j < r.claims.len() && (#[trigger] r.claims[j]).name
                        == r.claims[k].name;
                assert(r.claims[j].name != r.claims[k].name);
            }
        }
    }
    if fresh {
        assert forall|i: int, j: int| 0 <= i < j < r.claims.len() implies (
        #[trigger] r.claims[i]).name != (#[trigger] r.claims[j]).name by {
            if r.claims[i].name == r.claims[j].name {
                assert(declared_before(r.claims, j, r.claims[j].name));
            }
        }
    }
}

/// Whether one of the first `upto` claims has the name `name`.
fn name_declared(claims: &Vec<Claim>, upto: usize, name: &String) -> (r: bool)
    requires
        upto <= claims.len(),
    ensures
        r == declared_before(claim_views(claims@), upto as int, name@),
{
    let ghost views = claim_views(claims@);
    let mut j: usize = 0;
    while j < upto
        invariant
            j <= upto <= claims.len(),
            views == claim_views(claims@),
            forall|k: int| 0 <= k < j ==> (#[trigger] views[k]).name != name@,
        decreases upto - j,
    {
        if claims[j].name == *name {
            assert(views[j as int].name == name@);
            return true;
        }
        j += 1;
    }
    false
}

impl Claim {
    /// A claim with the given name and selector.
    pub fn new(name: &str, selector: &str) -> (c: Claim)
        ensures
            c@ == (ClaimView { name: name@, selector: selector@ }),
    {
        Claim { name: name.to_string(), selector: selector.to_string() }
    }

    /// Checks the claim taken alone.
    ///
    /// Fails where the name or the selector is blank or the selector does not parse, with
    /// the fault that [`claim_error`] names.
    pub fn validate(&self) -> (r: Result<(), RulespecError>)
        ensures
            match r {
                Ok(_) => claim_error(self@) is None,
                Err(e) => claim_error(self@) == Some(e@),
            },
    {
        if chars_blank(&chars_of(self.name.as_str())) {
            return Err(RulespecError::EmptyClaimName);
        }
        if chars_blank(&chars_of(self.selector.as_str())) {
            return Err(RulespecError::EmptyClaimSelector);
        }
        match Selector::parse(self.selector.as_str()) {
            Ok(_) => Ok(()),
            Err(e) => Err(RulespecError::InvalidSelector(e)),
        }
    }
}

impl WhenCondition {
    /// A guard on the given claim, without operand.
    pub fn new(claim: &str, rule: PredicateRule) -> (w: WhenCondition)
        ensures
            w@ == (WhenView { claim: claim@, rule, value: None }),
    {
        WhenCondition { claim: claim.to_string(), rule, value: None }
    }

    /// This guard with the operand `value`.
    pub fn with_value(self, value: YamlValue) -> (w: WhenCondition)
        ensures
            w@ == (WhenView { value: Some(value@), ..self@ }),
    {
        WhenCondition { claim: self.claim, rule: self.rule, value: Some(value) }
    }

    /// Checks the guard taken alone.
    pub fn validate(&self) -> (r: Result<(), RulespecError>)
        ensures
            match r {
                Ok(_) => when_error(self@) is None,
                Err(e) => when_error(self@) == Some(e@),
            },
    {
        if chars_blank(&chars_of(self.claim.as_str())) {
            return Err(RulespecError::EmptyWhenClaim);
        }
        if !self.rule.is_nullary() && self.value.is_none() {
            return Err(RulespecError::MissingWhenValue(self.rule));
        }
        Ok(())
    }
}

impl Predicate {
    /// A predicate on the given claim, without operand, notes or guard.
    pub fn new(claim: &str, rule: PredicateRule, source: InvariantSource) -> (p: Predicate)
        ensures
            p@ == (PredicateView {
                claim: claim@,
                rule,
                value: None,
                source,
                notes: None,
                when: None,
            }),
    {
        Predicate { claim: claim.to_string(), rule, value: None, source, notes: None, when: None }
    }

    /// This predicate with the operand `value`.
    pub fn with_value(self, value: YamlValue) -> (p: Predicate)
        ensures
            p@ == (PredicateView { value: Some(value@), ..self@ }),
    {
        Predicate {
            claim: self.claim,
            rule: self.rule,
            value: Some(value),
            source: self.source,
            notes: self.notes,
            when: self.when,
        }
    }

    /// This predicate with the given notes.
    pub fn with_notes(self, notes: &str) -> (p: Predicate)
        ensures
            p@ == (PredicateView { notes: Some(notes@), ..self@ }),
    {
        Predicate {
            claim: self.claim,
            rule: self.rule,
            value: self.value,
            source: self.source,
            notes: Some(notes.to_string()),
            when: self.when,
        }
    }

    /// This predicate with the guard `when`.
    pub fn with_when(self, when: WhenCondition) -> (p: Predicate)
        ensures
            p@ == (PredicateView { when: Some(when@), ..self@ }),
    {
        Predicate {
            claim: self.claim,
            rule: self.rule,
            value: self.value,
            source: self.source,
            notes: self.notes,
            when: Some(when),
        }
    }

    /// Checks the predicate taken alone.
    ///
    /// Fails where the claim reference is blank, where the rule takes an operand and has
    /// none, or where the guard has one of these faults, with the fault that
    /// [`predicate_error`] names.
    pub fn validate(&self) -> (r: Result<(), RulespecError>)
        ensures
            match r {
                Ok(_) => predicate_error(self@) is None,
                Err(e) => predicate_error(self@) == Some(e@),
            },
    {
        if chars_blank(&chars_of(self.claim.as_str())) {
            return Err(RulespecError::EmptyPredicateClaim);
        }
        if !self.rule.is_nullary() && self.value.is_none() {
            return Err(RulespecError::MissingValue(self.rule));
        }
        match &self.when {
            Some(w) => w.validate(),
            None => Ok(()),
        }
    }
}

impl Rulespec {
    /// A rulespec without claims or predicates.
    pub fn new() -> (r: Rulespec)
        ensures
            r@.claims.len() == 0,
            r@.predicates.len() == 0,
    {
        Rulespec { claims: Vec::new(), predicates: Vec::new() }
    }

    /// Adds a claim at the end.
    pub fn add_claim(&mut self, claim: Claim)
        ensures
            final(self)@.claims == old(self)@.claims.push(claim@),
            final(self)@.predicates == old(self)@.predicates,
    {
        self.claims.push(claim);
        assert(claim_views(self.claims@) =~= claim_views(old(self).claims@).push(claim@));
    }

    /// Adds a predicate at the end.
    pub fn add_predicate(&mut self, predicate: Predicate)
        ensures
            final(self)@.predicates == old(self)@.predicates.push(predicate@),
            final(self)@.claims == old(self)@.claims,
    {
        self.predicates.push(predicate);
        assert(predicate_views(self.predicates@) =~= predicate_views(old(self).predicates@).push(
            predicate@,
        ));
    }

    /// Whether the rulespec has neither claims nor predicates.
    pub fn is_empty(&self) -> (r: bool)
        ensures
            r == (self@.claims.len() == 0 && self@.predicates.len() == 0),
    {
        self.claims.len() == 0 && self.predicates.len() == 0
    }

    /// Checks the whole rulespec.
    ///
    /// Succeeds exactly on a valid rulespec, and else returns its first fault, claims
    /// before predicates. A rulespec without claims and predicates is valid.
    pub fn validate(&self) -> (r: Result<(), RulespecError>)
        ensures
            r is Ok <==> rulespec_valid(self@),
            match r {
                Ok(_) => rulespec_error(self@) is None,
                Err(e) => rulespec_error(self@) == Some(e@),
            },
    {
        let ghost claims = self@.claims;
        let ghost predicates = self@.predicates;
        proof {
            lemma_valid_iff_no_error(self@);
        }
        let mut i: usize = 0;
        while i < self.claims.len()
            invariant
                i <= self.claims.len(),
                claims == claim_views(self.claims@),
                claims_error(claims, 0) == claims_error(claims, i as int),
            decreases self.claims.len() - i,
        {
            assert(claims[i as int] == self.claims@[i as int]@);
            match self.claims[i].validate() {
                Ok(_) => {},
                Err(e) => {
                    return Err(e);
                },
            }
            if name_declared(&self.claims, i, &self.claims[i].name) {
                return Err(RulespecError::DuplicateClaim(self.claims[i].name.clone()));
            }
            i += 1;
        }
        let mut k: usize = 0;
        while k < self.predicates.len()
            invariant
                k <= self.predicates.len(),
                claims == claim_views(self.claims@),
                predicates == predicate_views(self.predicates@),
                claims_error(claims, 0) is None,
                predicates_error(claims, predicates, 0) == predicates_error(
                    claims,
                    predicates,
                    k as int,
                ),
            decreases self.predicates.len() - k,
        {
            let p = &self.predicates[k];
            assert(predicates[k as int] == p@);
            match p.validate() {
                Ok(_) => {},
                Err(e) => {
                    return Err(e);
                },
            }
            if !name_declared(&self.claims, self.claims.len(), &p.claim) {
                return Err(RulespecError::UnknownClaim(p.claim.clone()));
            }
            match &p.when {
                Some(w) => {
                    if !name_declared(&self.claims, self.claims.len(), &w.claim) {
                        return Err(RulespecError::UnknownWhenClaim(w.claim.clone()));
                    }
                },
                None => {},
            }
            k += 1;
        }
        Ok(())
    }
}


/// A copy of a text that may be missing.
pub fn clone_text(t: &Option<String>) -> (r: Option<String>)
    ensures
        text_view(r) == text_view(*t),
{
    match t {
        Some(s) => Some(s.clone()),
        None => None,
    }
}

/// A copy of an operand that may be missing.
pub fn clone_operand(v: &Option<YamlValue>) -> (r: Option<YamlValue>)
    ensures
        operand_view(r) == operand_view(*v),
{
    match v {
        Some(x) => Some(x.clone_value()),
        None => None,
    }
}

impl WhenCondition {
    /// A copy of this guard.
    pub fn clone_when(&self) -> (r: WhenCondition)
        ensures
            r@ == self@,
    {
        WhenCondition {
            claim: self.claim.clone(),
            rule: self.rule,
            value: clone_operand(&self.value),
        }
    }
}

impl Predicate {
    /// A copy of this predicate.
    pub fn clone_predicate(&self) -> (r: Predicate)
        ensures
            r@ == self@,
    {
        let when = match &self.when {
            Some(w) => Some(w.clone_when()),
            None => None,
        };
        Predicate {
            claim: self.claim.clone(),
            rule: self.rule,
            value: clone_operand(&self.value),
            source: self.source,
            notes: clone_text(&self.notes),
            when,
        }
    }
}

/// The claim that the name `name` refers to: the last one declared with it.
pub open spec fn find_claim(claims: Seq<ClaimView>, name: Seq<char>) -> Option<ClaimView>
    decreases claims.len(),
{
    if claims.len() == 0 {
        None
    } else if claims.last().name == name {
        Some(claims.last())
    } else {
        find_claim(claims.drop_last(), name)
    }
}

impl Rulespec {
    /// The claim that `name` refers to: the last one declared with it.
    pub fn claim_named(&self, name: &str) -> (r: Option<&Claim>)
        ensures
            match r {
                Some(c) => find_claim(self@.claims, name@) == Some(c@),
                None => find_claim(self@.claims, name@) is None,
            },
    {
        let ghost claims = self@.claims;
        let mut i: usize = self.claims.len();
        assert(claims.take(i as int) =~= claims);
        while i > 0
            invariant
                i <= self.claims.len(),
                claims == claim_views(self.claims@),
                find_claim(claims, name@) == find_claim(claims.take(i as int), name@),
            decreases i,
        {
            assert(claims.take(i as int).last() == self.claims@[i - 1]@);
            assert(claims.take(i as int).drop_last() =~= claims.take(i - 1));
            if str_eq(self.claims[i - 1].name.as_str(), name) {
                return Some(&self.claims[i - 1]);
            }
            i -= 1;
        }
        None
    }
}

} // verus!
