//! Rulespecs compiled to flat relations, the facts extracted from an envelope, and the
//! evaluation of the compiled predicates against those facts.

use vstd::prelude::*;
use crate::assoc::{entry_at, key_index, keys_distinct, lemma_key_index, lemma_key_index_stable};
use crate::rulespec::{
    claim_error, clone_text, declared, declared_before, predicate_error_in, rulespec_valid,
    text_view, ClaimView, InvariantSource, PredicateRule, PredicateView, Rulespec, RulespecView,
    WhenView,
};
use crate::envelope::{document_of, ActionEnvelope, EnvelopeView};
use crate::numeric::{num_lt, read_number, Decimal, Num};
use crate::pattern::{compile, is_match, regex_accepts, regex_valid, regex_verdict, Pattern};
use crate::selector::{
    parse_selector, select_values, selector_error_text, SegmentView, Selector, SelectorError,
    SelectorErrorView,
};
use crate::text::{
    chars_eq, chars_lt, chars_of, decimal, decimal_string, lemma_text_lt_asymmetric,
    lemma_text_lt_irreflexive, lemma_text_lt_total, lemma_text_lt_transitive, parse_u64,
    part_views, split_chars, split_texts, parse_unsigned, push_decimal, push_str, slice_chars,
    starts_with, str_eq, string_of, text_lt,
};
use crate::value::{
    entry_views, item_views, lemma_view_mapping, lemma_view_sequence, value_text, YamlValue, ValueView,
};

verus! {

/// The guard of a compiled predicate.
#[derive(Clone, Debug, PartialEq, Eq)]
pub struct CompiledWhenCondition {
    pub claim_name: String,
    pub selector: String,
    pub rule: PredicateRule,
    pub expected_value: Option<String>,
}

/// Mathematical form of a [`CompiledWhenCondition`].
pub struct CompiledWhenView {
    pub claim_name: Seq<char>,
    pub selector: Seq<char>,
    pub rule: PredicateRule,
    pub expected_value: Option<Seq<char>>,
}

impl View for CompiledWhenCondition {
    type V = CompiledWhenView;

    open spec fn view(&self) -> CompiledWhenView {
        CompiledWhenView {
            claim_name: self.claim_name@,
            selector: self.selector@,
            rule: self.rule,
            expected_value: text_view(self.expected_value),
        }
    }
}

/// A predicate with its operand flattened to text and a stable number.
#[derive(Clone, Debug, PartialEq, Eq)]
pub struct CompiledPredicate {
    /// Index of the predicate in its rulespec.
    pub id: usize,
    /// Name of the claim it is about.
    pub claim_name: String,
    /// Selector of that claim.
    pub selector: String,
    /// The rule.
    pub rule: PredicateRule,
    /// The operand as text.
    pub expected_value: Option<String>,
    /// Where the invariant was taken from.
    pub source: InvariantSource,
    /// Free text that explains the invariant.
    pub notes: Option<String>,
    /// The guard, compiled.
    pub when: Option<CompiledWhenCondition>,
}

/// Mathematical form of a [`CompiledPredicate`].
pub struct CompiledPredicateView {
    pub id: nat,
    pub claim_name: Seq<char>,
    pub selector: Seq<char>,
    pub rule: PredicateRule,
    pub expected_value: Option<Seq<char>>,
    pub source: InvariantSource,
    pub notes: Option<Seq<char>>,
    pub when: Option<CompiledWhenView>,
}

/// The view of a compiled guard that may be missing.
pub open spec fn compiled_when_view(w: Option<CompiledWhenCondition>) -> Option<CompiledWhenView> {
    match w {
        Some(x) => Some(x@),
        None => None,
    }
}

impl View for CompiledPredicate {
    type V = CompiledPredicateView;

    open spec fn view(&self) -> CompiledPredicateView {
        CompiledPredicateView {
            id: self.id as nat,
            claim_name: self.claim_name@,
            selector: self.selector@,
            rule: self.rule,
            expected_value: text_view(self.expected_value),
            source: self.source,
            notes: text_view(self.notes),
            when: compiled_when_view(self.when),
        }
    }
}

/// A rulespec compiled for one plan revision.
#[derive(Clone, Debug, PartialEq, Eq)]
pub struct CompiledRulespec {
    /// The plan this was compiled for.
    pub plan_id: String,
    /// Revision of the plan at the time.
    pub compiled_at_revision: u32,
    /// The compiled predicates, in the order of the rulespec.
    pub predicates: Vec<CompiledPredicate>,
    /// Selector of each claim, by claim name, each name once.
    pub claims: Vec<(String, String)>,
}

/// Mathematical form of a [`CompiledRulespec`].
pub struct CompiledRulespecView {
    pub plan_id: Seq<char>,
    pub compiled_at_revision: u32,
    pub predicates: Seq<CompiledPredicateView>,
    pub claims: Seq<(Seq<char>, Seq<char>)>,
}

/// The views of a run of compiled predicates, in order.
pub open spec fn compiled_views(predicates: Seq<CompiledPredicate>) -> Seq<CompiledPredicateView> {
    Seq::new(predicates.len(), |i: int| predicates[i]@)
}

/// The views of a table of texts, in order.
pub open spec fn table_views(table: Seq<(String, String)>) -> Seq<(Seq<char>, Seq<char>)> {
    Seq::new(table.len(), |i: int| (table[i].0@, table[i].1@))
}

impl View for CompiledRulespec {
    type V = CompiledRulespecView;

    open spec fn view(&self) -> CompiledRulespecView {
        CompiledRulespecView {
            plan_id: self.plan_id@,
            compiled_at_revision: self.compiled_at_revision,
            predicates: compiled_views(self.predicates@),
            claims: table_views(self.claims@),
        }
    }
}

impl CompiledRulespec {
    /// Whether no claim name occurs twice in the table of claims.
    pub open spec fn wf(&self) -> bool {
        keys_distinct(self@.claims)
    }

    /// Whether there is no predicate to evaluate.
    pub fn is_empty(&self) -> (r: bool)
        ensures
            r == (self@.predicates.len() == 0),
    {
        self.predicates.len() == 0
    }
}

/// Why a rulespec does not compile.
#[derive(Clone, Debug, PartialEq, Eq)]
pub enum CompileError {
    /// The selector of a claim does not parse.
    InvalidSelector { selector: String, claim: String, error: SelectorError },
    /// A claim has the name of an earlier claim.
    DuplicateClaim { claim: String },
    /// The predicate at `index` refers to a claim that is not declared.
    UnknownClaim { index: usize, claim: String },
    /// The guard of the predicate at `index` refers to a claim that is not declared.
    UnknownGuardClaim { index: usize, claim: String },
}

/// Mathematical form of a [`CompileError`].
pub enum CompileErrorView {
    InvalidSelector { selector: Seq<char>, claim: Seq<char>, error: SelectorErrorView },
    DuplicateClaim { claim: Seq<char> },
    UnknownClaim { index: nat, claim: Seq<char> },
    UnknownGuardClaim { index: nat, claim: Seq<char> },
}

impl View for CompileError {
    type V = CompileErrorView;

    open spec fn view(&self) -> CompileErrorView {
        match self {
            CompileError::InvalidSelector { selector, claim, error } => {
                CompileErrorView::InvalidSelector {
                    selector: selector@,
                    claim: claim@,
                    error: error@,
                }
            },
            CompileError::DuplicateClaim { claim } => CompileErrorView::DuplicateClaim {
                claim: claim@,
            },
            CompileError::UnknownClaim { index, claim } => CompileErrorView::UnknownClaim {
                index: *index as nat,
                claim: claim@,
            },
            CompileError::UnknownGuardClaim { index, claim } => {
                CompileErrorView::UnknownGuardClaim { index: *index as nat, claim: claim@ }
            },
        }
    }
}

/// The text of the message that goes with a compile error.
pub open spec fn compile_error_text(e: CompileErrorView) -> Seq<char> {
    match e {
        CompileErrorView::InvalidSelector { selector, claim, error } => "Invalid selector '"@
            + selector + "' in claim '"@ + claim + "': "@ + selector_error_text(error),
        CompileErrorView::DuplicateClaim { claim } => "Duplicate claim name '"@ + claim + "'"@,
        CompileErrorView::UnknownClaim { index, claim } => "Predicate "@ + decimal(index)
            + " references unknown claim '"@ + claim + "'"@,
        CompileErrorView::UnknownGuardClaim { index, claim } => "Predicate "@ + decimal(index)
            + " has a when condition that references unknown claim '"@ + claim + "'"@,
    }
}

impl CompileError {
    /// The message that goes with this error.
    pub fn to_string(&self) -> (s: String)
        ensures
            s@ == compile_error_text(self@),
    {
        let mut out: Vec<char> = Vec::new();
        match self {
            CompileError::InvalidSelector { selector, claim, error } => {
                push_str(&mut out, "Invalid selector '");
                push_str(&mut out, selector.as_str());
                push_str(&mut out, "' in claim '");
                push_str(&mut out, claim.as_str());
                push_str(&mut out, "': ");
                let detail = error.message();
                push_str(&mut out, detail.as_str());
                assert(out@ =~= compile_error_text(self@));
            },
            CompileError::DuplicateClaim { claim } => {
                push_str(&mut out, "Duplicate claim name '");
                push_str(&mut out, claim.as_str());
                push_str(&mut out, "'");
                assert(out@ =~= compile_error_text(self@));
            },
            CompileError::UnknownClaim { index, claim } => {
                push_str(&mut out, "Predicate ");
                push_decimal(&mut out, *index as u64);
                push_str(&mut out, " references unknown claim '");
                push_str(&mut out, claim.as_str());
                push_str(&mut out, "'");
                assert(out@ =~= compile_error_text(self@));
            },
            CompileError::UnknownGuardClaim { index, claim } => {
                push_str(&mut out, "Predicate ");
                push_decimal(&mut out, *index as u64);
                push_str(&mut out, " has a when condition that references unknown claim '");
                push_str(&mut out, claim.as_str());
                push_str(&mut out, "'");
                assert(out@ =~= compile_error_text(self@));
            },
        }
        string_of(&out)
    }
}

/// The table of selectors by claim name for the first `n` claims, in their order.
pub open spec fn claim_table(claims: Seq<ClaimView>, n: int) -> Seq<(Seq<char>, Seq<char>)> {
    Seq::new(
        if 0 <= n <= claims.len() {
            n as nat
        } else {
            0
        },
        |k: int| (claims[k].name, claims[k].selector),
    )
}

/// The fault of the first claim from `i` on that has one: a selector that does not parse,
/// or the name of an earlier claim.
pub open spec fn claim_fault(claims: Seq<ClaimView>, i: int) -> Option<CompileErrorView>
    decreases claims.len() - i,
{
    if i < 0 || i >= claims.len() {
        None
    } else {
        match parse_selector(claims[i].selector) {
            Err(e) => Some(
                CompileErrorView::InvalidSelector {
                    selector: claims[i].selector,
                    claim: claims[i].name,
                    error: e,
                },
            ),
            Ok(_) => if declared_before(claims, i, claims[i].name) {
                Some(CompileErrorView::DuplicateClaim { claim: claims[i].name })
            } else {
                claim_fault(claims, i + 1)
            },
        }
    }
}

/// The fault of a predicate among the given claims: a claim that is not declared, its own
/// first and then its guard's.
pub open spec fn reference_fault(claims: Seq<ClaimView>, i: int, p: PredicateView) -> Option<
    CompileErrorView,
> {
    if !declared(claims, p.claim) {
        Some(CompileErrorView::UnknownClaim { index: i as nat, claim: p.claim })
    } else if p.when is Some && !declared(claims, p.when->0.claim) {
        Some(CompileErrorView::UnknownGuardClaim { index: i as nat, claim: p.when->0.claim })
    } else {
        None
    }
}

/// The fault of the first predicate from `i` on that has one.
pub open spec fn predicate_fault(
    claims: Seq<ClaimView>,
    predicates: Seq<PredicateView>,
    i: int,
) -> Option<CompileErrorView>
    decreases predicates.len() - i,
{
    if i < 0 || i >= predicates.len() {
        None
    } else {
        match reference_fault(claims, i, predicates[i]) {
            Some(e) => Some(e),
            None => predicate_fault(claims, predicates, i + 1),
        }
    }
}

/// The flat text of an operand that may be missing.
pub open spec fn operand_text(v: Option<ValueView>) -> Option<Seq<char>> {
    match v {
        Some(x) => Some(value_text(x)),
        None => None,
    }
}

/// A guard compiled against a table of claims that holds its claim.
pub open spec fn compile_when(table: Seq<(Seq<char>, Seq<char>)>, w: WhenView) -> CompiledWhenView {
    CompiledWhenView {
        claim_name: w.claim,
        selector: entry_at(table, w.claim)->0,
        rule: w.rule,
        expected_value: operand_text(w.value),
    }
}

/// The predicate at index `i` compiled against a table of claims that holds its claim.
pub open spec fn compile_predicate(
    table: Seq<(Seq<char>, Seq<char>)>,
    i: int,
    p: PredicateView,
) -> CompiledPredicateView {
    CompiledPredicateView {
        id: i as nat,
        claim_name: p.claim,
        selector: entry_at(table, p.claim)->0,
        rule: p.rule,
        expected_value: operand_text(p.value),
        source: p.source,
        notes: p.notes,
        when: match p.when {
            Some(w) => Some(compile_when(table, w)),
            None => None,
        },
    }
}

/// What compiling a rulespec gives.
///
/// It fails on the first claim whose selector does not parse or whose name an earlier
/// claim has, and else on the first predicate that refers to a claim that is not declared,
/// itself or in its guard. Otherwise each predicate is compiled in place, with its index
/// as its number, and the table holds the claims in their order.
pub open spec fn compile_spec(r: RulespecView, plan_id: Seq<char>, revision: u32) -> Result<
    CompiledRulespecView,
    CompileErrorView,
> {
    match claim_fault(r.claims, 0) {
        Some(e) => Err(e),
        None => match predicate_fault(r.claims, r.predicates, 0) {
            Some(e) => Err(e),
            None => {
                let table = claim_table(r.claims, r.claims.len() as int);
                Ok(
                    CompiledRulespecView {
                        plan_id,
                        compiled_at_revision: revision,
                        predicates: Seq::new(
                            r.predicates.len(),
                            |i: int| compile_predicate(table, i, r.predicates[i]),
                        ),
                        claims: table,
                    },
                )
            },
        },
    }
}

/// Whether a rulespec can be compiled: every selector parses, no two claims share a name,
/// and every predicate and every guard refers to a declared claim.
pub open spec fn compilable(r: RulespecView) -> bool {
    &&& forall|i: int|
        0 <= i < r.claims.len() ==> parse_selector((#[trigger] r.claims[i]).selector) is Ok
    &&& forall|i: int, j: int|
        0 <= i < j < r.claims.len() ==> (#[trigger] r.claims[i]).name != (
        #[trigger] r.claims[j]).name
    &&& forall|k: int|
        0 <= k < r.predicates.len() ==> declared(r.claims, (#[trigger] r.predicates[k]).claim)
    &&& forall|k: int|
        0 <= k < r.predicates.len() && (#[trigger] r.predicates[k]).when is Some ==> declared(
            r.claims,
            r.predicates[k].when->0.claim,
        )
}

/// The view of the outcome of a compilation.
pub open spec fn compile_outcome_view(o: Result<CompiledRulespec, CompileError>) -> Result<
    CompiledRulespecView,
    CompileErrorView,
> {
    match o {
        Ok(c) => Ok(c@),
        Err(e) => Err(e@),
    }
}

/// A valid rulespec compiles.
pub proof fn lemma_valid_compiles(r: RulespecView)
    requires
        rulespec_valid(r),
    ensures
        compilable(r),
{
    assert forall|i: int| 0 <= i < r.claims.len() implies parse_selector(
        (#[trigger] r.claims[i]).selector,
    ) is Ok by {
        assert(claim_error(r.claims[i]) is None);
    }
    assert forall|k: int| 0 <= k < r.predicates.len() implies declared(
        r.claims,
        (#[trigger] r.predicates[k]).claim,
    ) by {
        assert(predicate_error_in(r.claims, r.predicates[k]) is None);
    }
    assert forall|k: int|
        0 <= k < r.predicates.len() && (#[trigger] r.predicates[k]).when is Some implies declared(
        r.claims,
        r.predicates[k].when->0.claim,
    ) by {
        assert(predicate_error_in(r.claims, r.predicates[k]) is None);
    }
}

/// A name is found in the table of the first `n` claims exactly when one of them has it,
/// and then with the selector of the first that has it.
pub proof fn lemma_table_declares(claims: Seq<ClaimView>, n: int, name: Seq<char>)
    requires
        0 <= n <= claims.len(),
    ensures
        entry_at(claim_table(claims, n), name) is Some <==> declared_before(claims, n, name),
{
    let table = claim_table(claims, n);
    lemma_key_index(table, name, n);
    match key_index(table, name, n) {
        Some(i) => {
            assert(claims[i].name == name);
        },
        None => {
            assert forall|j: int| 0 <= j < n && j < claims.len() implies (
            #[trigger] claims[j]).name != name by {
                assert(table[j].0 != name);
            }
        },
    }
}

proof fn lemma_claim_fault(claims: Seq<ClaimView>, i: int)
    requires
        0 <= i <= claims.len(),
    ensures
        claim_fault(claims, i) is None <==> (forall|k: int|
            i <= k < claims.len() ==> parse_selector((#[trigger] claims[k]).selector) is Ok
                && !declared_before(claims, k, claims[k].name)),
    decreases claims.len() - i,
{
    if i < claims.len() {
        lemma_claim_fault(claims, i + 1);
    }
}

proof fn lemma_predicate_fault(claims: Seq<ClaimView>, predicates: Seq<PredicateView>, i: int)
    requires
        0 <= i <= predicates.len(),
    ensures
        predicate_fault(claims, predicates, i) is None <==> (forall|k: int|
            i <= k < predicates.len() ==> reference_fault(claims, k, #[trigger] predicates[k])
                is None),
    decreases predicates.len() - i,
{
    if i < predicates.len() {
        lemma_predicate_fault(claims, predicates, i + 1);
    }
}

/// A rulespec compiles exactly when every selector parses, no two claims share a name, and
/// every predicate and every guard refers to a declared claim.
pub proof fn lemma_compiles_iff_compilable(r: RulespecView, plan_id: Seq<char>, revision: u32)
    ensures
        compile_spec(r, plan_id, revision) is Ok <==> compilable(r),
{
    lemma_claim_fault(r.claims, 0);
    lemma_predicate_fault(r.claims, r.predicates, 0);
    let claims = r.claims;
    let distinct = forall|i: int, j: int|
        0 <= i < j < claims.len() ==> (#[trigger] claims[i]).name != (#[trigger] claims[j]).name;
    let fresh = forall|k: int|
        0 <= k < claims.len() ==> !declared_before(claims, k, (#[trigger] claims[k]).name);
    if distinct {
        assert forall|k: int| 0 <= k < claims.len() implies !declared_before(
            claims,
            k,
            (#[trigger] claims[k]).name,
        ) by {
            if declared_before(claims, k, claims[k].name) {
                let j = choose|j: int|
                    0 <= j < k && j < claims.len() && (#[trigger] claims[j]).name
                        == claims[k].name;
                assert(claims[j].name != claims[k].name);
            }
        }
    }
    if fresh {
        assert forall|i: int, j: int| 0 <= i < j < claims.len() implies (
        #[trigger] claims[i]).name != (#[trigger] claims[j]).name by {
            if claims[i].name == claims[j].name {
                assert(declared_before(claims, j, claims[j].name));
            }
        }
    }
    if compilable(r) {
        assert forall|k: int| 0 <= k < r.predicates.len() implies reference_fault(
            claims,
            k,
            #[trigger] r.predicates[k],
        ) is None by {}
    }
    if compile_spec(r, plan_id, revision) is Ok {
        assert forall|k: int| 0 <= k < r.predicates.len() implies declared(
            claims,
            (#[trigger] r.predicates[k]).claim,
        ) by {
            assert(reference_fault(claims, k, r.predicates[k]) is None);
        }
        assert forall|k: int|
            0 <= k < r.predicates.len() && (#[trigger] r.predicates[k]).when is Some implies declared(
            claims,
            r.predicates[k].when->0.claim,
        ) by {
            assert(reference_fault(claims, k, r.predicates[k]) is None);
        }
    }
}

/// Finds the index of the entry with the key `key`.
fn table_find(table: &Vec<(String, String)>, key: &str) -> (r: Option<usize>)
    ensures
        match r {
            Some(i) => key_index(table_views(table@), key@, table@.len() as int) == Some(
                i as int,
            ) && i < table.len(),
            None => key_index(table_views(table@), key@, table@.len() as int) is None,
        },
{
    let ghost views = table_views(table@);
    let mut i: usize = 0;
    while i < table.len()
        invariant
            i <= table.len(),
            views == table_views(table@),
            key_index(views, key@, i as int) is None,
        decreases table.len() - i,
    {
        if str_eq(table[i].0.as_str(), key) {
            assert(views[i as int].0 == key@);
            proof {
                lemma_key_index_stable(views, key@, i + 1, views.len() as int);
            }
            return Some(i);
        }
        i += 1;
    }
    None
}

/// The text stored under `key`, if any.
pub fn table_get<'a>(table: &'a Vec<(String, String)>, key: &str) -> (r: Option<&'a String>)
    ensures
        match r {
            Some(s) => entry_at(table_views(table@), key@) == Some(s@),
            None => entry_at(table_views(table@), key@) is None,
        },
{
    match table_find(table, key) {
        Some(i) => {
            assert(table_views(table@)[i as int].1 == table@[i as int].1@);
            Some(&table[i].1)
        },
        None => None,
    }
}

/// The flat text of an operand that may be missing.
fn operand_to_text(v: &Option<YamlValue>) -> (r: Option<String>)
    ensures
        text_view(r) == operand_text(crate::rulespec::operand_view(*v)),
{
    match v {
        Some(x) => Some(x.to_text()),
        None => None,
    }
}

/// Compiles a rulespec for the plan `plan_id` at `revision`.
///
/// Returns exactly what [`compile_spec`] gives for the rulespec: the same rulespec always
/// compiles to the same result, and one with a selector that does not parse, with two
/// claims of one name or with a reference to a claim that is not declared does not compile.
pub fn compile_rulespec(rulespec: &Rulespec, plan_id: &str, revision: u32) -> (r: Result<
    CompiledRulespec,
    CompileError,
>)
    ensures
        compile_outcome_view(r) == compile_spec(rulespec@, plan_id@, revision),
        r is Ok <==> compilable(rulespec@),
        r is Ok ==> r->Ok_0.wf(),
{
    let ghost claims = rulespec@.claims;
    let ghost predicates = rulespec@.predicates;
    proof {
        lemma_compiles_iff_compilable(rulespec@, plan_id@, revision);
    }
    let mut table: Vec<(String, String)> = Vec::new();
    let mut i: usize = 0;
    assert(table_views(table@) =~= claim_table(claims, 0));
    while i < rulespec.claims.len()
        invariant
            i <= rulespec.claims.len(),
            claims == rulespec@.claims,
            claims.len() == rulespec.claims.len(),
            claim_fault(claims, 0) == claim_fault(claims, i as int),
            table_views(table@) == claim_table(claims, i as int),
            keys_distinct(claim_table(claims, i as int)),
        decreases rulespec.claims.len() - i,
    {
        let claim = &rulespec.claims[i];
        assert(claims[i as int] == claim@);
        match Selector::parse(claim.selector.as_str()) {
            Ok(_) => {},
            Err(e) => {
                return Err(
                    CompileError::InvalidSelector {
                        selector: claim.selector.clone(),
                        claim: claim.name.clone(),
                        error: e,
                    },
                );
            },
        }
        proof {
            lemma_table_declares(claims, i as int, claim.name@);
        }
        if table_get(&table, claim.name.as_str()).is_some() {
            return Err(CompileError::DuplicateClaim { claim: claim.name.clone() });
        }
        let ghost before = claim_table(claims, i as int);
        table.push((claim.name.clone(), claim.selector.clone()));
        proof {
            let after = claim_table(claims, i + 1);
            assert(after =~= before.push((claim.name@, claim.selector@)));
            assert(table_views(table@) =~= before.push((claim.name@, claim.selector@)));
            lemma_key_index(before, claim.name@, before.len() as int);
            assert forall|a: int, b: int| 0 <= a < b < after.len() implies (
            #[trigger] after[a]).0 != (#[trigger] after[b]).0 by {
                assert(after[a] == before[a]);
                if b < before.len() {
                    assert(after[b] == before[b]);
                }
            }
        }
        i += 1;
    }
    let ghost full = claim_table(claims, claims.len() as int);
    let mut compiled: Vec<CompiledPredicate> = Vec::new();
    let mut k: usize = 0;
    while k < rulespec.predicates.len()
        invariant
            k <= rulespec.predicates.len(),
            predicates == rulespec@.predicates,
            predicates.len() == rulespec.predicates.len(),
            claims == rulespec@.claims,
            claim_fault(claims, 0) is None,
            full == claim_table(claims, claims.len() as int),
            full == table_views(table@),
            predicate_fault(claims, predicates, 0) == predicate_fault(claims, predicates, k as int),
            compiled@.len() == k,
            forall|j: int|
                0 <= j < k ==> (#[trigger] compiled@[j])@ == compile_predicate(
                    full,
                    j,
                    predicates[j],
                ),
        decreases rulespec.predicates.len() - k,
    {
        let predicate = &rulespec.predicates[k];
        assert(predicates[k as int] == predicate@);
        proof {
            lemma_table_declares(claims, claims.len() as int, predicate.claim@);
        }
        let selector = match table_get(&table, predicate.claim.as_str()) {
            Some(s) => s.clone(),
            None => {
                return Err(
                    CompileError::UnknownClaim { index: k, claim: predicate.claim.clone() },
                );
            },
        };
        let when = match &predicate.when {
            Some(w) => {
                assert(predicates[k as int].when == Some(w@));
                proof {
                    lemma_table_declares(claims, claims.len() as int, w.claim@);
                }
                let when_selector = match table_get(&table, w.claim.as_str()) {
                    Some(s) => s.clone(),
                    None => {
                        return Err(
                            CompileError::UnknownGuardClaim { index: k, claim: w.claim.clone() },
                        );
                    },
                };
                Some(
                    CompiledWhenCondition {
                        claim_name: w.claim.clone(),
                        selector: when_selector,
                        rule: w.rule,
                        expected_value: operand_to_text(&w.value),
                    },
                )
            },
            None => None,
        };
        compiled.push(
            CompiledPredicate {
                id: k,
                claim_name: predicate.claim.clone(),
                selector,
                rule: predicate.rule,
                expected_value: operand_to_text(&predicate.value),
                source: predicate.source,
                notes: clone_text(&predicate.notes),
                when,
            },
        );
        k += 1;
    }
    let result = CompiledRulespec {
        plan_id: plan_id.to_string(),
        compiled_at_revision: revision,
        predicates: compiled,
        claims: table,
    };
    assert(result@.predicates =~= Seq::new(
        predicates.len(),
        |i: int| compile_predicate(full, i, predicates[i]),
    ));
    Ok(result)
}

/// Compiling is repeatable: two outcomes of compiling the same rulespec for the same plan
/// and revision are the same.
pub proof fn lemma_compile_repeatable(
    rulespec: RulespecView,
    plan_id: Seq<char>,
    revision: u32,
    first: Result<CompiledRulespecView, CompileErrorView>,
    second: Result<CompiledRulespecView, CompileErrorView>,
)
    requires
        first == compile_spec(rulespec, plan_id, revision),
        second == compile_spec(rulespec, plan_id, revision),
    ensures
        first == second,
{
}


/// One extracted fact: a value, as text, under the name of a claim.
#[derive(Clone, Debug, PartialEq, Eq)]
pub struct Fact {
    /// Name of the claim the fact belongs to.
    pub claim_name: String,
    /// The extracted value as text.
    pub value: String,
}

impl View for Fact {
    type V = (Seq<char>, Seq<char>);

    open spec fn view(&self) -> (Seq<char>, Seq<char>) {
        (self.claim_name@, self.value@)
    }
}

impl Fact {
    /// A copy of this fact.
    pub fn clone_fact(&self) -> (f: Fact)
        ensures
            f@ == self@,
    {
        Fact { claim_name: self.claim_name.clone(), value: self.value.clone() }
    }

    /// The fact that `claim_name` has the value `value`.
    pub fn new(claim_name: &str, value: &str) -> (f: Fact)
        ensures
            f@ == (claim_name@, value@),
    {
        Fact { claim_name: claim_name.to_string(), value: value.to_string() }
    }
}

/// The order in which facts are kept and written: by claim name, then by value, each in
/// the order of texts.
pub open spec fn fact_lt(a: (Seq<char>, Seq<char>), b: (Seq<char>, Seq<char>)) -> bool {
    text_lt(a.0, b.0) || (a.0 == b.0 && text_lt(a.1, b.1))
}

/// Whether each fact of `s` is below all that follow it.
pub open spec fn facts_sorted(s: Seq<(Seq<char>, Seq<char>)>) -> bool {
    forall|i: int, j: int| 0 <= i < j < s.len() ==> fact_lt(#[trigger] s[i], #[trigger] s[j])
}

/// The views of a run of facts, in order.
pub open spec fn fact_seq(items: Seq<Fact>) -> Seq<(Seq<char>, Seq<char>)> {
    Seq::new(items.len(), |i: int| items[i]@)
}

/// The order of facts is transitive.
pub proof fn lemma_fact_lt_transitive(
    a: (Seq<char>, Seq<char>),
    b: (Seq<char>, Seq<char>),
    c: (Seq<char>, Seq<char>),
)
    requires
        fact_lt(a, b),
        fact_lt(b, c),
    ensures
        fact_lt(a, c),
{
    if text_lt(a.0, b.0) {
        if text_lt(b.0, c.0) {
            lemma_text_lt_transitive(a.0, b.0, c.0);
        }
    } else if !text_lt(b.0, c.0) {
        lemma_text_lt_transitive(a.1, b.1, c.1);
    }
}

/// No fact is below itself.
pub proof fn lemma_fact_lt_irreflexive(a: (Seq<char>, Seq<char>))
    ensures
        !fact_lt(a, a),
{
    lemma_text_lt_irreflexive(a.0);
    lemma_text_lt_irreflexive(a.1);
}

/// Of two different facts one is below the other.
pub proof fn lemma_fact_lt_total(a: (Seq<char>, Seq<char>), b: (Seq<char>, Seq<char>))
    ensures
        a == b || fact_lt(a, b) || fact_lt(b, a),
{
    lemma_text_lt_total(a.0, b.0);
    lemma_text_lt_total(a.1, b.1);
}

/// Two listings in order that hold the same facts are the same listing: the order in which
/// a set of facts is written is fixed by the set.
pub proof fn lemma_sorted_listing_unique(
    a: Seq<(Seq<char>, Seq<char>)>,
    b: Seq<(Seq<char>, Seq<char>)>,
)
    requires
        facts_sorted(a),
        facts_sorted(b),
        forall|p: (Seq<char>, Seq<char>)| a.contains(p) <==> b.contains(p),
    ensures
        a == b,
    decreases a.len(),
{
    if a.len() == 0 {
        if b.len() > 0 {
            assert(b.contains(b[0]));
            assert(a.contains(b[0]));
        }
        assert(a =~= b);
    } else {
        assert(a.contains(a[0]));
        assert(b.contains(a[0]));
        let j = choose|j: int| 0 <= j < b.len() && b[j] == a[0];
        assert(b.contains(b[0]));
        assert(a.contains(b[0]));
        let i = choose|i: int| 0 <= i < a.len() && a[i] == b[0];
        if j > 0 {
            assert(fact_lt(b[0], b[j]));
            if i > 0 {
                assert(fact_lt(a[0], a[i]));
                lemma_fact_lt_transitive(a[0], b[0], a[0]);
            }
            lemma_fact_lt_irreflexive(a[0]);
        }
        assert(a[0] == b[0]);
        let ra = a.drop_first();
        let rb = b.drop_first();
        assert forall|x: int, y: int| 0 <= x < y < ra.len() implies fact_lt(
            #[trigger] ra[x],
            #[trigger] ra[y],
        ) by {
            assert(fact_lt(a[x + 1], a[y + 1]));
        }
        assert forall|x: int, y: int| 0 <= x < y < rb.len() implies fact_lt(
            #[trigger] rb[x],
            #[trigger] rb[y],
        ) by {
            assert(fact_lt(b[x + 1], b[y + 1]));
        }
        assert forall|p: (Seq<char>, Seq<char>)| ra.contains(p) <==> rb.contains(p) by {
            if ra.contains(p) {
                let k = choose|k: int| 0 <= k < ra.len() && ra[k] == p;
                assert(a[k + 1] == p);
                assert(a.contains(p));
                assert(fact_lt(a[0], a[k + 1]));
                lemma_fact_lt_irreflexive(p);
                let m = choose|m: int| 0 <= m < b.len() && b[m] == p;
                assert(m > 0);
                assert(rb[m - 1] == p);
            }
            if rb.contains(p) {
                let k = choose|k: int| 0 <= k < rb.len() && rb[k] == p;
                assert(b[k + 1] == p);
                assert(b.contains(p));
                assert(fact_lt(b[0], b[k + 1]));
                lemma_fact_lt_irreflexive(p);
                let m = choose|m: int| 0 <= m < a.len() && a[m] == p;
                assert(m > 0);
                assert(ra[m - 1] == p);
            }
        }
        lemma_sorted_listing_unique(ra, rb);
        assert(a =~= seq![a[0]] + ra);
        assert(b =~= seq![b[0]] + rb);
    }
}

/// A set of facts, kept in the order of [`fact_lt`], each fact once.
#[derive(Debug)]
pub struct FactSet {
    items: Vec<Fact>,
}

impl View for FactSet {
    type V = Set<(Seq<char>, Seq<char>)>;

    closed spec fn view(&self) -> Set<(Seq<char>, Seq<char>)> {
        Set::new(|p: (Seq<char>, Seq<char>)| fact_seq(self.items@).contains(p))
    }
}

impl FactSet {
    #[verifier::type_invariant]
    spec fn sorted(&self) -> bool {
        facts_sorted(fact_seq(self.items@))
    }

    /// The facts in their order, each once.
    pub closed spec fn listing(&self) -> Seq<(Seq<char>, Seq<char>)> {
        fact_seq(self.items@)
    }

    /// The listing holds exactly the facts of the set.
    pub proof fn lemma_listing(&self)
        ensures
            forall|p: (Seq<char>, Seq<char>)| self@.contains(p) <==> self.listing().contains(p),
    {
    }

    /// The empty set.
    pub fn new() -> (r: FactSet)
        ensures
            r@ == Set::<(Seq<char>, Seq<char>)>::empty(),
            r.listing().len() == 0,
            facts_sorted(r.listing()),
    {
        let r = FactSet { items: Vec::new() };
        assert(r@ =~= Set::<(Seq<char>, Seq<char>)>::empty());
        r
    }

    /// How many facts the set holds.
    pub fn len(&self) -> (n: usize)
        ensures
            n == self.listing().len(),
            facts_sorted(self.listing()),
    {
        proof {
            use_type_invariant(self);
        }
        self.items.len()
    }

    /// Whether the set holds no fact.
    pub fn is_empty(&self) -> (r: bool)
        ensures
            r == (self.listing().len() == 0),
            r == (self@ == Set::<(Seq<char>, Seq<char>)>::empty()),
    {
        proof {
            if self.items.len() == 0 {
                assert(self@ =~= Set::<(Seq<char>, Seq<char>)>::empty());
            } else {
                assert(fact_seq(self.items@)[0] == self.items@[0]@);
                assert(self@.contains(self.items@[0]@));
            }
        }
        self.items.len() == 0
    }

    /// The fact at position `i` of the listing.
    pub fn get(&self, i: usize) -> (f: &Fact)
        requires
            i < self.listing().len(),
        ensures
            f@ == self.listing()[i as int],
    {
        &self.items[i]
    }

    /// Whether `a` stands before `b` in the order of facts.
    fn before(a: &Fact, claim: &Vec<char>, value: &Vec<char>) -> (r: bool)
        ensures
            r == fact_lt(a@, (claim@, value@)),
    {
        let ac = chars_of(a.claim_name.as_str());
        if chars_lt(&ac, claim) {
            true
        } else if chars_eq(&ac, claim) {
            let av = chars_of(a.value.as_str());
            chars_lt(&av, value)
        } else {
            false
        }
    }

    /// Whether the set holds the fact that `claim_name` has the value `value`.
    pub fn has(&self, claim_name: &str, value: &str) -> (r: bool)
        ensures
            r == self@.contains((claim_name@, value@)),
    {
        let ghost s = fact_seq(self.items@);
        let mut i: usize = 0;
        while i < self.items.len()
            invariant
                i <= self.items.len(),
                s == fact_seq(self.items@),
                forall|k: int| 0 <= k < i ==> (#[trigger] s[k]) != (claim_name@, value@),
            decreases self.items.len() - i,
        {
            if str_eq(self.items[i].claim_name.as_str(), claim_name) && str_eq(
                self.items[i].value.as_str(),
                value,
            ) {
                assert(s[i as int] == (claim_name@, value@));
                return true;
            }
            i += 1;
        }
        false
    }

    /// Whether the set holds `fact`.
    pub fn contains(&self, fact: &Fact) -> (r: bool)
        ensures
            r == self@.contains(fact@),
    {
        self.has(fact.claim_name.as_str(), fact.value.as_str())
    }

    /// Adds `fact` to the set. Returns whether it was new.
    pub fn insert(&mut self, fact: Fact) -> (r: bool)
        ensures
            final(self)@ == old(self)@.insert(fact@),
            r == !old(self)@.contains(fact@),
            facts_sorted(final(self).listing()),
    {
        proof {
            use_type_invariant(&*self);
        }
        let ghost s = fact_seq(self.items@);
        let ghost p = fact@;
        let claim = chars_of(fact.claim_name.as_str());
        let value = chars_of(fact.value.as_str());
        let mut i: usize = 0;
        while i < self.items.len() && Self::before(&self.items[i], &claim, &value)
            invariant
                i <= self.items.len(),
                s == fact_seq(self.items@),
                p == (claim@, value@),
                forall|k: int| 0 <= k < i ==> fact_lt(#[trigger] s[k], p),
            decreases self.items.len() - i,
        {
            i += 1;
        }
        if i < self.items.len() {
            assert(s[i as int] == self.items@[i as int]@);
            if str_eq(self.items[i].claim_name.as_str(), fact.claim_name.as_str()) && str_eq(
                self.items[i].value.as_str(),
                fact.value.as_str(),
            ) {
                assert(s.contains(p));
                assert(self@ =~= old(self)@.insert(p));
                return false;
            }
        }
        proof {
            // the fact stands below everything from `i` on, and is not in the set
            assert forall|k: int| i <= k < s.len() implies fact_lt(p, #[trigger] s[k]) by {
                lemma_fact_lt_total(s[i as int], p);
                if k > i {
                    lemma_fact_lt_transitive(p, s[i as int], s[k]);
                }
            }
            assert forall|k: int| 0 <= k < s.len() implies (#[trigger] s[k]) != p by {
                lemma_fact_lt_irreflexive(p);
            }
        }
        let mut out: Vec<Fact> = Vec::new();
        let mut j: usize = 0;
        while j < i
            invariant
                j <= i <= self.items.len(),
                s == fact_seq(self.items@),
                out@.len() == j,
                forall|k: int| 0 <= k < j ==> (#[trigger] out@[k])@ == s[k],
            decreases i - j,
        {
            out.push(self.items[j].clone_fact());
            j += 1;
        }
        out.push(fact);
        while j < self.items.len()
            invariant
                i <= j <= self.items.len(),
                s == fact_seq(self.items@),
                out@.len() == j + 1,
                forall|k: int| 0 <= k < i ==> (#[trigger] out@[k])@ == s[k],
                out@[i as int]@ == p,
                forall|k: int| i < k <= j ==> (#[trigger] out@[k])@ == s[k - 1],
            decreases self.items.len() - j,
        {
            out.push(self.items[j].clone_fact());
            j += 1;
        }
        proof {
            assert(fact_seq(out@) =~= s.insert(i as int, p));
        }
        self.items = out;
        proof {
            let t = fact_seq(self.items@);
            assert(t =~= s.insert(i as int, p));
            assert forall|a: int, b: int| 0 <= a < b < t.len() implies fact_lt(
                #[trigger] t[a],
                #[trigger] t[b],
            ) by {
                if a < i && b > i {
                    lemma_fact_lt_transitive(t[a], p, t[b]);
                }
            }
            assert forall|q: (Seq<char>, Seq<char>)| t.contains(q) <==> (s.contains(q) || q
                == p) by {
                if t.contains(q) {
                    let k = choose|k: int| 0 <= k < t.len() && t[k] == q;
                    if k < i {
                        assert(s[k] == q);
                    } else if k > i {
                        assert(s[k - 1] == q);
                    }
                }
                if s.contains(q) {
                    let k = choose|k: int| 0 <= k < s.len() && s[k] == q;
                    if k < i {
                        assert(t[k] == q);
                    } else {
                        assert(t[k + 1] == q);
                    }
                }
                if q == p {
                    assert(t[i as int] == q);
                }
            }
            assert(self@ =~= old(self)@.insert(p));
        }
        true
    }
}


/// The facts that a selected value gives under the claim name `name`.
///
/// A sequence gives the facts of each item and its length under `name.__length`; a mapping
/// gives `{object}` and, for each entry, the facts of its value under `name.key`; null
/// gives nothing; any other value gives its flat text.
pub open spec fn facts_of(name: Seq<char>, v: ValueView) -> Set<(Seq<char>, Seq<char>)>
    decreases v,
{
    match v {
        ValueView::Sequence(items) => facts_of_items(name, items).insert(
            (name + ".__length"@, decimal(items.len())),
        ),
        ValueView::Mapping(entries) => facts_of_entries(name, entries).insert(
            (name, "{object}"@),
        ),
        ValueView::Null => Set::empty(),
        _ => Set::empty().insert((name, value_text(v))),
    }
}

/// The facts that each of `items` gives under `name`, together.
pub open spec fn facts_of_items(name: Seq<char>, items: Seq<ValueView>) -> Set<
    (Seq<char>, Seq<char>),
>
    decreases items,
{
    if items.len() == 0 {
        Set::empty()
    } else {
        facts_of_items(name, items.drop_last()).union(facts_of(name, items.last()))
    }
}

/// The facts that the value of each entry gives under `name.key`, together.
pub open spec fn facts_of_entries(name: Seq<char>, entries: Seq<(ValueView, ValueView)>) -> Set<
    (Seq<char>, Seq<char>),
>
    decreases entries,
{
    if entries.len() == 0 {
        Set::empty()
    } else {
        facts_of_entries(name, entries.drop_last()).union(
            facts_of(name + seq!['.'] + value_text(entries.last().0), entries.last().1),
        )
    }
}

/// The document with all facts under the one key `facts`.
pub open spec fn wrapped_document(doc: ValueView) -> ValueView {
    ValueView::Mapping(seq![(ValueView::String("facts"@), doc)])
}

/// What a selector selects for extraction: what it selects in the document and, where that
/// is nothing, what it selects in the document wrapped under the key `facts`.
pub open spec fn selected_for(segs: Seq<SegmentView>, doc: ValueView) -> Seq<ValueView> {
    let direct = select_values(segs, doc);
    if direct.len() == 0 {
        select_values(segs, wrapped_document(doc))
    } else {
        direct
    }
}

/// The facts of one claim: those of each value that its selector selects. A selector that
/// does not parse gives none.
pub open spec fn claim_facts(name: Seq<char>, selector: Seq<char>, doc: ValueView) -> Set<
    (Seq<char>, Seq<char>),
> {
    match parse_selector(selector) {
        Ok(segs) => facts_of_items(name, selected_for(segs, doc)),
        Err(_) => Set::empty(),
    }
}

/// The facts of the first `n` claims of a table, together.
pub open spec fn table_facts(table: Seq<(Seq<char>, Seq<char>)>, n: int, doc: ValueView) -> Set<
    (Seq<char>, Seq<char>),
>
    decreases n,
{
    if n <= 0 || n > table.len() {
        Set::empty()
    } else {
        table_facts(table, n - 1, doc).union(claim_facts(table[n - 1].0, table[n - 1].1, doc))
    }
}

/// The facts that the claims of a compiled rulespec give on an envelope.
pub open spec fn extracted_facts(envelope: EnvelopeView, compiled: CompiledRulespecView) -> Set<
    (Seq<char>, Seq<char>),
> {
    table_facts(compiled.claims, compiled.claims.len() as int, document_of(envelope.facts))
}

/// Values that are all null give no fact.
pub proof fn lemma_nulls_give_no_facts(name: Seq<char>, vals: Seq<ValueView>)
    requires
        forall|i: int| 0 <= i < vals.len() ==> (#[trigger] vals[i]) == ValueView::Null,
    ensures
        facts_of_items(name, vals) == Set::<(Seq<char>, Seq<char>)>::empty(),
    decreases vals.len(),
{
    if vals.len() > 0 {
        assert forall|i: int| 0 <= i < vals.drop_last().len() implies (
        #[trigger] vals.drop_last()[i]) == ValueView::Null by {
            assert(vals.drop_last()[i] == vals[i]);
        }
        lemma_nulls_give_no_facts(name, vals.drop_last());
        assert(vals.last() == vals[vals.len() - 1]);
        assert(facts_of(name, vals.last()) == Set::<(Seq<char>, Seq<char>)>::empty());
        assert(facts_of_items(name, vals) =~= Set::<(Seq<char>, Seq<char>)>::empty());
    }
}

/// Every fact that a value gives under a name is recorded under that name or under a name
/// that begins with it.
pub proof fn lemma_fact_names(name: Seq<char>, v: ValueView)
    ensures
        forall|f: (Seq<char>, Seq<char>)| #[trigger]
            facts_of(name, v).contains(f) ==> starts_with(f.0, name),
    decreases v,
{
    assert(name.subrange(0, name.len() as int) =~= name);
    assert forall|f: (Seq<char>, Seq<char>)| #[trigger]
        facts_of(name, v).contains(f) implies starts_with(f.0, name) by {
        match v {
            ValueView::Sequence(items) => {
                lemma_item_fact_names(name, items);
                let long = name + ".__length"@;
                assert(long.subrange(0, name.len() as int) =~= name);
                if f != (long, decimal(items.len())) {
                    assert(facts_of_items(name, items).contains(f));
                }
            },
            ValueView::Mapping(entries) => {
                lemma_entry_fact_names(name, entries);
                if f != (name, "{object}"@) {
                    assert(facts_of_entries(name, entries).contains(f));
                }
            },
            ValueView::Null => {},
            _ => {
                assert(f == (name, value_text(v)));
            },
        }
    }
}

/// Every fact that one of the items gives under a name is recorded under that name or
/// under a name that begins with it.
pub proof fn lemma_item_fact_names(name: Seq<char>, items: Seq<ValueView>)
    ensures
        forall|f: (Seq<char>, Seq<char>)| #[trigger]
            facts_of_items(name, items).contains(f) ==> starts_with(f.0, name),
    decreases items,
{
    if items.len() > 0 {
        lemma_item_fact_names(name, items.drop_last());
        lemma_fact_names(name, items.last());
        assert forall|f: (Seq<char>, Seq<char>)| #[trigger]
            facts_of_items(name, items).contains(f) implies starts_with(f.0, name) by {
            assert(facts_of_items(name, items.drop_last()).contains(f) || facts_of(
                name,
                items.last(),
            ).contains(f));
        }
    }
}

/// Every fact that the value of one of the entries gives is recorded under a name that
/// begins with the name of the mapping.
pub proof fn lemma_entry_fact_names(name: Seq<char>, entries: Seq<(ValueView, ValueView)>)
    ensures
        forall|f: (Seq<char>, Seq<char>)| #[trigger]
            facts_of_entries(name, entries).contains(f) ==> starts_with(f.0, name),
    decreases entries,
{
    if entries.len() > 0 {
        lemma_entry_fact_names(name, entries.drop_last());
        let inner = name + seq!['.'] + value_text(entries.last().0);
        lemma_fact_names(inner, entries.last().1);
        assert(inner.subrange(0, name.len() as int) =~= name);
        assert forall|f: (Seq<char>, Seq<char>)| #[trigger]
            facts_of_entries(name, entries).contains(f) implies starts_with(f.0, name) by {
            assert(facts_of_entries(name, entries.drop_last()).contains(f) || facts_of(
                inner,
                entries.last().1,
            ).contains(f));
            if facts_of(inner, entries.last().1).contains(f) {
                assert(starts_with(f.0, inner));
                assert(f.0.subrange(0, name.len() as int) =~= f.0.subrange(
                    0,
                    inner.len() as int,
                ).subrange(0, name.len() as int));
            }
        }
    }
}

/// Every fact of a claim is recorded under its name or under a name that begins with it.
pub proof fn lemma_claim_fact_names(name: Seq<char>, selector: Seq<char>, doc: ValueView)
    ensures
        forall|f: (Seq<char>, Seq<char>)| #[trigger]
            claim_facts(name, selector, doc).contains(f) ==> starts_with(f.0, name),
{
    match parse_selector(selector) {
        Ok(segs) => {
            lemma_item_fact_names(name, selected_for(segs, doc));
        },
        Err(_) => {},
    }
}

/// No fact is recorded under `name` by the first `n` claims of a table where none of them
/// has a name that `name` begins with.
pub proof fn lemma_other_claims_leave_name(
    table: Seq<(Seq<char>, Seq<char>)>,
    n: int,
    doc: ValueView,
    name: Seq<char>,
)
    requires
        0 <= n <= table.len(),
        forall|j: int| 0 <= j < n ==> !starts_with(name, (#[trigger] table[j]).0),
    ensures
        forall|v: Seq<char>| !table_facts(table, n, doc).contains((name, v)),
    decreases n,
{
    if n > 0 {
        lemma_other_claims_leave_name(table, n - 1, doc, name);
        let c = table[n - 1];
        assert(!starts_with(name, c.0));
        lemma_claim_fact_names(c.0, c.1, doc);
        assert forall|v: Seq<char>| !table_facts(table, n, doc).contains((name, v)) by {
            assert(!table_facts(table, n - 1, doc).contains((name, v)));
            if claim_facts(c.0, c.1, doc).contains((name, v)) {
                assert(starts_with((name, v).0, c.0));
            }
        }
    } else {
        assert forall|v: Seq<char>| !table_facts(table, n, doc).contains((name, v)) by {}
    }
}

/// A claim that gives no fact can be left out of the table: the facts of the table are those
/// of the table without it.
pub proof fn lemma_empty_claim_can_go(
    table: Seq<(Seq<char>, Seq<char>)>,
    n: int,
    doc: ValueView,
    c: int,
)
    requires
        0 <= c < table.len(),
        0 <= n <= table.len(),
        claim_facts(table[c].0, table[c].1, doc) == Set::<(Seq<char>, Seq<char>)>::empty(),
    ensures
        table_facts(table, n, doc) == table_facts(
            table.remove(c),
            if n <= c {
                n
            } else {
                n - 1
            },
            doc,
        ),
    decreases n,
{
    let rest = table.remove(c);
    if n > 0 {
        lemma_empty_claim_can_go(table, n - 1, doc, c);
        if n - 1 < c {
            assert(rest[n - 1] == table[n - 1]);
        } else if n - 1 == c {
            assert(table_facts(table, n, doc) =~= table_facts(table, n - 1, doc));
        } else {
            assert(rest[n - 2] == table[n - 1]);
        }
    }
}

/// Null suppression: a claim whose selector selects nothing but nulls gives no fact, so
/// that, where no other claim has a name that its name begins with, no fact is extracted
/// under its name, `exists` fails on it, `not_exists` passes, and the facts of the other
/// claims are what they are without it.
pub proof fn lemma_null_claim_is_absent(
    table: Seq<(Seq<char>, Seq<char>)>,
    doc: ValueView,
    c: int,
    expected: Option<Seq<char>>,
)
    requires
        0 <= c < table.len(),
        parse_selector(table[c].1) is Ok,
        forall|i: int|
            0 <= i < selected_for(parse_selector(table[c].1)->Ok_0, doc).len() ==> (
            #[trigger] selected_for(parse_selector(table[c].1)->Ok_0, doc)[i]) == ValueView::Null,
        forall|j: int|
            0 <= j < table.len() && j != c ==> !starts_with(table[c].0, (#[trigger] table[j]).0),
    ensures
        claim_facts(table[c].0, table[c].1, doc) == Set::<(Seq<char>, Seq<char>)>::empty(),
        forall|v: Seq<char>| !table_facts(table, table.len() as int, doc).contains((table[c].0, v)),
        !datalog_passes(
            PredicateRule::Exists,
            table[c].0,
            expected,
            table_facts(table, table.len() as int, doc),
        ),
        datalog_passes(
            PredicateRule::NotExists,
            table[c].0,
            expected,
            table_facts(table, table.len() as int, doc),
        ),
        table_facts(table, table.len() as int, doc) == table_facts(
            table.remove(c),
            table.len() - 1,
            doc,
        ),
{
    let name = table[c].0;
    let rest = table.remove(c);
    lemma_nulls_give_no_facts(name, selected_for(parse_selector(table[c].1)->Ok_0, doc));
    lemma_empty_claim_can_go(table, table.len() as int, doc, c);
    assert forall|j: int| 0 <= j < rest.len() implies !starts_with(name, (#[trigger] rest[j]).0) by {
        if j < c {
            assert(rest[j] == table[j]);
        } else {
            assert(rest[j] == table[j + 1]);
        }
    }
    lemma_other_claims_leave_name(rest, rest.len() as int, doc, name);
}

/// Builds `a`, then `b`, then `c`.
fn concat3(a: &str, b: &str, c: &str) -> (s: String)
    ensures
        s@ == a@ + b@ + c@,
{
    let mut out: Vec<char> = Vec::new();
    push_str(&mut out, a);
    push_str(&mut out, b);
    push_str(&mut out, c);
    assert(out@ =~= a@ + b@ + c@);
    string_of(&out)
}

/// Adds to `facts` the facts that `value` gives under `claim_name`.
#[verifier::loop_isolation(false)]
fn extract_values_recursive(claim_name: &str, value: &YamlValue, facts: &mut FactSet)
    ensures
        final(facts)@ == old(facts)@.union(facts_of(claim_name@, value@)),
    decreases value,
{
    let ghost before = facts@;
    match value {
        YamlValue::Sequence(items) => {
            proof {
                lemma_view_sequence(*items);
            }
            let ghost views = item_views(items@);
            let mut i: usize = 0;
            assert(views.take(0) =~= Seq::<ValueView>::empty());
            assert(facts@ =~= before.union(facts_of_items(claim_name@, views.take(0))));
            while i < items.len()
                invariant
                    i <= items.len(),
                    facts@ == before.union(facts_of_items(claim_name@, views.take(i as int))),
                decreases items.len() - i,
            {
                extract_values_recursive(claim_name, &items[i], facts);
                proof {
                    let t = views.take(i + 1);
                    assert(t.drop_last() =~= views.take(i as int));
                    assert(t.last() == items@[i as int]@);
                    assert(facts@ =~= before.union(facts_of_items(claim_name@, t)));
                }
                i += 1;
            }
            assert(views.take(i as int) =~= views);
            let name = concat3(claim_name, ".__length", "");
            let count = decimal_string(items.len() as u64);
            proof {
                reveal_strlit("");
                assert(name@ =~= claim_name@ + ".__length"@);
            }
            facts.insert(Fact { claim_name: name, value: count });
            assert(facts@ =~= before.union(facts_of(claim_name@, value@)));
        },
        YamlValue::Mapping(entries) => {
            proof {
                lemma_view_mapping(*entries);
            }
            let ghost views = entry_views(entries@);
            facts.insert(Fact::new(claim_name, "{object}"));
            let ghost marker = (claim_name@, "{object}"@);
            let mut i: usize = 0;
            assert(views.take(0) =~= Seq::<(ValueView, ValueView)>::empty());
            assert(facts@ =~= before.union(
                facts_of_entries(claim_name@, views.take(0)).insert(marker),
            ));
            while i < entries.len()
                invariant
                    i <= entries.len(),
                    facts@ == before.union(
                        facts_of_entries(claim_name@, views.take(i as int)).insert(marker),
                    ),
                decreases entries.len() - i,
            {
                let key = entries[i].0.to_text();
                let nested = concat3(claim_name, ".", key.as_str());
                proof {
                    reveal_strlit(".");
                    assert("."@ =~= seq!['.']);
                }
                extract_values_recursive(nested.as_str(), &entries[i].1, facts);
                proof {
                    let t = views.take(i + 1);
                    assert(t.drop_last() =~= views.take(i as int));
                    assert(t.last() == (entries@[i as int].0@, entries@[i as int].1@));
                    assert(facts@ =~= before.union(
                        facts_of_entries(claim_name@, t).insert(marker),
                    ));
                }
                i += 1;
            }
            assert(views.take(i as int) =~= views);
            assert(facts@ =~= before.union(facts_of(claim_name@, value@)));
        },
        YamlValue::Null => {
            assert(facts@ =~= before.union(facts_of(claim_name@, value@)));
        },
        _ => {
            let text = value.to_text();
            facts.insert(Fact { claim_name: claim_name.to_string(), value: text });
            assert(facts@ =~= before.union(facts_of(claim_name@, value@)));
        },
    }
}

/// Extracts the facts that the claims of a compiled rulespec give on an envelope.
///
/// Each claim's selector runs on the facts of the envelope and, where it selects nothing
/// there, on the same facts under the key `facts`. The result is the set
/// [`extracted_facts`].
pub fn extract_facts(envelope: &ActionEnvelope, compiled: &CompiledRulespec) -> (r: FactSet)
    ensures
        r@ == extracted_facts(envelope@, compiled@),
        facts_sorted(r.listing()),
{
    let mut facts = FactSet::new();
    let doc = envelope.to_yaml_value();
    let mut wrapped_entries: Vec<(YamlValue, YamlValue)> = Vec::new();
    wrapped_entries.push((YamlValue::String("facts".to_string()), doc.clone_value()));
    let wrapped = YamlValue::Mapping(wrapped_entries);
    proof {
        lemma_view_mapping(wrapped_entries);
        assert(entry_views(wrapped_entries@) =~= seq![(ValueView::String("facts"@), doc@)]);
    }
    let ghost table = compiled@.claims;
    let mut i: usize = 0;
    while i < compiled.claims.len()
        invariant
            i <= compiled.claims.len(),
            table == table_views(compiled.claims@),
            doc@ == document_of(envelope@.facts),
            wrapped@ == wrapped_document(doc@),
            facts@ == table_facts(table, i as int, doc@),
        decreases compiled.claims.len() - i,
    {
        let name = &compiled.claims[i].0;
        let selector_text = &compiled.claims[i].1;
        assert(table[i as int] == (name@, selector_text@));
        let ghost before = facts@;
        match Selector::parse(selector_text.as_str()) {
            Ok(selector) => {
                let direct = selector.select(&doc);
                let values = if direct.len() == 0 {
                    selector.select(&wrapped)
                } else {
                    direct
                };
                let ghost views = item_views(values@);
                assert(views == selected_for(selector@, doc@));
                let mut k: usize = 0;
                assert(views.take(0) =~= Seq::<ValueView>::empty());
                assert(facts@ =~= before.union(facts_of_items(name@, views.take(0))));
                while k < values.len()
                    invariant
                        k <= values.len(),
                        views == item_views(values@),
                        facts@ == before.union(facts_of_items(name@, views.take(k as int))),
                    decreases values.len() - k,
                {
                    extract_values_recursive(name.as_str(), &values[k], &mut facts);
                    proof {
                        let t = views.take(k + 1);
                        assert(t.drop_last() =~= views.take(k as int));
                        assert(t.last() == values@[k as int]@);
                        assert(facts@ =~= before.union(facts_of_items(name@, t)));
                    }
                    k += 1;
                }
                assert(views.take(k as int) =~= views);
            },
            Err(_) => {
                assert(facts@ =~= before.union(Set::<(Seq<char>, Seq<char>)>::empty()));
            },
        }
        i += 1;
    }
    proof {
        use_type_invariant(&facts);
    }
    facts
}


/// Whether some fact is recorded for `claim`.
pub open spec fn has_value(facts: Set<(Seq<char>, Seq<char>)>, claim: Seq<char>) -> bool {
    exists|v: Seq<char>| facts.contains((claim, v))
}

/// Whether `v` is the value of `claim` that comes first in the order of texts.
pub open spec fn is_least_value(
    facts: Set<(Seq<char>, Seq<char>)>,
    claim: Seq<char>,
    v: Seq<char>,
) -> bool {
    facts.contains((claim, v)) && forall|w: Seq<char>|
        facts.contains((claim, w)) ==> w == v || text_lt(v, w)
}

/// The value of `claim` that comes first in the order of texts, if it has one.
pub open spec fn least_value(facts: Set<(Seq<char>, Seq<char>)>, claim: Seq<char>) -> Option<
    Seq<char>,
> {
    if exists|v: Seq<char>| is_least_value(facts, claim, v) {
        Some(choose|v: Seq<char>| is_least_value(facts, claim, v))
    } else {
        None
    }
}

/// There is one least value at most.
pub proof fn lemma_least_value_unique(
    facts: Set<(Seq<char>, Seq<char>)>,
    claim: Seq<char>,
    v: Seq<char>,
)
    requires
        is_least_value(facts, claim, v),
    ensures
        least_value(facts, claim) == Some(v),
{
    let c = choose|x: Seq<char>| is_least_value(facts, claim, x);
    if c != v {
        assert(text_lt(v, c));
        assert(text_lt(c, v));
        lemma_text_lt_asymmetric(v, c);
    }
}

/// Number of `[` and `]` characters at the front of `s`.
pub open spec fn leading_brackets(s: Seq<char>) -> nat
    decreases s.len(),
{
    if s.len() > 0 && (s[0] == '[' || s[0] == ']') {
        1 + leading_brackets(s.drop_first())
    } else {
        0
    }
}

/// Number of `[` and `]` characters at the back of `s`.
pub open spec fn trailing_brackets(s: Seq<char>) -> nat
    decreases s.len(),
{
    if s.len() > 0 && (s.last() == '[' || s.last() == ']') {
        1 + trailing_brackets(s.drop_last())
    } else {
        0
    }
}

/// `s` without the brackets at either end.
pub open spec fn strip_brackets(s: Seq<char>) -> Seq<char> {
    let t = s.skip(leading_brackets(s) as int);
    t.take(t.len() - trailing_brackets(t))
}

/// The items that an operand written as a sequence holds: the parts between `", "` of
/// what stands between its brackets. No operand gives no items.
pub open spec fn members_of(expected: Option<Seq<char>>) -> Seq<Seq<char>> {
    match expected {
        Some(t) => split_texts(strip_brackets(t), seq![',', ' ']),
        None => Seq::empty(),
    }
}

/// The operand, or the empty text where there is none.
pub open spec fn expected_or_empty(expected: Option<Seq<char>>) -> Seq<char> {
    match expected {
        Some(t) => t,
        None => Seq::empty(),
    }
}

/// The count that a text holds, or `default` where it holds none.
pub open spec fn count_or(t: Option<Seq<char>>, default: nat) -> nat {
    match t {
        Some(s) => match parse_unsigned(s, usize::MAX as nat) {
            Some(n) => n,
            None => default,
        },
        None => default,
    }
}

/// The number that an operand holds, or zero where it holds none.
pub open spec fn number_or_zero(t: Option<Seq<char>>) -> Num {
    match t {
        Some(s) => match read_number(s) {
            Some(n) => n,
            None => Num::Finite { negative: false, digits: Seq::empty(), exp: 0 },
        },
        None => Num::Finite { negative: false, digits: Seq::empty(), exp: 0 },
    }
}

/// Whether the rule holds of the facts recorded for `claim`.
///
/// - `exists`, `not_exists`: the claim has a value, or has none.
/// - `contains`: the operand is one of the values. `not_contains`: it is not.
/// - `equals`: the operand is the only value.
/// - `any_of`: some value is an item of the operand. `none_of`: none is.
/// - `min_length`, `max_length`: the length recorded under `claim.__length`, zero where
///   none is, is at least the operand, or at most it. An operand that is no count stands
///   for zero, or for the largest count.
/// - `greater_than`, `less_than`: the first value in the order of texts is a number above
///   the operand, or below it. An operand that is no number stands for zero.
/// - `matches`: the operand, as a regular expression, matches some value.
pub open spec fn datalog_passes(
    rule: PredicateRule,
    claim: Seq<char>,
    expected: Option<Seq<char>>,
    facts: Set<(Seq<char>, Seq<char>)>,
) -> bool {
    match rule {
        PredicateRule::Exists => has_value(facts, claim),
        PredicateRule::NotExists => !has_value(facts, claim),
        PredicateRule::Contains => facts.contains((claim, expected_or_empty(expected))),
        PredicateRule::NotContains => !facts.contains((claim, expected_or_empty(expected))),
        PredicateRule::Equals => facts.contains((claim, expected_or_empty(expected)))
            && forall|w: Seq<char>|
            facts.contains((claim, w)) ==> w == expected_or_empty(expected),
        PredicateRule::AnyOf => exists|v: Seq<char>|
            facts.contains((claim, v)) && members_of(expected).contains(v),
        PredicateRule::NoneOf => forall|v: Seq<char>|
            facts.contains((claim, v)) ==> !members_of(expected).contains(v),
        PredicateRule::MinLength => count_or(least_value(facts, claim + ".__length"@), 0)
            >= count_or(expected, 0),
        PredicateRule::MaxLength => count_or(least_value(facts, claim + ".__length"@), 0)
            <= count_or(expected, usize::MAX as nat),
        PredicateRule::GreaterThan => match least_value(facts, claim) {
            Some(t) => match read_number(t) {
                Some(n) => num_lt(number_or_zero(expected), n),
                None => false,
            },
            None => false,
        },
        PredicateRule::LessThan => match least_value(facts, claim) {
            Some(t) => match read_number(t) {
                Some(n) => num_lt(n, number_or_zero(expected)),
                None => false,
            },
            None => false,
        },
        PredicateRule::Matches => exists|v: Seq<char>|
            facts.contains((claim, v)) && regex_verdict(expected_or_empty(expected), v) == Some(
                true,
            ),
    }
}

/// Whether the guard of a compiled predicate holds of the facts.
pub open spec fn compiled_guard_holds(
    w: CompiledWhenView,
    facts: Set<(Seq<char>, Seq<char>)>,
) -> bool {
    datalog_passes(w.rule, w.claim_name, w.expected_value, facts)
}

/// Whether a compiled predicate passes: vacuously where it has a guard that does not hold,
/// else where its rule holds of the facts.
pub open spec fn compiled_passes(
    p: CompiledPredicateView,
    facts: Set<(Seq<char>, Seq<char>)>,
) -> bool {
    match p.when {
        Some(w) => !compiled_guard_holds(w, facts) || datalog_passes(
            p.rule,
            p.claim_name,
            p.expected_value,
            facts,
        ),
        None => datalog_passes(p.rule, p.claim_name, p.expected_value, facts),
    }
}

/// A compiled predicate whose guard does not hold passes, whatever its own rule would give.
pub proof fn lemma_compiled_vacuous_when(
    p: CompiledPredicateView,
    facts: Set<(Seq<char>, Seq<char>)>,
)
    requires
        p.when is Some,
        !compiled_guard_holds(p.when->0, facts),
    ensures
        compiled_passes(p, facts),
{
}

/// Where no fact is recorded for a claim, `exists` fails on it and `not_exists` passes.
pub proof fn lemma_no_facts_means_absent(
    claim: Seq<char>,
    expected: Option<Seq<char>>,
    facts: Set<(Seq<char>, Seq<char>)>,
)
    requires
        forall|v: Seq<char>| !facts.contains((claim, v)),
    ensures
        !datalog_passes(PredicateRule::Exists, claim, expected, facts),
        datalog_passes(PredicateRule::NotExists, claim, expected, facts),
{
}

impl FactSet {
    /// Whether some fact is recorded for `claim`.
    pub fn has_claim(&self, claim: &str) -> (r: bool)
        ensures
            r == has_value(self@, claim@),
    {
        let ghost s = fact_seq(self.items@);
        let mut i: usize = 0;
        while i < self.items.len()
            invariant
                i <= self.items.len(),
                s == fact_seq(self.items@),
                forall|k: int| 0 <= k < i ==> (#[trigger] s[k]).0 != claim@,
            decreases self.items.len() - i,
        {
            if str_eq(self.items[i].claim_name.as_str(), claim) {
                assert(s[i as int] == (claim@, self.items@[i as int].value@));
                assert(s.contains((claim@, self.items@[i as int].value@)));
                assert(self@.contains((claim@, self.items@[i as int].value@)));
                return true;
            }
            i += 1;
        }
        assert forall|v: Seq<char>| !self@.contains((claim@, v)) by {
            if s.contains((claim@, v)) {
                let k = choose|k: int| 0 <= k < s.len() && s[k] == (claim@, v);
                assert(s[k].0 == claim@);
            }
        }
        false
    }

    /// The value of `claim` that comes first in the order of texts.
    pub fn first_value(&self, claim: &str) -> (r: Option<&String>)
        ensures
            match r {
                Some(v) => least_value(self@, claim@) == Some(v@),
                None => least_value(self@, claim@) is None,
            },
    {
        proof {
            use_type_invariant(self);
        }
        let ghost s = fact_seq(self.items@);
        let mut i: usize = 0;
        while i < self.items.len()
            invariant
                i <= self.items.len(),
                s == fact_seq(self.items@),
                facts_sorted(s),
                forall|k: int| 0 <= k < i ==> (#[trigger] s[k]).0 != claim@,
            decreases self.items.len() - i,
        {
            if str_eq(self.items[i].claim_name.as_str(), claim) {
                let v = &self.items[i].value;
                proof {
                    assert(s[i as int] == (claim@, v@));
                    assert(s.contains((claim@, v@)));
                    assert forall|w: Seq<char>| self@.contains((claim@, w)) implies w == v@
                        || text_lt(v@, w) by {
                        let k = choose|k: int| 0 <= k < s.len() && s[k] == (claim@, w);
                        if k < i {
                            assert(s[k].0 != claim@);
                        } else if k > i {
                            assert(fact_lt(s[i as int], s[k]));
                            lemma_text_lt_irreflexive(claim@);
                        }
                    }
                    lemma_least_value_unique(self@, claim@, v@);
                }
                return Some(v);
            }
            i += 1;
        }
        proof {
            assert forall|v: Seq<char>| !is_least_value(self@, claim@, v) by {
                if s.contains((claim@, v)) {
                    let k = choose|k: int| 0 <= k < s.len() && s[k] == (claim@, v);
                    assert(s[k].0 == claim@);
                }
            }
        }
        None
    }

    /// Whether `value` is the only value recorded for `claim`, if any is.
    pub fn no_other_value(&self, claim: &str, value: &str) -> (r: bool)
        ensures
            r == (forall|w: Seq<char>| self@.contains((claim@, w)) ==> w == value@),
    {
        let ghost s = fact_seq(self.items@);
        let mut i: usize = 0;
        while i < self.items.len()
            invariant
                i <= self.items.len(),
                s == fact_seq(self.items@),
                forall|k: int| 0 <= k < i ==> (#[trigger] s[k]).0 == claim@ ==> s[k].1 == value@,
            decreases self.items.len() - i,
        {
            if str_eq(self.items[i].claim_name.as_str(), claim) && !str_eq(
                self.items[i].value.as_str(),
                value,
            ) {
                assert(s[i as int] == (claim@, self.items@[i as int].value@));
                assert(s.contains((claim@, self.items@[i as int].value@)));
                assert(self@.contains((claim@, self.items@[i as int].value@)));
                return false;
            }
            i += 1;
        }
        assert forall|w: Seq<char>| self@.contains((claim@, w)) implies w == value@ by {
            let k = choose|k: int| 0 <= k < s.len() && s[k] == (claim@, w);
            assert(s[k].0 == claim@);
        }
        true
    }

    /// Whether some value recorded for `claim` is one of `set`.
    pub fn any_value_in(&self, claim: &str, set: &Vec<Vec<char>>) -> (r: bool)
        ensures
            r == (exists|v: Seq<char>|
                self@.contains((claim@, v)) && part_views(set@).contains(v)),
    {
        let ghost s = fact_seq(self.items@);
        let mut i: usize = 0;
        while i < self.items.len()
            invariant
                i <= self.items.len(),
                s == fact_seq(self.items@),
                forall|k: int|
                    0 <= k < i ==> !((#[trigger] s[k]).0 == claim@ && part_views(set@).contains(
                        s[k].1,
                    )),
            decreases self.items.len() - i,
        {
            if str_eq(self.items[i].claim_name.as_str(), claim) {
                let value = chars_of(self.items[i].value.as_str());
                if is_part(set, &value) {
                    assert(s[i as int] == (claim@, value@));
                    assert(s.contains((claim@, value@)));
                    return true;
                }
            }
            i += 1;
        }
        assert forall|v: Seq<char>|
            !(self@.contains((claim@, v)) && part_views(set@).contains(v)) by {
            if s.contains((claim@, v)) {
                let k = choose|k: int| 0 <= k < s.len() && s[k] == (claim@, v);
                assert(s[k].0 == claim@);
            }
        }
        false
    }

    /// Whether the pattern matches some value recorded for `claim`.
    pub(crate) fn any_value_matches(&self, claim: &str, pattern: &Pattern) -> (r: bool)
        ensures
            r == (exists|v: Seq<char>|
                self@.contains((claim@, v)) && regex_accepts(pattern.source(), v)),
    {
        let ghost s = fact_seq(self.items@);
        let mut i: usize = 0;
        while i < self.items.len()
            invariant
                i <= self.items.len(),
                s == fact_seq(self.items@),
                forall|k: int|
                    0 <= k < i ==> !((#[trigger] s[k]).0 == claim@ && regex_accepts(
                        pattern.source(),
                        s[k].1,
                    )),
            decreases self.items.len() - i,
        {
            if str_eq(self.items[i].claim_name.as_str(), claim) {
                if is_match(pattern, self.items[i].value.as_str()) {
                    assert(s[i as int] == (claim@, self.items@[i as int].value@));
                    assert(s.contains((claim@, self.items@[i as int].value@)));
                    return true;
                }
            }
            i += 1;
        }
        assert forall|v: Seq<char>|
            !(self@.contains((claim@, v)) && regex_accepts(pattern.source(), v)) by {
            if s.contains((claim@, v)) {
                let k = choose|k: int| 0 <= k < s.len() && s[k] == (claim@, v);
                assert(s[k].0 == claim@);
            }
        }
        false
    }
}

/// Whether `value` is one of `parts`.
fn is_part(parts: &Vec<Vec<char>>, value: &Vec<char>) -> (r: bool)
    ensures
        r == part_views(parts@).contains(value@),
{
    let ghost views = part_views(parts@);
    let mut j: usize = 0;
    while j < parts.len()
        invariant
            j <= parts.len(),
            views == part_views(parts@),
            forall|k: int| 0 <= k < j ==> (#[trigger] views[k]) != value@,
        decreases parts.len() - j,
    {
        if chars_eq(&parts[j], value) {
            assert(views[j as int] == value@);
            return true;
        }
        j += 1;
    }
    false
}


proof fn lemma_leading_brackets_is(s: Seq<char>, n: int)
    requires
        0 <= n <= s.len(),
        forall|i: int| 0 <= i < n ==> (#[trigger] s[i]) == '[' || s[i] == ']',
        n < s.len() ==> !(s[n] == '[' || s[n] == ']'),
    ensures
        leading_brackets(s) == n,
    decreases n,
{
    if n > 0 {
        assert(s[0] == '[' || s[0] == ']');
        let t = s.drop_first();
        assert forall|i: int| 0 <= i < n - 1 implies (#[trigger] t[i]) == '[' || t[i] == ']' by {
            assert(t[i] == s[i + 1]);
        }
        lemma_leading_brackets_is(t, n - 1);
    }
}

proof fn lemma_trailing_brackets_is(s: Seq<char>, n: int)
    requires
        0 <= n <= s.len(),
        forall|i: int| s.len() - n <= i < s.len() ==> (#[trigger] s[i]) == '[' || s[i] == ']',
        n < s.len() ==> !(s[s.len() - n - 1] == '[' || s[s.len() - n - 1] == ']'),
    ensures
        trailing_brackets(s) == n,
    decreases n,
{
    if n > 0 {
        assert(s[s.len() - 1] == '[' || s[s.len() - 1] == ']');
        let t = s.drop_last();
        assert forall|i: int| t.len() - (n - 1) <= i < t.len() implies (#[trigger] t[i]) == '['
            || t[i] == ']' by {
            assert(t[i] == s[i]);
        }
        lemma_trailing_brackets_is(t, n - 1);
    }
}

/// `v` without the brackets at either end.
fn strip_bracket_chars(v: &Vec<char>) -> (r: Vec<char>)
    ensures
        r@ == strip_brackets(v@),
{
    let mut start: usize = 0;
    while start < v.len() && (v[start] == '[' || v[start] == ']')
        invariant
            start <= v.len(),
            forall|i: int| 0 <= i < start ==> (#[trigger] v@[i]) == '[' || v@[i] == ']',
        decreases v.len() - start,
    {
        start += 1;
    }
    proof {
        lemma_leading_brackets_is(v@, start as int);
    }
    let ghost t = v@.skip(start as int);
    let mut end: usize = v.len();
    while end > start && (v[end - 1] == '[' || v[end - 1] == ']')
        invariant
            start <= end <= v.len(),
            t == v@.skip(start as int),
            forall|i: int| end - start <= i < t.len() ==> (#[trigger] t[i]) == '[' || t[i] == ']',
        decreases end,
    {
        end -= 1;
    }
    proof {
        if end > start {
            assert(t[end - start - 1] == v@[end - 1]);
        }
        lemma_trailing_brackets_is(t, v.len() - end);
        assert(t.take(t.len() - (v.len() - end)) =~= v@.subrange(start as int, end as int));
    }
    slice_chars(v, start, end)
}

/// The items that an operand written as a sequence holds.
fn members(expected: &Option<String>) -> (r: Vec<Vec<char>>)
    ensures
        part_views(r@) == members_of(text_view(*expected)),
{
    match expected {
        Some(t) => {
            let inner = strip_bracket_chars(&chars_of(t.as_str()));
            let sep = vec![',', ' '];
            assert(sep@ =~= seq![',', ' ']);
            split_chars(&inner, &sep)
        },
        None => {
            let r: Vec<Vec<char>> = Vec::new();
            assert(part_views(r@) =~= Seq::<Seq<char>>::empty());
            r
        },
    }
}

/// The count that a text holds, or `default` where it holds none.
fn count_from(t: Option<&String>, default: usize) -> (n: usize)
    ensures
        n == count_or(
            match t {
                Some(s) => Some(s@),
                None => None,
            },
            default as nat,
        ),
{
    match t {
        Some(s) => match parse_u64(&chars_of(s.as_str())) {
            Some(n) => if n <= usize::MAX as u64 {
                n as usize
            } else {
                default
            },
            None => default,
        },
        None => default,
    }
}

/// The number that an operand holds, or zero where it holds none.
fn number_from(t: &Option<String>) -> (d: Decimal)
    ensures
        d@ == number_or_zero(text_view(*t)),
{
    let parsed = match t {
        Some(s) => Decimal::parse(s.as_str()),
        None => None,
    };
    match parsed {
        Some(d) => d,
        None => {
            let z = Decimal::Finite { negative: false, digits: Vec::new(), exp: 0 };
            assert(z@->Finite_digits =~= Seq::<char>::empty());
            z
        },
    }
}

/// The outcome of one compiled predicate.
#[derive(Clone, Debug, PartialEq, Eq)]
pub struct DatalogPredicateResult {
    /// Number of the predicate.
    pub id: usize,
    /// Name of its claim.
    pub claim_name: String,
    /// Its rule.
    pub rule: PredicateRule,
    /// Its operand as text.
    pub expected_value: Option<String>,
    /// Whether it holds.
    pub passed: bool,
    /// An explanation for a human reader.
    pub reason: String,
    /// Where the invariant was taken from.
    pub source: InvariantSource,
    /// Free text that explains the invariant.
    pub notes: Option<String>,
}

/// The outcomes of all compiled predicates.
#[derive(Clone, Debug, PartialEq, Eq)]
pub struct DatalogExecutionResult {
    /// One outcome for each predicate, in order.
    pub predicate_results: Vec<DatalogPredicateResult>,
    /// How many facts were evaluated.
    pub fact_count: usize,
    /// How many predicates passed.
    pub passed_count: usize,
    /// How many predicates failed.
    pub failed_count: usize,
}

impl DatalogExecutionResult {
    /// Whether no predicate failed.
    pub fn all_passed(&self) -> (r: bool)
        ensures
            r == (self.failed_count == 0),
    {
        self.failed_count == 0
    }
}

/// What is said of a claim for which no fact is recorded.
pub open spec fn absent_text(claim: Seq<char>) -> Seq<char> {
    "Claim '"@ + claim + "' has no values"@
}

/// What is said of a recorded length beside its bound.
pub open spec fn length_text(length: nat, relation: Seq<char>, bound: nat, suffix: Seq<char>) -> Seq<
    char,
> {
    "Length "@ + decimal(length) + relation + decimal(bound) + suffix
}

/// What is said of a value beside the operand it was compared with.
pub open spec fn comparison_text(value: Seq<char>, relation: Seq<char>, operand: Seq<char>) -> Seq<
    char,
> {
    value + relation + operand
}

/// The explanation that goes with the verdict of a rule on the facts recorded for `claim`:
/// what was found, and what was asked for where the two differ.
pub open spec fn datalog_reason(
    rule: PredicateRule,
    claim: Seq<char>,
    expected: Option<Seq<char>>,
    facts: Set<(Seq<char>, Seq<char>)>,
) -> Seq<char> {
    let operand = expected_or_empty(expected);
    let passes = datalog_passes(rule, claim, expected, facts);
    match rule {
        PredicateRule::Exists => if passes {
            "Value exists"@
        } else {
            "Value does not exist"@
        },
        PredicateRule::NotExists => if passes {
            "Value does not exist as expected"@
        } else {
            "Value exists but should not"@
        },
        PredicateRule::Contains => if passes {
            "Contains '"@ + operand + "'"@
        } else if has_value(facts, claim) {
            "Does not contain '"@ + operand + "'"@
        } else {
            absent_text(claim)
        },
        PredicateRule::NotContains => if !passes {
            "Contains '"@ + operand + "' but should not"@
        } else if has_value(facts, claim) {
            "Does not contain '"@ + operand + "'"@
        } else {
            "Claim '"@ + claim + "' has no values (not_contains passes vacuously)"@
        },
        PredicateRule::Equals => if !has_value(facts, claim) {
            absent_text(claim)
        } else if passes {
            "Equals '"@ + operand + "'"@
        } else if facts.contains((claim, operand)) {
            "Multiple values found, expected single value '"@ + operand + "'"@
        } else {
            "Expected '"@ + operand + "', got '"@ + (match least_value(facts, claim) {
                Some(v) => v,
                None => "<none>"@,
            }) + "'"@
        },
        PredicateRule::MinLength => {
            let length = count_or(least_value(facts, claim + ".__length"@), 0);
            if passes {
                length_text(length, " >= "@, count_or(expected, 0), ""@)
            } else {
                length_text(length, " < "@, count_or(expected, 0), " (minimum)"@)
            }
        },
        PredicateRule::MaxLength => {
            let length = count_or(least_value(facts, claim + ".__length"@), 0);
            if passes {
                length_text(length, " <= "@, count_or(expected, usize::MAX as nat), ""@)
            } else {
                length_text(length, " > "@, count_or(expected, usize::MAX as nat), " (maximum)"@)
            }
        },
        PredicateRule::GreaterThan => match least_value(facts, claim) {
            Some(t) => if read_number(t) is None {
                "Value is not a number"@
            } else if passes {
                comparison_text(t, " > "@, operand)
            } else {
                comparison_text(t, " is not > "@, operand)
            },
            None => absent_text(claim),
        },
        PredicateRule::LessThan => match least_value(facts, claim) {
            Some(t) => if read_number(t) is None {
                "Value is not a number"@
            } else if passes {
                comparison_text(t, " < "@, operand)
            } else {
                comparison_text(t, " is not < "@, operand)
            },
            None => absent_text(claim),
        },
        PredicateRule::Matches => if !regex_valid(operand) {
            "Invalid regex: "@ + operand
        } else if passes {
            "Matches pattern '"@ + operand + "'"@
        } else if has_value(facts, claim) {
            "No value matches pattern '"@ + operand + "'"@
        } else {
            absent_text(claim)
        },
        PredicateRule::AnyOf => if passes {
            "Value is in allowed set"@
        } else if has_value(facts, claim) {
            "Value is not in allowed set"@
        } else {
            absent_text(claim)
        },
        PredicateRule::NoneOf => if !passes {
            "Value is in forbidden set"@
        } else if has_value(facts, claim) {
            "Value is not in forbidden set"@
        } else {
            "Claim '"@ + claim + "' has no values (none_of passes vacuously)"@
        },
    }
}

/// What is said of a predicate that was skipped because its guard does not hold.
pub open spec fn skipped_text() -> Seq<char> {
    "Skipped (when condition not met)"@
}

/// The explanation that goes with the outcome of a compiled predicate: that it was skipped,
/// where its guard does not hold, and else that of its rule.
pub open spec fn compiled_reason(
    p: CompiledPredicateView,
    facts: Set<(Seq<char>, Seq<char>)>,
) -> Seq<char> {
    if p.when is Some && !compiled_guard_holds(p.when->0, facts) {
        skipped_text()
    } else {
        datalog_reason(p.rule, p.claim_name, p.expected_value, facts)
    }
}

/// The explanation of a rule that was applied is never that of a skipped predicate.
pub proof fn lemma_rule_reason_not_skipped(
    rule: PredicateRule,
    claim: Seq<char>,
    expected: Option<Seq<char>>,
    facts: Set<(Seq<char>, Seq<char>)>,
)
    ensures
        datalog_reason(rule, claim, expected, facts) != skipped_text(),
{
    let reason = datalog_reason(rule, claim, expected, facts);
    let skipped = skipped_text();
    reveal_strlit("Skipped (when condition not met)");
    assert(skipped.len() == 32 && skipped[0] == 'S');
    assert(forall|i: int| 0 <= i < 32 ==> skipped[i] != '>' && skipped[i] != '<');
    reveal_strlit("Value exists");
    reveal_strlit("Value does not exist");
    reveal_strlit("Value does not exist as expected");
    reveal_strlit("Value exists but should not");
    reveal_strlit("Contains '");
    reveal_strlit("Does not contain '");
    reveal_strlit("Claim '");
    reveal_strlit("Equals '");
    reveal_strlit("Multiple values found, expected single value '");
    reveal_strlit("Expected '");
    reveal_strlit("Length ");
    reveal_strlit("Value is not a number");
    reveal_strlit("Invalid regex: ");
    reveal_strlit("Matches pattern '");
    reveal_strlit("No value matches pattern '");
    reveal_strlit("Value is in allowed set");
    reveal_strlit("Value is not in allowed set");
    reveal_strlit("Value is in forbidden set");
    reveal_strlit("Value is not in forbidden set");
    reveal_strlit(" > ");
    reveal_strlit(" < ");
    reveal_strlit(" is not > ");
    reveal_strlit(" is not < ");
    match rule {
        PredicateRule::GreaterThan | PredicateRule::LessThan => {
            match least_value(facts, claim) {
                Some(t) => {
                    if read_number(t) is Some && reason == skipped {
                        let relation = if rule is GreaterThan {
                            if datalog_passes(rule, claim, expected, facts) {
                                " > "@
                            } else {
                                " is not > "@
                            }
                        } else {
                            if datalog_passes(rule, claim, expected, facts) {
                                " < "@
                            } else {
                                " is not < "@
                            }
                        };
                        let operand = expected_or_empty(expected);
                        assert(reason == t + relation + operand);
                        let k = t.len() + relation.len() - 2;
                        assert(reason[k] == relation[relation.len() - 2]);
                        assert(reason[k] == '>' || reason[k] == '<');
                    }
                },
                None => {
                    assert(reason[0] == 'C');
                },
            }
        },
        PredicateRule::Exists | PredicateRule::NotExists => {
            assert(reason[0] == 'V');
        },
        PredicateRule::Contains | PredicateRule::NotContains => {
            assert(reason[0] == 'C' || reason[0] == 'D');
        },
        PredicateRule::Equals => {
            assert(reason[0] == 'C' || reason[0] == 'E' || reason[0] == 'M');
        },
        PredicateRule::MinLength | PredicateRule::MaxLength => {
            assert(reason[0] == 'L');
        },
        PredicateRule::Matches => {
            assert(reason[0] == 'I' || reason[0] == 'M' || reason[0] == 'N' || reason[0] == 'C');
        },
        PredicateRule::AnyOf | PredicateRule::NoneOf => {
            assert(reason[0] == 'V' || reason[0] == 'C');
        },
    }
}

/// The explanation of an outcome is that of a skipped predicate exactly where the predicate
/// has a guard that does not hold.
pub proof fn lemma_skipped_iff_guard_fails(
    p: CompiledPredicateView,
    facts: Set<(Seq<char>, Seq<char>)>,
)
    ensures
        compiled_reason(p, facts) == skipped_text() <==> p.when is Some && !compiled_guard_holds(
            p.when->0,
            facts,
        ),
{
    lemma_rule_reason_not_skipped(p.rule, p.claim_name, p.expected_value, facts);
}

/// A message made of three parts.
fn note(a: &str, b: &str, c: &str) -> (s: String)
    ensures
        s@ == a@ + b@ + c@,
{
    concat3(a, b, c)
}

/// A message that sets a length beside its bound.
fn length_note(length: usize, relation: &str, bound: usize, suffix: &str) -> (s: String)
    ensures
        s@ == length_text(length as nat, relation@, bound as nat, suffix@),
{
    let mut out: Vec<char> = Vec::new();
    push_str(&mut out, "Length ");
    push_decimal(&mut out, length as u64);
    push_str(&mut out, relation);
    push_decimal(&mut out, bound as u64);
    push_str(&mut out, suffix);
    string_of(&out)
}

/// Applies a rule to the facts recorded for a claim.
fn evaluate_rule_datalog(
    rule: PredicateRule,
    claim: &str,
    expected: &Option<String>,
    facts: &FactSet,
) -> (r: (bool, String))
    ensures
        r.0 == datalog_passes(rule, claim@, text_view(*expected), facts@),
        r.1@ == datalog_reason(rule, claim@, text_view(*expected), facts@),
{
    let empty = String::new();
    let operand: &String = match expected {
        Some(t) => t,
        None => &empty,
    };
    assert(operand@ == expected_or_empty(text_view(*expected)));
    match rule {
        PredicateRule::Exists => {
            if facts.has_claim(claim) {
                (true, "Value exists".to_string())
            } else {
                (false, "Value does not exist".to_string())
            }
        },
        PredicateRule::NotExists => {
            if facts.has_claim(claim) {
                (false, "Value exists but should not".to_string())
            } else {
                (true, "Value does not exist as expected".to_string())
            }
        },
        PredicateRule::Contains => {
            if facts.has(claim, operand.as_str()) {
                (true, note("Contains '", operand.as_str(), "'"))
            } else if facts.has_claim(claim) {
                (false, note("Does not contain '", operand.as_str(), "'"))
            } else {
                (false, note("Claim '", claim, "' has no values"))
            }
        },
        PredicateRule::NotContains => {
            if facts.has(claim, operand.as_str()) {
                (false, note("Contains '", operand.as_str(), "' but should not"))
            } else if facts.has_claim(claim) {
                (true, note("Does not contain '", operand.as_str(), "'"))
            } else {
                (true, note("Claim '", claim, "' has no values (not_contains passes vacuously)"))
            }
        },
        PredicateRule::Equals => {
            if !facts.has_claim(claim) {
                (false, note("Claim '", claim, "' has no values"))
            } else if facts.has(claim, operand.as_str()) {
                if facts.no_other_value(claim, operand.as_str()) {
                    (true, note("Equals '", operand.as_str(), "'"))
                } else {
                    (
                        false,
                        note("Multiple values found, expected single value '", operand.as_str(), "'"),
                    )
                }
            } else {
                let mut out: Vec<char> = Vec::new();
                push_str(&mut out, "Expected '");
                push_str(&mut out, operand.as_str());
                push_str(&mut out, "', got '");
                match facts.first_value(claim) {
                    Some(actual) => {
                        push_str(&mut out, actual.as_str());
                    },
                    None => {
                        push_str(&mut out, "<none>");
                    },
                }
                push_str(&mut out, "'");
                assert(out@ =~= "Expected '"@ + operand@ + "', got '"@ + (match least_value(
                    facts@,
                    claim@,
                ) {
                    Some(v) => v,
                    None => "<none>"@,
                }) + "'"@);
                (false, string_of(&out))
            }
        },
        PredicateRule::MinLength => {
            let bound = count_from(expected.as_ref(), 0);
            let name = concat3(claim, ".__length", "");
            proof {
                reveal_strlit("");
                assert(name@ =~= claim@ + ".__length"@);
            }
            let length = count_from(facts.first_value(name.as_str()), 0);
            if length >= bound {
                (true, length_note(length, " >= ", bound, ""))
            } else {
                (false, length_note(length, " < ", bound, " (minimum)"))
            }
        },
        PredicateRule::MaxLength => {
            let bound = count_from(expected.as_ref(), usize::MAX);
            let name = concat3(claim, ".__length", "");
            proof {
                reveal_strlit("");
                assert(name@ =~= claim@ + ".__length"@);
            }
            let length = count_from(facts.first_value(name.as_str()), 0);
            if length <= bound {
                (true, length_note(length, " <= ", bound, ""))
            } else {
                (false, length_note(length, " > ", bound, " (maximum)"))
            }
        },
        PredicateRule::GreaterThan => {
            let bound = number_from(expected);
            match facts.first_value(claim) {
                Some(t) => match Decimal::parse(t.as_str()) {
                    Some(actual) => {
                        if bound.lt(&actual) {
                            (true, note(t.as_str(), " > ", operand.as_str()))
                        } else {
                            (false, note(t.as_str(), " is not > ", operand.as_str()))
                        }
                    },
                    None => (false, "Value is not a number".to_string()),
                },
                None => (false, note("Claim '", claim, "' has no values")),
            }
        },
        PredicateRule::LessThan => {
            let bound = number_from(expected);
            match facts.first_value(claim) {
                Some(t) => match Decimal::parse(t.as_str()) {
                    Some(actual) => {
                        if actual.lt(&bound) {
                            (true, note(t.as_str(), " < ", operand.as_str()))
                        } else {
                            (false, note(t.as_str(), " is not < ", operand.as_str()))
                        }
                    },
                    None => (false, "Value is not a number".to_string()),
                },
                None => (false, note("Claim '", claim, "' has no values")),
            }
        },
        PredicateRule::Matches => match compile(operand.as_str()) {
            Some(pattern) => {
                let found = facts.any_value_matches(claim, &pattern);
                proof {
                    if found {
                        let v = choose|v: Seq<char>|
                            facts@.contains((claim@, v)) && regex_accepts(pattern.source(), v);
                        assert(regex_verdict(operand@, v) == Some(true));
                    } else {
                        assert forall|v: Seq<char>|
                            !(facts@.contains((claim@, v)) && regex_verdict(operand@, v) == Some(
                                true,
                            )) by {}
                    }
                }
                if found {
                    (true, note("Matches pattern '", operand.as_str(), "'"))
                } else if facts.has_claim(claim) {
                    (false, note("No value matches pattern '", operand.as_str(), "'"))
                } else {
                    (false, note("Claim '", claim, "' has no values"))
                }
            },
            None => {
                let text = note("Invalid regex: ", operand.as_str(), "");
                proof {
                    reveal_strlit("");
                    assert(text@ =~= "Invalid regex: "@ + operand@);
                }
                (false, text)
            },
        },
        PredicateRule::AnyOf => {
            let set = members(expected);
            if facts.any_value_in(claim, &set) {
                (true, "Value is in allowed set".to_string())
            } else if facts.has_claim(claim) {
                (false, "Value is not in allowed set".to_string())
            } else {
                (false, note("Claim '", claim, "' has no values"))
            }
        },
        PredicateRule::NoneOf => {
            let set = members(expected);
            if facts.any_value_in(claim, &set) {
                (false, "Value is in forbidden set".to_string())
            } else if facts.has_claim(claim) {
                (true, "Value is not in forbidden set".to_string())
            } else {
                (true, note("Claim '", claim, "' has no values (none_of passes vacuously)"))
            }
        },
    }
}

/// Whether `r` is the outcome of the compiled predicate `p` on the facts: it passes exactly
/// where the predicate passes, carries the number, claim, rule, operand, source and notes of
/// the predicate, and explains itself as [`compiled_reason`] says.
pub open spec fn is_outcome_of(
    r: DatalogPredicateResult,
    p: CompiledPredicateView,
    facts: Set<(Seq<char>, Seq<char>)>,
) -> bool {
    &&& r.passed == compiled_passes(p, facts)
    &&& r.id == p.id
    &&& r.claim_name@ == p.claim_name
    &&& r.rule == p.rule
    &&& text_view(r.expected_value) == p.expected_value
    &&& r.source == p.source
    &&& text_view(r.notes) == p.notes
    &&& r.reason@ == compiled_reason(p, facts)
}

/// Evaluates one compiled predicate, guard included, against the facts.
pub fn evaluate_predicate_datalog(pred: &CompiledPredicate, facts: &FactSet) -> (r:
    DatalogPredicateResult)
    ensures
        is_outcome_of(r, pred@, facts@),
{
    let skipped = match &pred.when {
        Some(w) => {
            let guard = evaluate_rule_datalog(w.rule, w.claim_name.as_str(), &w.expected_value, facts);
            !guard.0
        },
        None => false,
    };
    let (passed, reason) = if skipped {
        (true, "Skipped (when condition not met)".to_string())
    } else {
        evaluate_rule_datalog(pred.rule, pred.claim_name.as_str(), &pred.expected_value, facts)
    };
    DatalogPredicateResult {
        id: pred.id,
        claim_name: pred.claim_name.clone(),
        rule: pred.rule,
        expected_value: clone_text(&pred.expected_value),
        passed,
        reason,
        source: pred.source,
        notes: clone_text(&pred.notes),
    }
}

/// How many of the first `n` compiled predicates pass.
pub open spec fn compiled_passes_among(
    predicates: Seq<CompiledPredicateView>,
    facts: Set<(Seq<char>, Seq<char>)>,
    n: int,
) -> nat
    decreases n,
{
    if n <= 0 || n > predicates.len() {
        0
    } else {
        compiled_passes_among(predicates, facts, n - 1) + if compiled_passes(
            predicates[n - 1],
            facts,
        ) {
            1nat
        } else {
            0nat
        }
    }
}

/// Evaluates the predicates of a compiled rulespec against a set of facts.
///
/// The result holds one outcome for each predicate, in order; each passes exactly where
/// [`compiled_passes`] holds, the two counts are the numbers of passing and failing
/// outcomes, and the fact count is the size of the set. The outcome depends on the compiled
/// rulespec and the set of facts alone.
pub fn execute_rules(compiled: &CompiledRulespec, facts: &FactSet) -> (r: DatalogExecutionResult)
    ensures
        r.predicate_results@.len() == compiled@.predicates.len(),
        forall|k: int|
            0 <= k < compiled@.predicates.len() ==> is_outcome_of(
                #[trigger] r.predicate_results@[k],
                compiled@.predicates[k],
                facts@,
            ),
        r.fact_count == facts.listing().len(),
        r.passed_count == compiled_passes_among(
            compiled@.predicates,
            facts@,
            compiled@.predicates.len() as int,
        ),
        r.passed_count + r.failed_count == compiled@.predicates.len(),
{
    let ghost predicates = compiled@.predicates;
    let mut results: Vec<DatalogPredicateResult> = Vec::new();
    let mut passed_count: usize = 0;
    let mut failed_count: usize = 0;
    let mut k: usize = 0;
    while k < compiled.predicates.len()
        invariant
            k <= compiled.predicates.len(),
            predicates == compiled@.predicates,
            predicates.len() == compiled.predicates.len(),
            results@.len() == k,
            forall|j: int|
                0 <= j < k ==> is_outcome_of(#[trigger] results@[j], predicates[j], facts@),
            passed_count == compiled_passes_among(predicates, facts@, k as int),
            passed_count + failed_count == k,
        decreases compiled.predicates.len() - k,
    {
        let pred = &compiled.predicates[k];
        assert(predicates[k as int] == pred@);
        let result = evaluate_predicate_datalog(pred, facts);
        if result.passed {
            passed_count += 1;
        } else {
            failed_count += 1;
        }
        results.push(result);
        k += 1;
    }
    DatalogExecutionResult {
        predicate_results: results,
        fact_count: facts.len(),
        passed_count,
        failed_count,
    }
}

} // verus!
