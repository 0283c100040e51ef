//! Canonical documents: the one YAML tree that stands for the facts of an envelope, and
//! the one that stands for a rulespec, whatever way they were built.

use vstd::prelude::*;
use crate::envelope::{fact_views, ActionEnvelope};
use crate::rulespec::{
    claim_views, predicate_views, rule_name, source_name, Claim, ClaimView, Predicate,
    PredicateView, Rulespec, RulespecView, WhenCondition, WhenView,
};
use crate::text::{chars_lt, chars_of, text_lt};
use crate::value::{
    entry_views, item_views, lemma_view_mapping, lemma_view_sequence, YamlValue, ValueView,
};

verus! {

/// An entry of a mapping under the string key `key`.
pub open spec fn entry(key: Seq<char>, v: ValueView) -> (ValueView, ValueView) {
    (ValueView::String(key), v)
}

/// The entry for an operand, where there is one.
pub open spec fn value_entry(v: Option<ValueView>) -> Seq<(ValueView, ValueView)> {
    match v {
        Some(x) => seq![entry("value"@, x)],
        None => Seq::empty(),
    }
}

/// The document of a claim: its name and its selector.
pub open spec fn claim_document(c: ClaimView) -> ValueView {
    ValueView::Mapping(
        seq![
            entry("name"@, ValueView::String(c.name)),
            entry("selector"@, ValueView::String(c.selector)),
        ],
    )
}

/// The document of a guard: its claim, its rule and, where it has one, its operand.
pub open spec fn when_document(w: WhenView) -> ValueView {
    ValueView::Mapping(
        seq![
            entry("claim"@, ValueView::String(w.claim)),
            entry("rule"@, ValueView::String(rule_name(w.rule))),
        ] + value_entry(w.value),
    )
}

/// The entries of the document of a predicate: claim, rule, operand, source, notes and
/// guard, in this order, leaving out what the predicate does not have.
pub open spec fn predicate_entries(p: PredicateView) -> Seq<(ValueView, ValueView)> {
    seq![
        entry("claim"@, ValueView::String(p.claim)),
        entry("rule"@, ValueView::String(rule_name(p.rule))),
    ] + value_entry(p.value) + seq![entry("source"@, ValueView::String(source_name(p.source)))]
        + (match p.notes {
        Some(n) => seq![entry("notes"@, ValueView::String(n))],
        None => Seq::empty(),
    }) + (match p.when {
        Some(w) => seq![entry("when"@, when_document(w))],
        None => Seq::empty(),
    })
}

/// The document of a predicate.
pub open spec fn predicate_document(p: PredicateView) -> ValueView {
    ValueView::Mapping(predicate_entries(p))
}

/// The document of a rulespec: its claims and its predicates, each left out where there
/// is none.
pub open spec fn rulespec_document(r: RulespecView) -> ValueView {
    ValueView::Mapping(
        (if r.claims.len() > 0 {
            seq![
                entry(
                    "claims"@,
                    ValueView::Sequence(Seq::new(r.claims.len(), |i: int| claim_document(r.claims[i]))),
                ),
            ]
        } else {
            Seq::empty()
        }) + (if r.predicates.len() > 0 {
            seq![
                entry(
                    "predicates"@,
                    ValueView::Sequence(
                        Seq::new(r.predicates.len(), |i: int| predicate_document(r.predicates[i])),
                    ),
                ),
            ]
        } else {
            Seq::empty()
        }),
    )
}

/// Builds an entry under the string key `key`.
fn make_entry(key: &str, v: YamlValue) -> (r: (YamlValue, YamlValue))
    ensures
        (r.0@, r.1@) == entry(key@, v@),
{
    (YamlValue::String(key.to_string()), v)
}

/// Builds a mapping from its entries.
fn make_mapping(entries: Vec<(YamlValue, YamlValue)>) -> (r: YamlValue)
    ensures
        r@ == ValueView::Mapping(entry_views(entries@)),
{
    proof {
        lemma_view_mapping(entries);
    }
    YamlValue::Mapping(entries)
}

/// Builds a sequence from its items.
fn make_sequence(items: Vec<YamlValue>) -> (r: YamlValue)
    ensures
        r@ == ValueView::Sequence(item_views(items@)),
{
    proof {
        lemma_view_sequence(items);
    }
    YamlValue::Sequence(items)
}

impl Claim {
    /// The document of this claim.
    pub fn to_yaml_value(&self) -> (r: YamlValue)
        ensures
            r@ == claim_document(self@),
    {
        let mut entries: Vec<(YamlValue, YamlValue)> = Vec::new();
        entries.push(make_entry("name", YamlValue::String(self.name.clone())));
        entries.push(make_entry("selector", YamlValue::String(self.selector.clone())));
        assert(entry_views(entries@) =~= claim_document(self@)->Mapping_0);
        make_mapping(entries)
    }
}

impl WhenCondition {
    /// The document of this guard.
    pub fn to_yaml_value(&self) -> (r: YamlValue)
        ensures
            r@ == when_document(self@),
    {
        let mut entries: Vec<(YamlValue, YamlValue)> = Vec::new();
        entries.push(make_entry("claim", YamlValue::String(self.claim.clone())));
        entries.push(make_entry("rule", YamlValue::String(self.rule.to_string())));
        match &self.value {
            Some(v) => {
                entries.push(make_entry("value", v.clone_value()));
            },
            None => {},
        }
        assert(entry_views(entries@) =~= when_document(self@)->Mapping_0);
        make_mapping(entries)
    }
}

impl Predicate {
    /// The document of this predicate.
    pub fn to_yaml_value(&self) -> (r: YamlValue)
        ensures
            r@ == predicate_document(self@),
    {
        let mut entries: Vec<(YamlValue, YamlValue)> = Vec::new();
        entries.push(make_entry("claim", YamlValue::String(self.claim.clone())));
        entries.push(make_entry("rule", YamlValue::String(self.rule.to_string())));
        match &self.value {
            Some(v) => {
                entries.push(make_entry("value", v.clone_value()));
            },
            None => {},
        }
        entries.push(make_entry("source", YamlValue::String(self.source.to_string())));
        match &self.notes {
            Some(n) => {
                entries.push(make_entry("notes", YamlValue::String(n.clone())));
            },
            None => {},
        }
        match &self.when {
            Some(w) => {
                entries.push(make_entry("when", w.to_yaml_value()));
            },
            None => {},
        }
        assert(entry_views(entries@) =~= predicate_entries(self@));
        make_mapping(entries)
    }
}

impl Rulespec {
    /// The document of this rulespec.
    pub fn to_yaml_value(&self) -> (r: YamlValue)
        ensures
            r@ == rulespec_document(self@),
    {
        let mut entries: Vec<(YamlValue, YamlValue)> = Vec::new();
        let ghost claims = self@.claims;
        let ghost predicates = self@.predicates;
        if self.claims.len() > 0 {
            let mut items: Vec<YamlValue> = Vec::new();
            let mut i: usize = 0;
            while i < self.claims.len()
                invariant
                    i <= self.claims.len(),
                    claims == claim_views(self.claims@),
                    items@.len() == i,
                    forall|k: int| 0 <= k < i ==> (#[trigger] items@[k])@ == claim_document(claims[k]),
                decreases self.claims.len() - i,
            {
                items.push(self.claims[i].to_yaml_value());
                i += 1;
            }
            assert(item_views(items@) =~= Seq::new(
                claims.len(),
                |i: int| claim_document(claims[i]),
            ));
            entries.push(make_entry("claims", make_sequence(items)));
        }
        if self.predicates.len() > 0 {
            let mut items: Vec<YamlValue> = Vec::new();
            let mut i: usize = 0;
            while i < self.predicates.len()
                invariant
                    i <= self.predicates.len(),
                    predicates == predicate_views(self.predicates@),
                    items@.len() == i,
                    forall|k: int|
                        0 <= k < i ==> (#[trigger] items@[k])@ == predicate_document(predicates[k]),
                decreases self.predicates.len() - i,
            {
                items.push(self.predicates[i].to_yaml_value());
                i += 1;
            }
            assert(item_views(items@) =~= Seq::new(
                predicates.len(),
                |i: int| predicate_document(predicates[i]),
            ));
            entries.push(make_entry("predicates", make_sequence(items)));
        }
        assert(entry_views(entries@) =~= rulespec_document(self@)->Mapping_0);
        make_mapping(entries)
    }
}

/// `sorted` with `e` put in before the first entry whose key is above that of `e`.
pub open spec fn insert_by_key(
    sorted: Seq<(Seq<char>, ValueView)>,
    e: (Seq<char>, ValueView),
) -> Seq<(Seq<char>, ValueView)>
    decreases sorted.len(),
{
    if sorted.len() == 0 {
        seq![e]
    } else if text_lt(e.0, sorted.last().0) {
        insert_by_key(sorted.drop_last(), e).push(sorted.last())
    } else {
        sorted.push(e)
    }
}

/// The first `n` facts in the order of their keys; facts with the same key keep their
/// order.
pub open spec fn sorted_facts(facts: Seq<(Seq<char>, ValueView)>, n: int) -> Seq<
    (Seq<char>, ValueView),
>
    decreases n,
{
    if n <= 0 || n > facts.len() {
        Seq::empty()
    } else {
        insert_by_key(sorted_facts(facts, n - 1), facts[n - 1])
    }
}

/// Putting an entry in makes the list longer by one.
pub proof fn lemma_insert_by_key_len(sorted: Seq<(Seq<char>, ValueView)>, e: (Seq<char>, ValueView))
    ensures
        insert_by_key(sorted, e).len() == sorted.len() + 1,
    decreases sorted.len(),
{
    if sorted.len() > 0 && text_lt(e.0, sorted.last().0) {
        lemma_insert_by_key_len(sorted.drop_last(), e);
    }
}

/// Sorting keeps the number of facts.
pub proof fn lemma_sorted_facts_len(facts: Seq<(Seq<char>, ValueView)>, n: int)
    requires
        0 <= n <= facts.len(),
    ensures
        sorted_facts(facts, n).len() == n,
    decreases n,
{
    if n > 0 {
        lemma_sorted_facts_len(facts, n - 1);
        lemma_insert_by_key_len(sorted_facts(facts, n - 1), facts[n - 1]);
    }
}

/// Whether the keys never go down along `s`.
pub open spec fn keys_ordered(s: Seq<(Seq<char>, ValueView)>) -> bool {
    forall|i: int, j: int|
        0 <= i < j < s.len() ==> !text_lt((#[trigger] s[j]).0, (#[trigger] s[i]).0)
}

/// Putting an entry into a list whose keys are in order keeps them in order.
pub proof fn lemma_insert_by_key_ordered(
    sorted: Seq<(Seq<char>, ValueView)>,
    e: (Seq<char>, ValueView),
)
    requires
        keys_ordered(sorted),
    ensures
        keys_ordered(insert_by_key(sorted, e)),
    decreases sorted.len(),
{
    let r = insert_by_key(sorted, e);
    if sorted.len() == 0 {
    } else if text_lt(e.0, sorted.last().0) {
        let front = sorted.drop_last();
        assert forall|i: int, j: int| 0 <= i < j < front.len() implies !text_lt(
            (#[trigger] front[j]).0,
            (#[trigger] front[i]).0,
        ) by {
            assert(front[i] == sorted[i] && front[j] == sorted[j]);
        }
        lemma_insert_by_key_ordered(front, e);
        lemma_insert_by_key_len(front, e);
        lemma_insert_by_key_members(front, e);
        let inner = insert_by_key(front, e);
        assert forall|i: int, j: int| 0 <= i < j < r.len() implies !text_lt(
            (#[trigger] r[j]).0,
            (#[trigger] r[i]).0,
        ) by {
            if j == r.len() - 1 {
                assert(r[j] == sorted.last());
                assert(r[i] == inner[i]);
                if inner[i] == e {
                    crate::text::lemma_text_lt_asymmetric(e.0, sorted.last().0);
                } else {
                    let k = choose|k: int| 0 <= k < front.len() && front[k] == inner[i];
                    assert(sorted[k] == inner[i]);
                    assert(!text_lt(sorted[sorted.len() - 1].0, sorted[k].0));
                }
            } else {
                assert(r[i] == inner[i] && r[j] == inner[j]);
            }
        }
    } else {
        assert forall|i: int, j: int| 0 <= i < j < r.len() implies !text_lt(
            (#[trigger] r[j]).0,
            (#[trigger] r[i]).0,
        ) by {
            if j == r.len() - 1 {
                assert(r[j] == e);
                assert(r[i] == sorted[i]);
                if text_lt(e.0, sorted[i].0) {
                    let last = sorted.last();
                    crate::text::lemma_text_lt_total(last.0, e.0);
                    if i < sorted.len() - 1 {
                        assert(!text_lt(sorted[sorted.len() - 1].0, sorted[i].0));
                        if last.0 != e.0 {
                            crate::text::lemma_text_lt_transitive(last.0, e.0, sorted[i].0);
                        }
                    }
                }
            } else {
                assert(r[i] == sorted[i] && r[j] == sorted[j]);
            }
        }
    }
}

/// What a list holds after an entry is put in is the entry or was in the list before.
pub proof fn lemma_insert_by_key_members(
    sorted: Seq<(Seq<char>, ValueView)>,
    e: (Seq<char>, ValueView),
)
    ensures
        forall|i: int|
            0 <= i < insert_by_key(sorted, e).len() ==> (#[trigger] insert_by_key(sorted, e)[i])
                == e || exists|k: int|
                0 <= k < sorted.len() && sorted[k] == insert_by_key(sorted, e)[i],
    decreases sorted.len(),
{
    let r = insert_by_key(sorted, e);
    if sorted.len() == 0 {
    } else if text_lt(e.0, sorted.last().0) {
        let front = sorted.drop_last();
        lemma_insert_by_key_members(front, e);
        lemma_insert_by_key_len(front, e);
        let inner = insert_by_key(front, e);
        assert forall|i: int| 0 <= i < r.len() implies (#[trigger] r[i]) == e || exists|k: int|
            0 <= k < sorted.len() && sorted[k] == r[i] by {
            if i == r.len() - 1 {
                assert(sorted[sorted.len() - 1] == r[i]);
            } else {
                assert(r[i] == inner[i]);
                if inner[i] != e {
                    let k = choose|k: int| 0 <= k < front.len() && front[k] == inner[i];
                    assert(sorted[k] == r[i]);
                }
            }
        }
    } else {
        assert forall|i: int| 0 <= i < r.len() implies (#[trigger] r[i]) == e || exists|k: int|
            0 <= k < sorted.len() && sorted[k] == r[i] by {
            if i < sorted.len() {
                assert(sorted[i] == r[i]);
            }
        }
    }
}

/// The canonical facts have their keys in order.
pub proof fn lemma_sorted_facts_ordered(facts: Seq<(Seq<char>, ValueView)>, n: int)
    requires
        0 <= n <= facts.len(),
    ensures
        keys_ordered(sorted_facts(facts, n)),
    decreases n,
{
    if n > 0 {
        lemma_sorted_facts_ordered(facts, n - 1);
        lemma_insert_by_key_ordered(sorted_facts(facts, n - 1), facts[n - 1]);
    }
}

/// Whether the keys go up along `s`.
pub open spec fn keys_rising(s: Seq<(Seq<char>, ValueView)>) -> bool {
    forall|i: int, j: int|
        0 <= i < j < s.len() ==> text_lt((#[trigger] s[i]).0, (#[trigger] s[j]).0)
}

/// An entry that is put into a list is in it afterwards, and so is what was in it before.
pub proof fn lemma_insert_by_key_keeps(
    sorted: Seq<(Seq<char>, ValueView)>,
    e: (Seq<char>, ValueView),
)
    ensures
        insert_by_key(sorted, e).contains(e),
        forall|k: int| 0 <= k < sorted.len() ==> insert_by_key(sorted, e).contains(#[trigger] sorted[k]),
    decreases sorted.len(),
{
    let r = insert_by_key(sorted, e);
    if sorted.len() == 0 {
        assert(r[0] == e);
    } else if text_lt(e.0, sorted.last().0) {
        let front = sorted.drop_last();
        lemma_insert_by_key_keeps(front, e);
        lemma_insert_by_key_len(front, e);
        let inner = insert_by_key(front, e);
        let at = choose|i: int| 0 <= i < inner.len() && inner[i] == e;
        assert(r[at] == e);
        assert forall|k: int| 0 <= k < sorted.len() implies r.contains(#[trigger] sorted[k]) by {
            if k == sorted.len() - 1 {
                assert(r[r.len() - 1] == sorted[k]);
            } else {
                assert(front[k] == sorted[k]);
                assert(inner.contains(front[k]));
                let i = choose|i: int| 0 <= i < inner.len() && inner[i] == front[k];
                assert(r[i] == sorted[k]);
            }
        }
    } else {
        assert(r[r.len() - 1] == e);
        assert forall|k: int| 0 <= k < sorted.len() implies r.contains(#[trigger] sorted[k]) by {
            assert(r[k] == sorted[k]);
        }
    }
}

/// Putting an entry with a new key into a list whose keys go up keeps them going up.
pub proof fn lemma_insert_by_key_rising(
    sorted: Seq<(Seq<char>, ValueView)>,
    e: (Seq<char>, ValueView),
)
    requires
        keys_rising(sorted),
        forall|k: int| 0 <= k < sorted.len() ==> (#[trigger] sorted[k]).0 != e.0,
    ensures
        keys_rising(insert_by_key(sorted, e)),
    decreases sorted.len(),
{
    let r = insert_by_key(sorted, e);
    if sorted.len() == 0 {
    } else if text_lt(e.0, sorted.last().0) {
        let front = sorted.drop_last();
        assert forall|i: int, j: int| 0 <= i < j < front.len() implies text_lt(
            (#[trigger] front[i]).0,
            (#[trigger] front[j]).0,
        ) by {
            assert(front[i] == sorted[i] && front[j] == sorted[j]);
        }
        assert forall|k: int| 0 <= k < front.len() implies (#[trigger] front[k]).0 != e.0 by {
            assert(front[k] == sorted[k]);
        }
        lemma_insert_by_key_rising(front, e);
        lemma_insert_by_key_len(front, e);
        lemma_insert_by_key_members(front, e);
        let inner = insert_by_key(front, e);
        assert forall|i: int, j: int| 0 <= i < j < r.len() implies text_lt(
            (#[trigger] r[i]).0,
            (#[trigger] r[j]).0,
        ) by {
            if j == r.len() - 1 {
                assert(r[j] == sorted.last());
                assert(r[i] == inner[i]);
                if inner[i] != e {
                    let k = choose|k: int| 0 <= k < front.len() && front[k] == inner[i];
                    assert(sorted[k] == inner[i]);
                    assert(text_lt(sorted[k].0, sorted[sorted.len() - 1].0));
                }
            } else {
                assert(r[i] == inner[i] && r[j] == inner[j]);
            }
        }
    } else {
        assert forall|i: int, j: int| 0 <= i < j < r.len() implies text_lt(
            (#[trigger] r[i]).0,
            (#[trigger] r[j]).0,
        ) by {
            if j == r.len() - 1 {
                assert(r[j] == e);
                assert(r[i] == sorted[i]);
                let last = sorted[sorted.len() - 1];
                crate::text::lemma_text_lt_total(last.0, e.0);
                assert(text_lt(last.0, e.0));
                if i < sorted.len() - 1 {
                    assert(text_lt(sorted[i].0, last.0));
                    crate::text::lemma_text_lt_transitive(sorted[i].0, last.0, e.0);
                }
            } else {
                assert(r[i] == sorted[i] && r[j] == sorted[j]);
            }
        }
    }
}

/// The canonical order holds the facts it was made of and no others; where no key comes
/// twice, its keys go up.
pub proof fn lemma_sorted_facts_members(facts: Seq<(Seq<char>, ValueView)>, n: int)
    requires
        0 <= n <= facts.len(),
    ensures
        forall|k: int| 0 <= k < n ==> sorted_facts(facts, n).contains(#[trigger] facts[k]),
        forall|i: int|
            0 <= i < sorted_facts(facts, n).len() ==> exists|k: int|
                0 <= k < n && facts[k] == #[trigger] sorted_facts(facts, n)[i],
        crate::assoc::keys_distinct(facts) ==> keys_rising(sorted_facts(facts, n)),
    decreases n,
{
    if n > 0 {
        let before = sorted_facts(facts, n - 1);
        let e = facts[n - 1];
        let r = sorted_facts(facts, n);
        lemma_sorted_facts_members(facts, n - 1);
        lemma_insert_by_key_keeps(before, e);
        lemma_insert_by_key_members(before, e);
        assert forall|k: int| 0 <= k < n implies r.contains(#[trigger] facts[k]) by {
            if k < n - 1 {
                assert(before.contains(facts[k]));
                let i = choose|i: int| 0 <= i < before.len() && before[i] == facts[k];
                assert(r.contains(before[i]));
            }
        }
        assert forall|i: int| 0 <= i < r.len() implies exists|k: int|
            0 <= k < n && facts[k] == #[trigger] r[i] by {
            if r[i] == e {
                assert(facts[n - 1] == r[i]);
            } else {
                let m = choose|m: int| 0 <= m < before.len() && before[m] == r[i];
                let k = choose|k: int| 0 <= k < n - 1 && facts[k] == before[m];
                assert(facts[k] == r[i]);
            }
        }
        if crate::assoc::keys_distinct(facts) {
            assert forall|m: int| 0 <= m < before.len() implies (#[trigger] before[m]).0 != e.0 by {
                let k = choose|k: int| 0 <= k < n - 1 && facts[k] == before[m];
                assert(facts[k].0 != facts[n - 1].0);
            }
            lemma_insert_by_key_rising(before, e);
        }
    }
}

/// Two lists whose keys go up and that hold the same entries are the same list.
pub proof fn lemma_rising_unique(a: Seq<(Seq<char>, ValueView)>, b: Seq<(Seq<char>, ValueView)>)
    requires
        keys_rising(a),
        keys_rising(b),
        forall|p: (Seq<char>, ValueView)| a.contains(p) <==> b.contains(p),
    ensures
        a == b,
    decreases a.len(),
{
    if a.len() == 0 {
        if b.len() > 0 {
            assert(b.contains(b[0]));
            assert(a.contains(b[0]));
        }
        assert(a =~= b);
    } else {
        assert(a.contains(a[0]));
        assert(b.contains(a[0]));
        let j = choose|j: int| 0 <= j < b.len() && b[j] == a[0];
        assert(b.contains(b[0]));
        assert(a.contains(b[0]));
        let i = choose|i: int| 0 <= i < a.len() && a[i] == b[0];
        if j > 0 {
            assert(text_lt(b[0].0, b[j].0));
            if i > 0 {
                assert(text_lt(a[0].0, a[i].0));
                crate::text::lemma_text_lt_transitive(a[0].0, b[0].0, a[0].0);
            }
            crate::text::lemma_text_lt_irreflexive(a[0].0);
        }
        assert(a[0] == b[0]);
        let ra = a.drop_first();
        let rb = b.drop_first();
        assert forall|x: int, y: int| 0 <= x < y < ra.len() implies text_lt(
            (#[trigger] ra[x]).0,
            (#[trigger] ra[y]).0,
        ) by {
            assert(text_lt(a[x + 1].0, a[y + 1].0));
        }
        assert forall|x: int, y: int| 0 <= x < y < rb.len() implies text_lt(
            (#[trigger] rb[x]).0,
            (#[trigger] rb[y]).0,
        ) by {
            assert(text_lt(b[x + 1].0, b[y + 1].0));
        }
        assert forall|p: (Seq<char>, ValueView)| ra.contains(p) <==> rb.contains(p) by {
            if ra.contains(p) {
                let k = choose|k: int| 0 <= k < ra.len() && ra[k] == p;
                assert(a[k + 1] == p);
                assert(a.contains(p));
                assert(text_lt(a[0].0, a[k + 1].0));
                crate::text::lemma_text_lt_irreflexive(p.0);
                let m = choose|m: int| 0 <= m < b.len() && b[m] == p;
                assert(m > 0);
                assert(rb[m - 1] == p);
            }
            if rb.contains(p) {
                let k = choose|k: int| 0 <= k < rb.len() && rb[k] == p;
                assert(b[k + 1] == p);
                assert(b.contains(p));
                assert(text_lt(b[0].0, b[k + 1].0));
                crate::text::lemma_text_lt_irreflexive(p.0);
                let m = choose|m: int| 0 <= m < a.len() && a[m] == p;
                assert(m > 0);
                assert(ra[m - 1] == p);
            }
        }
        lemma_rising_unique(ra, rb);
        assert(a =~= seq![a[0]] + ra);
        assert(b =~= seq![b[0]] + rb);
    }
}

/// The canonical facts do not depend on the order in which the facts came: two lists of
/// facts that hold the same facts, each key once, have the same canonical document.
pub proof fn lemma_canonical_facts_order_free(
    a: Seq<(Seq<char>, ValueView)>,
    b: Seq<(Seq<char>, ValueView)>,
)
    requires
        crate::assoc::keys_distinct(a),
        crate::assoc::keys_distinct(b),
        forall|p: (Seq<char>, ValueView)| a.contains(p) <==> b.contains(p),
    ensures
        canonical_facts(a) == canonical_facts(b),
{
    let sa = sorted_facts(a, a.len() as int);
    let sb = sorted_facts(b, b.len() as int);
    lemma_sorted_facts_members(a, a.len() as int);
    lemma_sorted_facts_members(b, b.len() as int);
    assert forall|p: (Seq<char>, ValueView)| sa.contains(p) <==> sb.contains(p) by {
        if sa.contains(p) {
            let i = choose|i: int| 0 <= i < sa.len() && sa[i] == p;
            let k = choose|k: int| 0 <= k < a.len() && a[k] == sa[i];
            assert(a.contains(p));
            assert(b.contains(p));
            let m = choose|m: int| 0 <= m < b.len() && b[m] == p;
            assert(sb.contains(b[m]));
        }
        if sb.contains(p) {
            let i = choose|i: int| 0 <= i < sb.len() && sb[i] == p;
            let k = choose|k: int| 0 <= k < b.len() && b[k] == sb[i];
            assert(b.contains(p));
            assert(a.contains(p));
            let m = choose|m: int| 0 <= m < a.len() && a[m] == p;
            assert(sa.contains(a[m]));
        }
    }
    lemma_rising_unique(sa, sb);
}

/// The canonical document of the facts of an envelope: one mapping, the keys in order.
pub open spec fn canonical_facts(facts: Seq<(Seq<char>, ValueView)>) -> ValueView {
    crate::envelope::document_of(sorted_facts(facts, facts.len() as int))
}

impl ActionEnvelope {
    /// The canonical document of the facts: one mapping with the keys in the order of
    /// texts. The stamp is not part of it.
    pub fn canonical_document(&self) -> (r: YamlValue)
        ensures
            r@ == canonical_facts(self@.facts),
    {
        let ghost facts = self@.facts;
        // indices of the facts, in the order of their keys
        let mut order: Vec<usize> = Vec::new();
        let mut n: usize = 0;
        while n < self.facts.len()
            invariant
                n <= self.facts.len(),
                facts == fact_views(self.facts@),
                order@.len() == n,
                forall|k: int| 0 <= k < n ==> (#[trigger] order@[k]) < self.facts.len(),
                sorted_facts(facts, n as int) == Seq::new(
                    n as nat,
                    |k: int| facts[order@[k] as int],
                ),
            decreases self.facts.len() - n,
        {
            let key = chars_of(self.facts[n].0.as_str());
            let ghost e = facts[n as int];
            let ghost before = sorted_facts(facts, n as int);
            let ghost old_order = order@;
            let mut at: usize = order.len();
            assert(before.take(at as int) =~= before);
            while at > 0 && chars_lt(&key, &chars_of(self.facts[order[at - 1]].0.as_str()))
                invariant
                    at <= order.len(),
                    order@ == old_order,
                    order@.len() == n,
                    n < self.facts.len(),
                    facts == fact_views(self.facts@),
                    key@ == e.0,
                    e == facts[n as int],
                    forall|k: int| 0 <= k < n ==> (#[trigger] order@[k]) < self.facts.len(),
                    before == Seq::new(n as nat, |k: int| facts[order@[k] as int]),
                    insert_by_key(before, e) == insert_by_key(before.take(at as int), e)
                        + before.skip(at as int),
                decreases at,
            {
                proof {
                    let t = before.take(at as int);
                    assert(t.last() == before[at - 1]);
                    assert(t.drop_last() =~= before.take(at - 1));
                    assert(insert_by_key(t, e) == insert_by_key(t.drop_last(), e).push(t.last()));
                    assert(insert_by_key(before.take(at - 1), e).push(before[at - 1])
                        + before.skip(at as int) =~= insert_by_key(before.take(at - 1), e)
                        + before.skip(at - 1));
                }
                at -= 1;
            }
            proof {
                let t = before.take(at as int);
                if at > 0 {
                    assert(t.last() == before[at - 1]);
                }
                assert(insert_by_key(t, e) == t.push(e));
            }
            order.insert(at, n);
            proof {
                let after = Seq::new((n + 1) as nat, |k: int| facts[order@[k] as int]);
                assert(after =~= before.take(at as int).push(e) + before.skip(at as int));
            }
            n += 1;
        }
        let ghost sorted = sorted_facts(facts, facts.len() as int);
        let mut entries: Vec<(YamlValue, YamlValue)> = Vec::new();
        let mut i: usize = 0;
        while i < order.len()
            invariant
                i <= order.len(),
                order@.len() == self.facts.len(),
                facts == fact_views(self.facts@),
                forall|k: int| 0 <= k < order@.len() ==> (#[trigger] order@[k]) < self.facts.len(),
                sorted == Seq::new(order@.len(), |k: int| facts[order@[k] as int]),
                entries@.len() == i,
                forall|k: int|
                    0 <= k < i ==> (#[trigger] entries@[k]).0@ == ValueView::String(sorted[k].0)
                        && entries@[k].1@ == sorted[k].1,
            decreases order.len() - i,
        {
            let at = order[i];
            assert(sorted[i as int] == facts[at as int]);
            let key = YamlValue::String(self.facts[at].0.clone());
            let value = self.facts[at].1.clone_value();
            entries.push((key, value));
            i += 1;
        }
        assert(entry_views(entries@) =~= canonical_facts(facts)->Mapping_0);
        make_mapping(entries)
    }
}

} // verus!
