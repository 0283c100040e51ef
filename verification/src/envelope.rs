//! The action envelope: the facts an agent states about finished work, and the stamp that
//! the verifier sets on them.

use vstd::prelude::*;
use crate::assoc::{
    entry_at, key_index, keys_distinct, lemma_key_index_stable, lemma_with_entry_distinct, with_entry,
};
use crate::rulespec::text_view;
use crate::value::{entry_views, lemma_view_mapping, YamlValue, ValueView};

verus! {

/// Facts about completed work, each under a key, and the verification stamp.
#[derive(Clone, Debug, PartialEq, Eq)]
pub struct ActionEnvelope {
    /// The facts, each key once, in the order in which the keys came.
    pub facts: Vec<(String, YamlValue)>,
    /// The stamp; set by the verifier only.
    pub verified: Option<String>,
}

/// Mathematical form of an [`ActionEnvelope`].
pub struct EnvelopeView {
    pub facts: Seq<(Seq<char>, ValueView)>,
    pub verified: Option<Seq<char>>,
}

/// The views of a run of keyed facts, in order.
pub open spec fn fact_views(facts: Seq<(String, YamlValue)>) -> Seq<(Seq<char>, ValueView)> {
    Seq::new(facts.len(), |i: int| (facts[i].0@, facts[i].1@))
}

impl View for ActionEnvelope {
    type V = EnvelopeView;

    open spec fn view(&self) -> EnvelopeView {
        EnvelopeView { facts: fact_views(self.facts@), verified: text_view(self.verified) }
    }
}

/// The facts as one YAML mapping, each key a string.
pub open spec fn document_of(facts: Seq<(Seq<char>, ValueView)>) -> ValueView {
    ValueView::Mapping(Seq::new(facts.len(), |i: int| (ValueView::String(facts[i].0), facts[i].1)))
}

impl ActionEnvelope {
    /// Whether no key occurs twice among the facts.
    pub open spec fn wf(&self) -> bool {
        keys_distinct(self@.facts)
    }

    /// An envelope without facts or stamp.
    pub fn new() -> (e: ActionEnvelope)
        ensures
            e@.facts.len() == 0,
            e@.verified is None,
            e.wf(),
    {
        ActionEnvelope { facts: Vec::new(), verified: None }
    }

    /// Finds the index of the fact with the key `key`.
    fn find(&self, key: &str) -> (r: Option<usize>)
        ensures
            match r {
                Some(i) => key_index(self@.facts, key@, self@.facts.len() as int) == Some(
                    i as int,
                ) && i < self.facts.len(),
                None => key_index(self@.facts, key@, self@.facts.len() as int) is None,
            },
    {
        let ghost facts = self@.facts;
        let mut i: usize = 0;
        while i < self.facts.len()
            invariant
                i <= self.facts.len(),
                facts == fact_views(self.facts@),
                key_index(facts, key@, i as int) is None,
            decreases self.facts.len() - i,
        {
            if crate::text::str_eq(self.facts[i].0.as_str(), key) {
                assert(facts[i as int].0 == key@);
                proof {
                    lemma_key_index_stable(facts, key@, i + 1, facts.len() as int);
                }
                return Some(i);
            }
            i += 1;
        }
        None
    }

    /// Stores `value` under `key`, in the place of the fact that had the key if one had.
    pub fn add_fact(&mut self, key: &str, value: YamlValue)
        ensures
            final(self)@.facts == with_entry(old(self)@.facts, key@, value@),
            final(self)@.verified == old(self)@.verified,
            old(self).wf() ==> final(self).wf(),
    {
        proof {
            if old(self).wf() {
                lemma_with_entry_distinct(old(self)@.facts, key@, value@);
            }
        }
        match self.find(key) {
            Some(i) => {
                let ghost v = value@;
                self.facts[i] = (key.to_string(), value);
                assert(fact_views(self.facts@) =~= old(self)@.facts.update(i as int, (key@, v)));
            },
            None => {
                let ghost v = value@;
                self.facts.push((key.to_string(), value));
                assert(fact_views(self.facts@) =~= old(self)@.facts.push((key@, v)));
            },
        }
    }

    /// The fact stored under `key`, if any.
    pub fn get_fact(&self, key: &str) -> (r: Option<&YamlValue>)
        ensures
            match r {
                Some(v) => entry_at(self@.facts, key@) == Some(v@),
                None => entry_at(self@.facts, key@) is None,
            },
    {
        match self.find(key) {
            Some(i) => Some(&self.facts[i].1),
            None => None,
        }
    }

    /// Whether the envelope holds no fact.
    pub fn is_empty(&self) -> (r: bool)
        ensures
            r == (self@.facts.len() == 0),
    {
        self.facts.len() == 0
    }

    /// A copy of the envelope without its stamp: the same facts in the same order.
    pub fn unstamped(&self) -> (r: ActionEnvelope)
        ensures
            r@ == (EnvelopeView { facts: self@.facts, verified: None }),
    {
        let mut facts: Vec<(String, YamlValue)> = Vec::new();
        let mut i: usize = 0;
        while i < self.facts.len()
            invariant
                i <= self.facts.len(),
                facts@.len() == i,
                forall|k: int|
                    0 <= k < i ==> (#[trigger] facts@[k]).0@ == self.facts@[k].0@ && facts@[k].1@
                        == self.facts@[k].1@,
            decreases self.facts.len() - i,
        {
            facts.push((self.facts[i].0.clone(), self.facts[i].1.clone_value()));
            i += 1;
        }
        assert(fact_views(facts@) =~= fact_views(self.facts@));
        ActionEnvelope { facts, verified: None }
    }

    /// The facts as one YAML mapping, for selectors to run on. The stamp is not in it.
    pub fn to_yaml_value(&self) -> (r: YamlValue)
        ensures
            r@ == document_of(self@.facts),
    {
        let ghost facts = self@.facts;
        let mut entries: Vec<(YamlValue, YamlValue)> = Vec::new();
        let mut i: usize = 0;
        while i < self.facts.len()
            invariant
                i <= self.facts.len(),
                facts == fact_views(self.facts@),
                entries@.len() == i,
                forall|k: int|
                    0 <= k < i ==> (#[trigger] entries@[k]).0@ == ValueView::String(facts[k].0)
                        && entries@[k].1@ == facts[k].1,
            decreases self.facts.len() - i,
        {
            let key = YamlValue::String(self.facts[i].0.clone());
            let value = self.facts[i].1.clone_value();
            entries.push((key, value));
            i += 1;
        }
        proof {
            lemma_view_mapping(entries);
            assert(entry_views(entries@) =~= document_of(facts)->Mapping_0);
        }
        YamlValue::Mapping(entries)
    }
}

} // verus!
