//! The structured plan: items with a state each, revisions, an approval, and the test
//! for a plan that has come to its end.

use vstd::prelude::*;
use crate::text::str_eq;

verus! {

/// The state of a plan item.
#[derive(Clone, Copy, Debug, PartialEq, Eq, Structural)]
pub enum PlanItemState {
    Todo,
    Doing,
    Done,
    Blocked,
}

/// Whether an item in the state `from` may be in the state `to` in the next revision: it
/// may stay as it is, start, be done once started, and become blocked while it is not done.
/// Done and blocked items stay as they are.
pub open spec fn may_become(from: PlanItemState, to: PlanItemState) -> bool {
    from == to || (from == PlanItemState::Todo && to == PlanItemState::Doing) || (from
        == PlanItemState::Doing && to == PlanItemState::Done) || (from == PlanItemState::Todo
        && to == PlanItemState::Blocked) || (from == PlanItemState::Doing && to
        == PlanItemState::Blocked)
}

impl PlanItemState {
    /// Whether an item in this state may be in the state `to` in the next revision.
    pub fn can_become(self, to: PlanItemState) -> (r: bool)
        ensures
            r == may_become(self, to),
    {
        match self {
            PlanItemState::Todo => match to {
                PlanItemState::Done => false,
                _ => true,
            },
            PlanItemState::Doing => match to {
                PlanItemState::Todo => false,
                _ => true,
            },
            PlanItemState::Done => match to {
                PlanItemState::Done => true,
                _ => false,
            },
            PlanItemState::Blocked => match to {
                PlanItemState::Blocked => true,
                _ => false,
            },
        }
    }

    /// The name of this state as it is written in a plan.
    pub fn to_string(&self) -> (s: String)
        ensures
            s@ == match self {
                PlanItemState::Todo => "todo"@,
                PlanItemState::Doing => "doing"@,
                PlanItemState::Done => "done"@,
                PlanItemState::Blocked => "blocked"@,
            },
    {
        match self {
            PlanItemState::Todo => "todo".to_string(),
            PlanItemState::Doing => "doing".to_string(),
            PlanItemState::Done => "done".to_string(),
            PlanItemState::Blocked => "blocked".to_string(),
        }
    }
}

/// A check that an item has to stand: what it is, and what it is run on.
#[derive(Clone, Debug, PartialEq, Eq)]
pub struct Check {
    pub desc: String,
    pub target: String,
}

/// The checks of an item: one for the happy path, and any number for failures and for the
/// edges.
#[derive(Clone, Debug, PartialEq, Eq)]
pub struct Checks {
    pub happy: Check,
    pub negative: Vec<Check>,
    pub boundary: Vec<Check>,
}

/// One item of a plan.
#[derive(Clone, Debug, PartialEq, Eq)]
pub struct PlanItem {
    /// What tells this item from the others of the plan.
    pub id: String,
    /// What is to be done.
    pub description: String,
    /// How far it has come.
    pub state: PlanItemState,
    /// The paths that the work touches.
    pub touches: Vec<String>,
    /// The checks that the work has to stand.
    pub checks: Option<Checks>,
    /// The paths that show the work.
    pub evidence: Vec<String>,
    /// Free text.
    pub notes: Option<String>,
}

/// Mathematical form of a [`Check`].
pub struct CheckView {
    pub desc: Seq<char>,
    pub target: Seq<char>,
}

impl View for Check {
    type V = CheckView;

    open spec fn view(&self) -> CheckView {
        CheckView { desc: self.desc@, target: self.target@ }
    }
}

/// The views of a run of checks, in order.
pub open spec fn check_list(checks: Seq<Check>) -> Seq<CheckView> {
    Seq::new(checks.len(), |i: int| checks[i]@)
}

/// Mathematical form of [`Checks`].
pub struct ChecksView {
    pub happy: CheckView,
    pub negative: Seq<CheckView>,
    pub boundary: Seq<CheckView>,
}

impl View for Checks {
    type V = ChecksView;

    open spec fn view(&self) -> ChecksView {
        ChecksView {
            happy: self.happy@,
            negative: check_list(self.negative@),
            boundary: check_list(self.boundary@),
        }
    }
}

/// The views of a run of paths, in order.
pub open spec fn path_list(paths: Seq<String>) -> Seq<Seq<char>> {
    Seq::new(paths.len(), |i: int| paths[i]@)
}

/// Mathematical form of a [`PlanItem`]. The rules of a plan read its identifier and its
/// state.
pub struct PlanItemView {
    pub id: Seq<char>,
    pub description: Seq<char>,
    pub state: PlanItemState,
    pub touches: Seq<Seq<char>>,
    pub checks: Option<ChecksView>,
    pub evidence: Seq<Seq<char>>,
    pub notes: Option<Seq<char>>,
}

impl View for PlanItem {
    type V = PlanItemView;

    open spec fn view(&self) -> PlanItemView {
        PlanItemView {
            id: self.id@,
            description: self.description@,
            state: self.state,
            touches: path_list(self.touches@),
            checks: match self.checks {
                Some(c) => Some(c@),
                None => None,
            },
            evidence: path_list(self.evidence@),
            notes: match self.notes {
                Some(n) => Some(n@),
                None => None,
            },
        }
    }
}

impl PlanItem {
    /// An item to do, without paths, checks or notes.
    pub fn new(id: &str, description: &str) -> (r: PlanItem)
        ensures
            r@ == (PlanItemView {
                id: id@,
                description: description@,
                state: PlanItemState::Todo,
                touches: Seq::empty(),
                checks: None,
                evidence: Seq::empty(),
                notes: None,
            }),
    {
        let r = PlanItem {
            id: id.to_string(),
            description: description.to_string(),
            state: PlanItemState::Todo,
            touches: Vec::new(),
            checks: None,
            evidence: Vec::new(),
            notes: None,
        };
        assert(r@.touches =~= Seq::<Seq<char>>::empty());
        assert(r@.evidence =~= Seq::<Seq<char>>::empty());
        r
    }

    /// This item in the state `state`.
    pub fn with_state(self, state: PlanItemState) -> (r: PlanItem)
        ensures
            r == (PlanItem { state, ..self }),
    {
        PlanItem {
            id: self.id,
            description: self.description,
            state,
            touches: self.touches,
            checks: self.checks,
            evidence: self.evidence,
            notes: self.notes,
        }
    }
}

/// A plan: items under a revision number that goes up with every write, and the revision
/// at which the plan was approved.
#[derive(Clone, Debug, PartialEq, Eq)]
pub struct Plan {
    pub plan_id: String,
    pub revision: u32,
    pub approved_revision: Option<u32>,
    pub items: Vec<PlanItem>,
}

/// Mathematical form of a [`Plan`].
pub struct PlanView {
    pub plan_id: Seq<char>,
    pub revision: u32,
    pub approved_revision: Option<u32>,
    pub items: Seq<PlanItemView>,
}

/// The views of a run of items, in order.
pub open spec fn item_list(items: Seq<PlanItem>) -> Seq<PlanItemView> {
    Seq::new(items.len(), |i: int| items[i]@)
}

impl View for Plan {
    type V = PlanView;

    open spec fn view(&self) -> PlanView {
        PlanView {
            plan_id: self.plan_id@,
            revision: self.revision,
            approved_revision: self.approved_revision,
            items: item_list(self.items@),
        }
    }
}

/// Whether the items hold one with the identifier `id`.
pub open spec fn has_item(items: Seq<PlanItemView>, id: Seq<char>) -> bool {
    exists|i: int| 0 <= i < items.len() && (#[trigger] items[i]).id == id
}

/// Whether no identifier occurs twice among the items.
pub open spec fn ids_distinct(items: Seq<PlanItemView>) -> bool {
    forall|i: int, j: int|
        0 <= i < j < items.len() ==> (#[trigger] items[i]).id != (#[trigger] items[j]).id
}

/// Whether a plan has come to its end: every item is done or blocked. So it is where every
/// item is done, and where every item that is not done is blocked.
pub open spec fn plan_terminal(items: Seq<PlanItemView>) -> bool {
    forall|i: int|
        0 <= i < items.len() ==> (#[trigger] items[i]).state == PlanItemState::Done || items[i].state
            == PlanItemState::Blocked
}

/// Whether the revision `new` may follow the items `old`: no identifier twice; every item
/// that was there before is in a state that its old state may become; and, where the plan
/// is approved, every item that was there before is still there.
pub open spec fn write_accepted(old: Seq<PlanItemView>, approved: bool, new: Seq<PlanItemView>) -> bool {
    &&& ids_distinct(new)
    &&& forall|i: int, j: int|
        0 <= i < old.len() && 0 <= j < new.len() && (#[trigger] old[i]).id == (#[trigger] new[j]).id
            ==> may_become(old[i].state, new[j].state)
    &&& approved ==> forall|i: int| 0 <= i < old.len() ==> has_item(new, (#[trigger] old[i]).id)
}

/// Why a write to a plan is refused.
#[derive(Clone, Debug, PartialEq, Eq)]
pub enum PlanError {
    /// Two items of the new revision have this identifier.
    DuplicateItem(String),
    /// The item of this identifier would go from a state to one that it may not become.
    InvalidTransition(String),
    /// The item of this identifier is gone from the new revision of an approved plan.
    ItemRemoved(String),
    /// The revision number cannot go up any more.
    RevisionExhausted,
}

impl Plan {
    /// Whether no identifier occurs twice among the items.
    pub open spec fn wf(&self) -> bool {
        ids_distinct(self@.items)
    }

    /// A plan without items, at revision zero, not approved.
    pub fn new(plan_id: &str) -> (r: Plan)
        ensures
            r@ == (PlanView {
                plan_id: plan_id@,
                revision: 0,
                approved_revision: None,
                items: Seq::empty(),
            }),
            r.wf(),
    {
        let r = Plan {
            plan_id: plan_id.to_string(),
            revision: 0,
            approved_revision: None,
            items: Vec::new(),
        };
        assert(r@.items =~= Seq::<PlanItemView>::empty());
        r
    }

    /// Approves the plan at its current revision.
    pub fn approve(&mut self)
        ensures
            *final(self) == (Plan { approved_revision: Some(old(self).revision), ..*old(self) }),
    {
        self.approved_revision = Some(self.revision);
    }

    /// Whether the plan has come to its end: every item is done, or every item that is not
    /// done is blocked.
    pub fn is_terminal(&self) -> (r: bool)
        ensures
            r == plan_terminal(self@.items),
            r == ((forall|i: int|
                0 <= i < self@.items.len() ==> (#[trigger] self@.items[i]).state
                    == PlanItemState::Done) || (forall|i: int|
                0 <= i < self@.items.len() && (#[trigger] self@.items[i]).state
                    != PlanItemState::Done ==> self@.items[i].state == PlanItemState::Blocked)),
    {
        let ghost items = self@.items;
        let mut i: usize = 0;
        while i < self.items.len()
            invariant
                i <= self.items.len(),
                items == item_list(self.items@),
                forall|k: int|
                    0 <= k < i ==> (#[trigger] items[k]).state == PlanItemState::Done
                        || items[k].state == PlanItemState::Blocked,
            decreases self.items.len() - i,
        {
            let state = self.items[i].state;
            if state != PlanItemState::Done && state != PlanItemState::Blocked {
                assert(items[i as int].state == state);
                return false;
            }
            i += 1;
        }
        true
    }

    /// Index of the item with the identifier `id` among the first `upto` of `items`.
    fn find_item(items: &Vec<PlanItem>, upto: usize, id: &str) -> (r: Option<usize>)
        requires
            upto <= items.len(),
        ensures
            match r {
                Some(i) => i < upto && items@[i as int]@.id == id@,
                None => forall|k: int| 0 <= k < upto ==> (#[trigger] item_list(items@)[k]).id != id@,
            },
    {
        let mut i: usize = 0;
        while i < upto
            invariant
                i <= upto <= items.len(),
                forall|k: int| 0 <= k < i ==> (#[trigger] item_list(items@)[k]).id != id@,
            decreases upto - i,
        {
            if str_eq(items[i].id.as_str(), id) {
                return Some(i);
            }
            i += 1;
        }
        None
    }

    /// Writes a new revision of the plan.
    ///
    /// The write is accepted exactly where [`write_accepted`] holds and the revision number
    /// can still go up. Then the items are replaced and the revision goes up by one; the
    /// approval stays. A refused write changes nothing.
    pub fn write(&mut self, items: Vec<PlanItem>) -> (r: Result<(), PlanError>)
        ensures
            r is Ok <==> write_accepted(
                old(self)@.items,
                old(self)@.approved_revision is Some,
                item_list(items@),
            ) && old(self)@.revision < u32::MAX,
            r is Ok ==> *final(self) == (Plan {
                revision: (old(self).revision + 1) as u32,
                items,
                ..*old(self)
            }) && final(self).wf(),
            r is Err ==> *final(self) == *old(self),
    {
        let ghost old_items = self@.items;
        let ghost new_items = item_list(items@);
        let ghost approved = self@.approved_revision is Some;
        // no identifier twice
        let mut j: usize = 0;
        while j < items.len()
            invariant
                j <= items.len(),
                new_items == item_list(items@),
                forall|a: int, b: int|
                    0 <= a < b < j ==> (#[trigger] new_items[a]).id != (#[trigger] new_items[b]).id,
            decreases items.len() - j,
        {
            match Self::find_item(&items, j, items[j].id.as_str()) {
                Some(a) => {
                    assert(new_items[a as int].id == new_items[j as int].id);
                    return Err(PlanError::DuplicateItem(items[j].id.clone()));
                },
                None => {},
            }
            j += 1;
        }
        // every old item may become what it is in the new revision, and is still there
        let mut i: usize = 0;
        while i < self.items.len()
            invariant
                i <= self.items.len(),
                old_items == item_list(self.items@),
                old_items == old(self)@.items,
                *self == *old(self),
                new_items == item_list(items@),
                approved == (self.approved_revision is Some),
                ids_distinct(new_items),
                forall|a: int, b: int|
                    0 <= a < i && 0 <= b < new_items.len() && (#[trigger] old_items[a]).id == (
                    #[trigger] new_items[b]).id ==> may_become(old_items[a].state, new_items[b].state),
                approved ==> forall|a: int| 0 <= a < i ==> has_item(new_items, (#[trigger] old_items[a]).id),
            decreases self.items.len() - i,
        {
            let item = &self.items[i];
            assert(old_items[i as int] == item@);
            match Self::find_item(&items, items.len(), item.id.as_str()) {
                Some(b) => {
                    assert(new_items[b as int] == items@[b as int]@);
                    if !item.state.can_become(items[b].state) {
                        return Err(PlanError::InvalidTransition(item.id.clone()));
                    }
                    assert(has_item(new_items, item@.id));
                    assert forall|c: int|
                        0 <= c < new_items.len() && old_items[i as int].id == (
                        #[trigger] new_items[c]).id implies may_become(
                        old_items[i as int].state,
                        new_items[c].state,
                    ) by {
                        if c != b {
                            if c < b {
                                assert(new_items[c].id != new_items[b as int].id);
                            } else {
                                assert(new_items[b as int].id != new_items[c].id);
                            }
                        }
                    }
                },
                None => {
                    if self.approved_revision.is_some() {
                        assert(!has_item(new_items, old_items[i as int].id));
                        return Err(PlanError::ItemRemoved(item.id.clone()));
                    }
                },
            }
            i += 1;
        }
        if self.revision == u32::MAX {
            return Err(PlanError::RevisionExhausted);
        }
        self.items = items;
        self.revision = self.revision + 1;
        Ok(())
    }
}

/// Whether each plan of the chain follows from the one before it by an accepted write to
/// an approved plan.
pub open spec fn accepted_chain(chain: Seq<Seq<PlanItemView>>) -> bool {
    forall|k: int| 0 < k < chain.len() ==> write_accepted(#[trigger] chain[k - 1], true, chain[k])
}

/// After approval no accepted revision removes an item: what was in the plan when it was
/// approved is in every later revision.
pub proof fn lemma_plan_monotonic(chain: Seq<Seq<PlanItemView>>, id: Seq<char>)
    requires
        chain.len() > 0,
        accepted_chain(chain),
        has_item(chain[0], id),
    ensures
        has_item(chain.last(), id),
    decreases chain.len(),
{
    if chain.len() > 1 {
        let shorter = chain.drop_last();
        assert forall|k: int| 0 < k < shorter.len() implies write_accepted(
            #[trigger] shorter[k - 1],
            true,
            shorter[k],
        ) by {
            assert(shorter[k - 1] == chain[k - 1]);
            assert(write_accepted(chain[k - 1], true, chain[k]));
        }
        lemma_plan_monotonic(shorter, id);
        let before = chain[chain.len() - 2];
        assert(shorter.last() == before);
        assert(write_accepted(chain[chain.len() - 1 - 1], true, chain[chain.len() - 1]));
        let i = choose|i: int| 0 <= i < before.len() && (#[trigger] before[i]).id == id;
        assert(has_item(chain.last(), before[i].id));
    }
}

} // verus!
