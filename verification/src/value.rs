//! The YAML data model that facts, operands and selectors work on.

use vstd::prelude::*;
use crate::text::{decimal, decimal_int, push_decimal, push_str, string_of};

verus! {

/// A YAML number. A float is held by its written form.
#[derive(Clone, Debug, PartialEq, Eq)]
pub enum YamlNumber {
    PosInt(u64),
    NegInt(i64),
    Float(String),
}

/// A YAML document tree.
#[derive(Debug, PartialEq, Eq)]
pub enum YamlValue {
    Null,
    Bool(bool),
    Number(YamlNumber),
    String(String),
    Sequence(Vec<YamlValue>),
    Mapping(Vec<(YamlValue, YamlValue)>),
}

/// Mathematical form of a [`YamlNumber`].
pub enum NumberView {
    PosInt(u64),
    NegInt(i64),
    Float(Seq<char>),
}

/// Mathematical form of a [`YamlValue`].
pub enum ValueView {
    Null,
    Bool(bool),
    Number(NumberView),
    String(Seq<char>),
    Sequence(Seq<ValueView>),
    Mapping(Seq<(ValueView, ValueView)>),
}

impl View for YamlNumber {
    type V = NumberView;

    open spec fn view(&self) -> NumberView {
        match self {
            YamlNumber::PosInt(u) => NumberView::PosInt(*u),
            YamlNumber::NegInt(i) => NumberView::NegInt(*i),
            YamlNumber::Float(t) => NumberView::Float(t@),
        }
    }
}

/// The mathematical form of `v`.
pub open spec fn value_view(v: YamlValue) -> ValueView
    decreases v,
{
    match v {
        YamlValue::Null => ValueView::Null,
        YamlValue::Bool(b) => ValueView::Bool(b),
        YamlValue::Number(n) => ValueView::Number(n@),
        YamlValue::String(s) => ValueView::String(s@),
        YamlValue::Sequence(items) => ValueView::Sequence(
            Seq::new(
                items@.len(),
                |i: int|
                    if 0 <= i < items@.len() {
                        value_view(items@[i])
                    } else {
                        ValueView::Null
                    },
            ),
        ),
        YamlValue::Mapping(entries) => ValueView::Mapping(
            Seq::new(
                entries@.len(),
                |i: int|
                    if 0 <= i < entries@.len() {
                        (value_view(entries@[i].0), value_view(entries@[i].1))
                    } else {
                        (ValueView::Null, ValueView::Null)
                    },
            ),
        ),
    }
}

impl View for YamlValue {
    type V = ValueView;

    open spec fn view(&self) -> ValueView {
        value_view(*self)
    }
}


/// The views of the items of a sequence, in order.
pub open spec fn item_views(items: Seq<YamlValue>) -> Seq<ValueView> {
    Seq::new(items.len(), |i: int| items[i]@)
}

/// The views of the entries of a mapping, in order.
pub open spec fn entry_views(entries: Seq<(YamlValue, YamlValue)>) -> Seq<(ValueView, ValueView)> {
    Seq::new(entries.len(), |i: int| (entries[i].0@, entries[i].1@))
}

/// The view of a sequence value is the sequence of the views of its items.
pub proof fn lemma_view_sequence(items: Vec<YamlValue>)
    ensures
        YamlValue::Sequence(items)@ == ValueView::Sequence(item_views(items@)),
{
    let a = YamlValue::Sequence(items)@;
    assert(a is Sequence);
    assert(a->Sequence_0.len() == items@.len());
    assert forall|i: int| 0 <= i < items@.len() implies a->Sequence_0[i] == items@[i]@ by {}
    assert(a->Sequence_0 =~= item_views(items@));
}

/// The view of a mapping value is the sequence of the views of its entries.
pub proof fn lemma_view_mapping(entries: Vec<(YamlValue, YamlValue)>)
    ensures
        YamlValue::Mapping(entries)@ == ValueView::Mapping(entry_views(entries@)),
{
    let a = YamlValue::Mapping(entries)@;
    assert(a is Mapping);
    assert(a->Mapping_0.len() == entries@.len());
    assert forall|i: int| 0 <= i < entries@.len() implies a->Mapping_0[i] == (
        entries@[i].0@,
        entries@[i].1@,
    ) by {}
    assert(a->Mapping_0 =~= entry_views(entries@));
}

impl YamlNumber {
    /// A copy of this number.
    pub fn clone_number(&self) -> (r: YamlNumber)
        ensures
            r@ == self@,
    {
        match self {
            YamlNumber::PosInt(u) => YamlNumber::PosInt(*u),
            YamlNumber::NegInt(i) => YamlNumber::NegInt(*i),
            YamlNumber::Float(t) => YamlNumber::Float(t.clone()),
        }
    }

    /// Whether two numbers are of the same kind and written alike.
    pub fn same(&self, other: &YamlNumber) -> (r: bool)
        ensures
            r == (self@ == other@),
    {
        match self {
            YamlNumber::PosInt(a) => match other {
                YamlNumber::PosInt(b) => *a == *b,
                _ => false,
            },
            YamlNumber::NegInt(a) => match other {
                YamlNumber::NegInt(b) => *a == *b,
                _ => false,
            },
            YamlNumber::Float(a) => match other {
                YamlNumber::Float(b) => *a == *b,
                _ => false,
            },
        }
    }
}

impl YamlValue {
    /// A deep copy of this value.
    #[verifier::loop_isolation(false)]
    pub fn clone_value(&self) -> (r: YamlValue)
        ensures
            r@ == self@,
        decreases self,
    {
        match self {
            YamlValue::Null => YamlValue::Null,
            YamlValue::Bool(b) => YamlValue::Bool(*b),
            YamlValue::Number(n) => YamlValue::Number(n.clone_number()),
            YamlValue::String(s) => YamlValue::String(s.clone()),
            YamlValue::Sequence(items) => {
                let mut out: Vec<YamlValue> = Vec::new();
                let mut i: usize = 0;
                while i < items.len()
                    invariant
                        i <= items.len(),
                        out@.len() == i,
                        forall|k: int| 0 <= k < i ==> out@[k]@ == items@[k]@,
                    decreases items.len() - i,
                {
                    out.push(items[i].clone_value());
                    i += 1;
                }
                proof {
                    lemma_view_sequence(out);
                    lemma_view_sequence(*items);
                    assert(item_views(out@) =~= item_views(items@));
                }
                YamlValue::Sequence(out)
            },
            YamlValue::Mapping(entries) => {
                let mut out: Vec<(YamlValue, YamlValue)> = Vec::new();
                let mut i: usize = 0;
                while i < entries.len()
                    invariant
                        i <= entries.len(),
                        out@.len() == i,
                        forall|k: int|
                            0 <= k < i ==> out@[k].0@ == entries@[k].0@ && out@[k].1@
                                == entries@[k].1@,
                    decreases entries.len() - i,
                {
                    let k = entries[i].0.clone_value();
                    let v = entries[i].1.clone_value();
                    out.push((k, v));
                    i += 1;
                }
                proof {
                    lemma_view_mapping(out);
                    lemma_view_mapping(*entries);
                    assert(entry_views(out@) =~= entry_views(entries@));
                }
                YamlValue::Mapping(out)
            },
        }
    }

    /// Whether two values are the same tree: same kinds, same scalars, same items and
    /// entries in the same order.
    #[verifier::loop_isolation(false)]
    pub fn same(&self, other: &YamlValue) -> (r: bool)
        ensures
            r == (self@ == other@),
        decreases self,
    {
        match self {
            YamlValue::Null => match other {
                YamlValue::Null => true,
                _ => false,
            },
            YamlValue::Bool(a) => match other {
                YamlValue::Bool(b) => *a == *b,
                _ => false,
            },
            YamlValue::Number(a) => match other {
                YamlValue::Number(b) => a.same(b),
                _ => false,
            },
            YamlValue::String(a) => match other {
                YamlValue::String(b) => *a == *b,
                _ => false,
            },
            YamlValue::Sequence(a) => match other {
                YamlValue::Sequence(b) => {
                    proof {
                        lemma_view_sequence(*a);
                        lemma_view_sequence(*b);
                    }
                    if a.len() != b.len() {
                        assert(item_views(a@).len() != item_views(b@).len());
                        return false;
                    }
                    let mut i: usize = 0;
                    while i < a.len()
                        invariant
                            i <= a.len(),
                            a.len() == b.len(),
                            forall|k: int| 0 <= k < i ==> a@[k]@ == b@[k]@,
                        decreases a.len() - i,
                    {
                        if !a[i].same(&b[i]) {
                            assert(item_views(a@)[i as int] != item_views(b@)[i as int]);
                            return false;
                        }
                        i += 1;
                    }
                    assert(item_views(a@) =~= item_views(b@));
                    true
                },
                _ => false,
            },
            YamlValue::Mapping(a) => match other {
                YamlValue::Mapping(b) => {
                    proof {
                        lemma_view_mapping(*a);
                        lemma_view_mapping(*b);
                    }
                    if a.len() != b.len() {
                        assert(entry_views(a@).len() != entry_views(b@).len());
                        return false;
                    }
                    let mut i: usize = 0;
                    while i < a.len()
                        invariant
                            i <= a.len(),
                            a.len() == b.len(),
                            forall|k: int|
                                0 <= k < i ==> a@[k].0@ == b@[k].0@ && a@[k].1@ == b@[k].1@,
                        decreases a.len() - i,
                    {
                        if !a[i].0.same(&b[i].0) || !a[i].1.same(&b[i].1) {
                            assert(entry_views(a@)[i as int] != entry_views(b@)[i as int]);
                            return false;
                        }
                        i += 1;
                    }
                    assert(entry_views(a@) =~= entry_views(b@));
                    true
                },
                _ => false,
            },
        }
    }

    /// Whether this value is YAML's null.
    pub fn is_null(&self) -> (r: bool)
        ensures
            r == (self@ == ValueView::Null),
    {
        match self {
            YamlValue::Null => true,
            _ => false,
        }
    }
}


/// How a number is written: an integer in decimal notation, a float as it is held.
pub open spec fn number_text(n: NumberView) -> Seq<char> {
    match n {
        NumberView::PosInt(u) => decimal(u as nat),
        NumberView::NegInt(i) => decimal_int(i as int),
        NumberView::Float(t) => t,
    }
}

/// The flat text of a value: `null`, `true` or `false`, a number as it is written, a string
/// as it is, a sequence as its items' texts between brackets and joined by `", "`, and a
/// mapping as `{object}`.
pub open spec fn value_text(v: ValueView) -> Seq<char>
    decreases v,
{
    match v {
        ValueView::Null => "null"@,
        ValueView::Bool(b) => if b {
            "true"@
        } else {
            "false"@
        },
        ValueView::Number(n) => number_text(n),
        ValueView::String(s) => s,
        ValueView::Sequence(items) => seq!['['] + joined_texts(items) + seq![']'],
        ValueView::Mapping(_) => "{object}"@,
    }
}

/// The flat texts of `items`, joined by `", "`.
pub open spec fn joined_texts(items: Seq<ValueView>) -> Seq<char>
    decreases items,
{
    if items.len() == 0 {
        Seq::empty()
    } else if items.len() == 1 {
        value_text(items[0])
    } else {
        joined_texts(items.drop_last()) + seq![',', ' '] + value_text(items.last())
    }
}

/// The short text that stands for a value in a message: like its flat text, but `[array]`
/// for every sequence.
pub open spec fn display_text(v: ValueView) -> Seq<char> {
    match v {
        ValueView::Sequence(_) => "[array]"@,
        _ => value_text(v),
    }
}

impl YamlNumber {
    /// Appends the written form of this number to `out`.
    pub fn push_text(&self, out: &mut Vec<char>)
        ensures
            final(out)@ == old(out)@ + number_text(self@),
    {
        match self {
            YamlNumber::PosInt(u) => {
                push_decimal(out, *u);
            },
            YamlNumber::NegInt(i) => {
                if *i < 0 {
                    out.push('-');
                    let magnitude: u64 = if *i == i64::MIN {
                        9223372036854775808u64
                    } else {
                        (-*i) as u64
                    };
                    push_decimal(out, magnitude);
                    assert(out@ =~= old(out)@ + (seq!['-'] + decimal((-(*i as int)) as nat)));
                } else {
                    push_decimal(out, *i as u64);
                }
            },
            YamlNumber::Float(t) => {
                push_str(out, t.as_str());
            },
        }
    }

    /// The written form of this number.
    pub fn to_text(&self) -> (s: String)
        ensures
            s@ == number_text(self@),
    {
        let mut out: Vec<char> = Vec::new();
        self.push_text(&mut out);
        assert(out@ =~= number_text(self@));
        string_of(&out)
    }
}

impl YamlValue {
    /// Appends the flat text of this value to `out`.
    #[verifier::loop_isolation(false)]
    pub fn push_text(&self, out: &mut Vec<char>)
        ensures
            final(out)@ == old(out)@ + value_text(self@),
        decreases self,
    {
        match self {
            YamlValue::Null => {
                push_str(out, "null");
            },
            YamlValue::Bool(b) => {
                if *b {
                    push_str(out, "true");
                } else {
                    push_str(out, "false");
                }
            },
            YamlValue::Number(n) => {
                n.push_text(out);
            },
            YamlValue::String(s) => {
                push_str(out, s.as_str());
            },
            YamlValue::Sequence(items) => {
                proof {
                    lemma_view_sequence(*items);
                }
                let ghost before = out@;
                let ghost views = item_views(items@);
                out.push('[');
                let mut i: usize = 0;
                assert(views.take(0) =~= Seq::<ValueView>::empty());
                assert(out@ =~= before + seq!['['] + joined_texts(views.take(0)));
                while i < items.len()
                    invariant
                        i <= items.len(),
                        out@ == before + seq!['['] + joined_texts(views.take(i as int)),
                    decreases items.len() - i,
                {
                    let ghost mid = out@;
                    if i > 0 {
                        out.push(',');
                        out.push(' ');
                    }
                    items[i].push_text(out);
                    proof {
                        let t = views.take(i + 1);
                        assert(t.drop_last() =~= views.take(i as int));
                        assert(t.last() == items@[i as int]@);
                        assert(t[0] == views[0]);
                        if i > 0 {
                            assert(out@ =~= before + seq!['['] + (joined_texts(
                                views.take(i as int),
                            ) + seq![',', ' '] + value_text(t.last())));
                        } else {
                            assert(joined_texts(views.take(0)) =~= Seq::<char>::empty());
                            assert(out@ =~= before + seq!['['] + value_text(t[0]));
                        }
                    }
                    i += 1;
                }
                assert(views.take(i as int) =~= views);
                out.push(']');
                assert(out@ =~= before + (seq!['['] + joined_texts(views) + seq![']']));
            },
            YamlValue::Mapping(entries) => {
                proof {
                    lemma_view_mapping(*entries);
                }
                push_str(out, "{object}");
            },
        }
    }

    /// The flat text of this value.
    pub fn to_text(&self) -> (s: String)
        ensures
            s@ == value_text(self@),
    {
        let mut out: Vec<char> = Vec::new();
        self.push_text(&mut out);
        assert(out@ =~= value_text(self@));
        string_of(&out)
    }

    /// The short text that stands for this value in a message.
    pub fn display(&self) -> (s: String)
        ensures
            s@ == display_text(self@),
    {
        match self {
            YamlValue::Sequence(items) => {
                proof {
                    lemma_view_sequence(*items);
                }
                "[array]".to_string()
            },
            _ => self.to_text(),
        }
    }
}


impl Clone for YamlValue {
    fn clone(&self) -> (r: Self)
        ensures
            r@ == self@,
    {
        self.clone_value()
    }
}

} // verus!
