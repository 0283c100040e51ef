//! Path selectors over a YAML tree: `a.b.c`, `items[0].id`, `items[*].name`.

use vstd::prelude::*;
use crate::text::{chars_of, string_of, push_str, slice_chars, trim_chars, trim, parse_u64, parse_unsigned};
use crate::value::{YamlValue, ValueView, item_views, lemma_view_sequence, lemma_view_mapping, entry_views};

verus! {

/// One step of a selector.
#[derive(Clone, Debug, PartialEq, Eq)]
pub enum SelectorSegment {
    /// Descend into the entry of a mapping with this key.
    Field(String),
    /// Descend into the item of a sequence at this index.
    Index(usize),
    /// Fan out over every item of a sequence.
    Wildcard,
}

/// Mathematical form of a [`SelectorSegment`].
pub enum SegmentView {
    Field(Seq<char>),
    Index(nat),
    Wildcard,
}

impl View for SelectorSegment {
    type V = SegmentView;

    open spec fn view(&self) -> SegmentView {
        match self {
            SelectorSegment::Field(name) => SegmentView::Field(name@),
            SelectorSegment::Index(i) => SegmentView::Index(*i as nat),
            SelectorSegment::Wildcard => SegmentView::Wildcard,
        }
    }
}

/// A parsed selector: the steps from the root of a document to the values it selects.
#[derive(Clone, Debug, PartialEq, Eq)]
pub struct Selector {
    pub segments: Vec<SelectorSegment>,
}

impl View for Selector {
    type V = Seq<SegmentView>;

    open spec fn view(&self) -> Seq<SegmentView> {
        Seq::new(self.segments@.len(), |i: int| self.segments@[i]@)
    }
}

/// Why a text is no selector.
#[derive(Clone, Debug, PartialEq, Eq)]
pub enum SelectorError {
    /// The text is empty or white space only.
    Empty,
    /// What stands between `[` and `]` is neither `*` nor an index.
    InvalidIndex(String),
    /// A `]` stands where no `[` is open.
    UnexpectedBracket,
    /// The text holds separators only.
    NoSegments,
    /// A `*` stands outside brackets.
    MisplacedWildcard,
}

/// Mathematical form of a [`SelectorError`].
pub enum SelectorErrorView {
    Empty,
    InvalidIndex(Seq<char>),
    UnexpectedBracket,
    NoSegments,
    MisplacedWildcard,
}

impl View for SelectorError {
    type V = SelectorErrorView;

    open spec fn view(&self) -> SelectorErrorView {
        match self {
            SelectorError::Empty => SelectorErrorView::Empty,
            SelectorError::InvalidIndex(t) => SelectorErrorView::InvalidIndex(t@),
            SelectorError::UnexpectedBracket => SelectorErrorView::UnexpectedBracket,
            SelectorError::NoSegments => SelectorErrorView::NoSegments,
            SelectorError::MisplacedWildcard => SelectorErrorView::MisplacedWildcard,
        }
    }
}

/// The text of the message that goes with an error.
pub open spec fn selector_error_text(e: SelectorErrorView) -> Seq<char> {
    match e {
        SelectorErrorView::Empty => "Selector cannot be empty"@,
        SelectorErrorView::InvalidIndex(t) => "Invalid array index: "@ + t,
        SelectorErrorView::UnexpectedBracket => "Unexpected ']' in selector"@,
        SelectorErrorView::NoSegments => "Selector produced no segments"@,
        SelectorErrorView::MisplacedWildcard => "Unexpected '*' outside brackets in selector"@,
    }
}

impl SelectorError {
    /// The message that goes with this error.
    pub fn message(&self) -> (s: String)
        ensures
            s@ == selector_error_text(self@),
    {
        match self {
            SelectorError::Empty => "Selector cannot be empty".to_string(),
            SelectorError::InvalidIndex(t) => {
                let mut out: Vec<char> = Vec::new();
                push_str(&mut out, "Invalid array index: ");
                push_str(&mut out, t.as_str());
                string_of(&out)
            },
            SelectorError::UnexpectedBracket => "Unexpected ']' in selector".to_string(),
            SelectorError::NoSegments => "Selector produced no segments".to_string(),
            SelectorError::MisplacedWildcard => "Unexpected '*' outside brackets in selector".to_string(),
        }
    }
}

/// The segments read so far, with the pending field name added when there is one.
pub open spec fn flush_field(segs: Seq<SegmentView>, cur: Seq<char>) -> Seq<SegmentView> {
    if cur.len() > 0 {
        segs.push(SegmentView::Field(cur))
    } else {
        segs
    }
}

/// Index of the first `]` of `s` at or after `i`, or the length of `s` where there is none.
pub open spec fn bracket_end(s: Seq<char>, i: int) -> int
    decreases s.len() - i,
{
    if i < 0 || i >= s.len() {
        s.len() as int
    } else if s[i] == ']' {
        i
    } else {
        bracket_end(s, i + 1)
    }
}

/// Reads the selector `s` from index `i` on, given the segments read so far and the field
/// name that is being read.
///
/// A `.` ends a field name. A `[` ends one too and opens a bracket, which runs to the next
/// `]` or, where none follows, to the end; it holds `*` or an index. A `]` or a `*` outside
/// a bracket is an error. Every other character belongs to a field name.
pub open spec fn parse_from(
    s: Seq<char>,
    i: int,
    segs: Seq<SegmentView>,
    cur: Seq<char>,
) -> Result<Seq<SegmentView>, SelectorErrorView>
    decreases s.len() - i,
{
    if i < 0 || i >= s.len() {
        let all = flush_field(segs, cur);
        if all.len() == 0 {
            Err(SelectorErrorView::NoSegments)
        } else {
            Ok(all)
        }
    } else if s[i] == '.' {
        parse_from(s, i + 1, flush_field(segs, cur), Seq::empty())
    } else if s[i] == '[' {
        proof {
            lemma_bracket_end_bounds(s, i + 1);
        }
        let close = bracket_end(s, i + 1);
        let inner = s.subrange(i + 1, close);
        let next = if close < s.len() {
            close + 1
        } else {
            close
        };
        if inner == seq!['*'] {
            parse_from(s, next, flush_field(segs, cur).push(SegmentView::Wildcard), Seq::empty())
        } else {
            match parse_unsigned(inner, usize::MAX as nat) {
                Some(n) => parse_from(
                    s,
                    next,
                    flush_field(segs, cur).push(SegmentView::Index(n)),
                    Seq::empty(),
                ),
                None => Err(SelectorErrorView::InvalidIndex(inner)),
            }
        }
    } else if s[i] == ']' {
        Err(SelectorErrorView::UnexpectedBracket)
    } else if s[i] == '*' {
        Err(SelectorErrorView::MisplacedWildcard)
    } else {
        parse_from(s, i + 1, segs, cur.push(s[i]))
    }
}

/// What parsing the text `s` as a selector gives.
pub open spec fn parse_selector(s: Seq<char>) -> Result<Seq<SegmentView>, SelectorErrorView> {
    let t = trim(s);
    if t.len() == 0 {
        Err(SelectorErrorView::Empty)
    } else {
        parse_from(t, 0, Seq::empty(), Seq::empty())
    }
}

/// A bracket ends at or behind its start, within the text, at a `]` where it is closed, and
/// holds no `]` before that.
pub proof fn lemma_bracket_end_bounds(s: Seq<char>, i: int)
    requires
        0 <= i <= s.len(),
    ensures
        i <= bracket_end(s, i) <= s.len(),
        bracket_end(s, i) < s.len() ==> s[bracket_end(s, i)] == ']',
        forall|k: int| i <= k < bracket_end(s, i) ==> s[k] != ']',
    decreases s.len() - i,
{
    if i < s.len() && s[i] != ']' {
        lemma_bracket_end_bounds(s, i + 1);
    }
}

/// A selector that parses has at least one segment.
pub proof fn lemma_parse_from_nonempty(
    s: Seq<char>,
    i: int,
    segs: Seq<SegmentView>,
    cur: Seq<char>,
)
    requires
        0 <= i <= s.len(),
    ensures
        parse_from(s, i, segs, cur) is Ok ==> parse_from(s, i, segs, cur)->Ok_0.len() > 0,
    decreases s.len() - i,
{
    if i >= s.len() {
    } else if s[i] == '.' {
        lemma_parse_from_nonempty(s, i + 1, flush_field(segs, cur), Seq::empty());
    } else if s[i] == '[' {
        lemma_bracket_end_bounds(s, i + 1);
        let close = bracket_end(s, i + 1);
        let inner = s.subrange(i + 1, close);
        let next = if close < s.len() {
            close + 1
        } else {
            close
        };
        if inner == seq!['*'] {
            lemma_parse_from_nonempty(
                s,
                next,
                flush_field(segs, cur).push(SegmentView::Wildcard),
                Seq::empty(),
            );
        } else {
            match parse_unsigned(inner, usize::MAX as nat) {
                Some(n) => lemma_parse_from_nonempty(
                    s,
                    next,
                    flush_field(segs, cur).push(SegmentView::Index(n)),
                    Seq::empty(),
                ),
                None => {},
            }
        }
    } else if s[i] == ']' || s[i] == '*' {
    } else {
        lemma_parse_from_nonempty(s, i + 1, segs, cur.push(s[i]));
    }
}

/// Whether a character can stand in a field name: any but `.`, `[`, `]` and `*`.
pub open spec fn is_name_char(c: char) -> bool {
    c != '.' && c != '[' && c != ']' && c != '*'
}

/// Whether every field among the segments has a name, and one made of name characters
/// only.
pub open spec fn fields_are_plain(segs: Seq<SegmentView>) -> bool {
    forall|k: int|
        0 <= k < segs.len() && (#[trigger] segs[k]) is Field ==> segs[k]->Field_0.len() > 0
            && forall|j: int|
            0 <= j < segs[k]->Field_0.len() ==> is_name_char(#[trigger] segs[k]->Field_0[j])
}

proof fn lemma_flush_plain(segs: Seq<SegmentView>, cur: Seq<char>)
    requires
        fields_are_plain(segs),
        forall|j: int| 0 <= j < cur.len() ==> is_name_char(#[trigger] cur[j]),
    ensures
        fields_are_plain(flush_field(segs, cur)),
{
    let all = flush_field(segs, cur);
    assert forall|k: int| 0 <= k < all.len() && (#[trigger] all[k]) is Field implies all[k]->Field_0.len()
        > 0 && forall|j: int|
        0 <= j < all[k]->Field_0.len() ==> is_name_char(#[trigger] all[k]->Field_0[j]) by {
        if k < segs.len() {
            assert(all[k] == segs[k]);
        }
    }
}

proof fn lemma_push_plain(segs: Seq<SegmentView>, seg: SegmentView)
    requires
        fields_are_plain(segs),
        !(seg is Field),
    ensures
        fields_are_plain(segs.push(seg)),
{
    let all = segs.push(seg);
    assert forall|k: int| 0 <= k < all.len() && (#[trigger] all[k]) is Field implies all[k]->Field_0.len()
        > 0 && forall|j: int|
        0 <= j < all[k]->Field_0.len() ==> is_name_char(#[trigger] all[k]->Field_0[j]) by {
        if k < segs.len() {
            assert(all[k] == segs[k]);
        }
    }
}

proof fn lemma_parse_from_plain(s: Seq<char>, i: int, segs: Seq<SegmentView>, cur: Seq<char>)
    requires
        0 <= i <= s.len(),
        fields_are_plain(segs),
        forall|j: int| 0 <= j < cur.len() ==> is_name_char(#[trigger] cur[j]),
    ensures
        parse_from(s, i, segs, cur) is Ok ==> fields_are_plain(parse_from(s, i, segs, cur)->Ok_0),
    decreases s.len() - i,
{
    lemma_flush_plain(segs, cur);
    if i >= s.len() {
    } else if s[i] == '.' {
        lemma_parse_from_plain(s, i + 1, flush_field(segs, cur), Seq::empty());
    } else if s[i] == '[' {
        lemma_bracket_end_bounds(s, i + 1);
        let close = bracket_end(s, i + 1);
        let inner = s.subrange(i + 1, close);
        let next = if close < s.len() {
            close + 1
        } else {
            close
        };
        if inner == seq!['*'] {
            lemma_push_plain(flush_field(segs, cur), SegmentView::Wildcard);
            lemma_parse_from_plain(
                s,
                next,
                flush_field(segs, cur).push(SegmentView::Wildcard),
                Seq::empty(),
            );
        } else {
            match parse_unsigned(inner, usize::MAX as nat) {
                Some(n) => {
                    lemma_push_plain(flush_field(segs, cur), SegmentView::Index(n));
                    lemma_parse_from_plain(
                        s,
                        next,
                        flush_field(segs, cur).push(SegmentView::Index(n)),
                        Seq::empty(),
                    );
                },
                None => {},
            }
        }
    } else if s[i] == ']' || s[i] == '*' {
    } else {
        let grown = cur.push(s[i]);
        assert forall|j: int| 0 <= j < grown.len() implies is_name_char(#[trigger] grown[j]) by {
            if j < cur.len() {
                assert(grown[j] == cur[j]);
            }
        }
        lemma_parse_from_plain(s, i + 1, segs, grown);
    }
}

/// In a selector that parses, a `*` stands inside brackets only: every field has a name,
/// and no name holds a `*`, a `.`, or a bracket.
pub proof fn lemma_parsed_fields_are_plain(s: Seq<char>)
    ensures
        parse_selector(s) is Ok ==> fields_are_plain(parse_selector(s)->Ok_0),
{
    lemma_parse_from_plain(trim(s), 0, Seq::empty(), Seq::empty());
}

/// Moves the pending field name, when there is one, to the segments.
fn flush(segments: &mut Vec<SelectorSegment>, current: &mut Vec<char>)
    ensures
        segment_views(final(segments)@) == flush_field(segment_views(old(segments)@), old(current)@),
        final(current)@ == Seq::<char>::empty(),
{
    if current.len() > 0 {
        let name = string_of(current);
        segments.push(SelectorSegment::Field(name));
        current.clear();
        assert(segment_views(segments@) =~= segment_views(old(segments)@).push(
            SegmentView::Field(old(current)@),
        ));
    }
    assert(current@ =~= Seq::<char>::empty());
}

/// The views of a run of segments, in order.
pub open spec fn segment_views(segs: Seq<SelectorSegment>) -> Seq<SegmentView> {
    Seq::new(segs.len(), |i: int| segs[i]@)
}

impl Selector {
    /// A selector has at least one segment.
    pub open spec fn wf(&self) -> bool {
        self.segments@.len() > 0
    }

    /// Parses a selector.
    ///
    /// Returns the segments that [`parse_selector`] gives for the text, or its error.
    pub fn parse(s: &str) -> (r: Result<Selector, SelectorError>)
        ensures
            match r {
                Ok(sel) => parse_selector(s@) == Ok::<Seq<SegmentView>, SelectorErrorView>(sel@)
                    && sel.wf(),
                Err(e) => parse_selector(s@) == Err::<Seq<SegmentView>, SelectorErrorView>(e@),
            },
    {
        let raw = chars_of(s);
        let t = trim_chars(&raw);
        if t.len() == 0 {
            return Err(SelectorError::Empty);
        }
        let mut segments: Vec<SelectorSegment> = Vec::new();
        let mut current: Vec<char> = Vec::new();
        let mut i: usize = 0;
        assert(segment_views(segments@) =~= Seq::<SegmentView>::empty());
        while i < t.len()
            invariant
                i <= t.len(),
                parse_selector(s@) == parse_from(t@, i as int, segment_views(segments@), current@),
            decreases t.len() - i,
        {
            let c = t[i];
            if c == '.' {
                flush(&mut segments, &mut current);
                i += 1;
            } else if c == '[' {
                flush(&mut segments, &mut current);
                let start: usize = i + 1;
                let mut close: usize = start;
                while close < t.len() && t[close] != ']'
                    invariant
                        start <= close <= t.len(),
                        bracket_end(t@, start as int) == bracket_end(t@, close as int),
                    decreases t.len() - close,
                {
                    close += 1;
                }
                let inner = slice_chars(&t, start, close);
                let next: usize = if close < t.len() {
                    close + 1
                } else {
                    close
                };
                let ghost before = segment_views(segments@);
                if inner.len() == 1 && inner[0] == '*' {
                    assert(inner@ =~= seq!['*']);
                    segments.push(SelectorSegment::Wildcard);
                    assert(segment_views(segments@) =~= before.push(SegmentView::Wildcard));
                } else {
                    assert(inner@ != seq!['*']) by {
                        if inner@ == seq!['*'] {
                            assert(seq!['*'].len() == 1);
                            assert(seq!['*'][0] == '*');
                        }
                    }
                    let parsed = parse_u64(&inner);
                    match parsed {
                        Some(n) => {
                            if n > usize::MAX as u64 {
                                return Err(SelectorError::InvalidIndex(string_of(&inner)));
                            }
                            segments.push(SelectorSegment::Index(n as usize));
                            assert(segment_views(segments@) =~= before.push(
                                SegmentView::Index(n as nat),
                            ));
                        },
                        None => {
                            return Err(SelectorError::InvalidIndex(string_of(&inner)));
                        },
                    }
                }
                i = next;
            } else if c == ']' {
                return Err(SelectorError::UnexpectedBracket);
            } else if c == '*' {
                return Err(SelectorError::MisplacedWildcard);
            } else {
                current.push(c);
                i += 1;
            }
        }
        flush(&mut segments, &mut current);
        if segments.len() == 0 {
            return Err(SelectorError::NoSegments);
        }
        let sel = Selector { segments };
        assert(sel@ =~= segment_views(sel.segments@));
        Ok(sel)
    }
}


/// The value of the first entry of a mapping whose key is `key`.
pub open spec fn lookup(entries: Seq<(ValueView, ValueView)>, key: ValueView) -> Option<
    ValueView,
>
    decreases entries.len(),
{
    if entries.len() == 0 {
        None
    } else if entries[0].0 == key {
        Some(entries[0].1)
    } else {
        lookup(entries.drop_first(), key)
    }
}

/// The values that the segments from index `idx` on select below `v`, in document order.
///
/// A field descends only through a mapping, an index only through a sequence, and a wildcard
/// fans out over the items of a sequence. What is missing selects nothing.
pub open spec fn select_from(segs: Seq<SegmentView>, idx: int, v: ValueView) -> Seq<ValueView>
    decreases segs.len() - idx, 1int, 0int,
{
    if idx < 0 || idx >= segs.len() {
        seq![v]
    } else {
        match segs[idx] {
            SegmentView::Field(name) => match v {
                ValueView::Mapping(entries) => match lookup(entries, ValueView::String(name)) {
                    Some(child) => select_from(segs, idx + 1, child),
                    None => Seq::empty(),
                },
                _ => Seq::empty(),
            },
            SegmentView::Index(n) => match v {
                ValueView::Sequence(items) => if n < items.len() {
                    select_from(segs, idx + 1, items[n as int])
                } else {
                    Seq::empty()
                },
                _ => Seq::empty(),
            },
            SegmentView::Wildcard => match v {
                ValueView::Sequence(items) => select_each(segs, idx, items),
                _ => Seq::empty(),
            },
        }
    }
}

/// What the segments after index `idx` select below each of `items`, one after the other.
pub open spec fn select_each(segs: Seq<SegmentView>, idx: int, items: Seq<ValueView>) -> Seq<
    ValueView,
>
    decreases segs.len() - idx, 0int, items.len(),
{
    if idx < 0 || idx >= segs.len() || items.len() == 0 {
        Seq::empty()
    } else {
        select_each(segs, idx, items.drop_last()) + select_from(segs, idx + 1, items.last())
    }
}

/// What a selector selects in the document `v`.
pub open spec fn select_values(segs: Seq<SegmentView>, v: ValueView) -> Seq<ValueView> {
    select_from(segs, 0, v)
}

/// Finds the value of the first entry whose key is the string `name`.
fn find_entry<'a>(entries: &'a Vec<(YamlValue, YamlValue)>, name: &String) -> (r: Option<&'a YamlValue>)
    ensures
        match r {
            Some(child) => lookup(entry_views(entries@), ValueView::String(name@)) == Some(
                child@,
            ),
            None => lookup(entry_views(entries@), ValueView::String(name@)) is None,
        },
{
    let ghost all = entry_views(entries@);
    let ghost key = ValueView::String(name@);
    let mut i: usize = 0;
    assert(all.skip(0) =~= all);
    while i < entries.len()
        invariant
            i <= entries.len(),
            all == entry_views(entries@),
            key == ValueView::String(name@),
            lookup(all, key) == lookup(all.skip(i as int), key),
        decreases entries.len() - i,
    {
        let hit = match &entries[i].0 {
            YamlValue::String(k) => *k == *name,
            _ => false,
        };
        assert(all.skip(i as int)[0] == all[i as int]);
        assert(all.skip(i as int).drop_first() =~= all.skip(i + 1));
        if hit {
            return Some(&entries[i].1);
        }
        i += 1;
    }
    None
}

impl Selector {
    /// Appends to `out` what the segments from `idx` on select below `value`.
    #[verifier::loop_isolation(false)]
    fn select_recursive(&self, value: &YamlValue, idx: usize, out: &mut Vec<YamlValue>)
        ensures
            item_views(final(out)@) == item_views(old(out)@) + select_from(
                self@,
                idx as int,
                value@,
            ),
        decreases self.segments.len() - idx, value,
    {
        let ghost before = item_views(out@);
        let ghost segs = self@;
        if idx >= self.segments.len() {
            out.push(value.clone_value());
            assert(item_views(out@) =~= before + seq![value@]);
            return ;
        }
        assert(segs[idx as int] == self.segments@[idx as int]@);
        match &self.segments[idx] {
            SelectorSegment::Field(name) => {
                match value {
                    YamlValue::Mapping(entries) => {
                        proof {
                            lemma_view_mapping(*entries);
                        }
                        match find_entry(entries, name) {
                            Some(child) => {
                                self.select_recursive(child, idx + 1, out);
                            },
                            None => {
                                assert(before + Seq::<ValueView>::empty() =~= before);
                            },
                        }
                    },
                    _ => {
                        assert(before + Seq::<ValueView>::empty() =~= before);
                    },
                }
            },
            SelectorSegment::Index(n) => {
                match value {
                    YamlValue::Sequence(items) => {
                        proof {
                            lemma_view_sequence(*items);
                        }
                        if *n < items.len() {
                            self.select_recursive(&items[*n], idx + 1, out);
                        } else {
                            assert(before + Seq::<ValueView>::empty() =~= before);
                        }
                    },
                    _ => {
                        assert(before + Seq::<ValueView>::empty() =~= before);
                    },
                }
            },
            SelectorSegment::Wildcard => {
                match value {
                    YamlValue::Sequence(items) => {
                        proof {
                            lemma_view_sequence(*items);
                        }
                        let ghost views = item_views(items@);
                        let mut i: usize = 0;
                        assert(views.take(0) =~= Seq::<ValueView>::empty());
                        assert(before + Seq::<ValueView>::empty() =~= before);
                        while i < items.len()
                            invariant
                                i <= items.len(),
                                item_views(out@) == before + select_each(
                                    segs,
                                    idx as int,
                                    views.take(i as int),
                                ),
                            decreases items.len() - i,
                        {
                            let ghost mid = item_views(out@);
                            self.select_recursive(&items[i], idx + 1, out);
                            proof {
                                let t = views.take(i + 1);
                                assert(t.drop_last() =~= views.take(i as int));
                                assert(t.last() == items@[i as int]@);
                                assert(item_views(out@) =~= before + select_each(
                                    segs,
                                    idx as int,
                                    t,
                                ));
                            }
                            i += 1;
                        }
                        assert(views.take(i as int) =~= views);
                    },
                    _ => {
                        assert(before + Seq::<ValueView>::empty() =~= before);
                    },
                }
            },
        }
    }

    /// Selects values from a document.
    ///
    /// Returns copies of the values that the selector reaches, in document order; an empty
    /// list where it reaches none. Every selector can be run on every document.
    pub fn select(&self, value: &YamlValue) -> (r: Vec<YamlValue>)
        ensures
            item_views(r@) == select_values(self@, value@),
    {
        let mut out: Vec<YamlValue> = Vec::new();
        assert(item_views(out@) =~= Seq::<ValueView>::empty());
        self.select_recursive(value, 0, &mut out);
        assert(Seq::<ValueView>::empty() + select_from(self@, 0, value@) =~= select_from(
            self@,
            0,
            value@,
        ));
        out
    }

    /// Selects a single value.
    ///
    /// Returns the selected value where the selector reaches exactly one, else `None`.
    pub fn select_one(&self, value: &YamlValue) -> (r: Option<YamlValue>)
        ensures
            match r {
                Some(v) => select_values(self@, value@) == seq![v@],
                None => select_values(self@, value@).len() != 1,
            },
    {
        let mut results = self.select(value);
        if results.len() == 1 {
            let v = results.pop().unwrap();
            assert(select_values(self@, value@) =~= seq![v@]);
            Some(v)
        } else {
            None
        }
    }
}

} // verus!
