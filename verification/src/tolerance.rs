//! Selectors written with a leading `facts.`: why they select what the same selector
//! without it selects.

use vstd::prelude::*;
use crate::datalog::{claim_facts, claim_table, selected_for, table_facts, wrapped_document};
use crate::rulespec::ClaimView;
use crate::envelope::document_of;
use crate::selector::{
    bracket_end, flush_field, lemma_bracket_end_bounds, lookup, parse_from, parse_selector,
    select_each, select_from, select_values, SegmentView, SelectorErrorView,
};
use crate::text::{is_space, leading_spaces, lemma_trailing_spaces, trailing_spaces, trim, trim_end};
use crate::value::ValueView;

verus! {

/// The segment that the prefix `facts.` stands for.
pub open spec fn facts_segment() -> SegmentView {
    SegmentView::Field("facts"@)
}

/// Behind one more segment at the front, the segments select what they select alone.
pub proof fn lemma_select_shift(pre: SegmentView, segs: Seq<SegmentView>, idx: int, v: ValueView)
    requires
        0 <= idx,
    ensures
        select_from(seq![pre] + segs, idx + 1, v) == select_from(segs, idx, v),
    decreases segs.len() - idx, 1int, 0int,
{
    let all = seq![pre] + segs;
    if idx < segs.len() {
        assert(all[idx + 1] == segs[idx]);
        match segs[idx] {
            SegmentView::Field(name) => match v {
                ValueView::Mapping(entries) => match lookup(entries, ValueView::String(name)) {
                    Some(child) => {
                        lemma_select_shift(pre, segs, idx + 1, child);
                    },
                    None => {},
                },
                _ => {},
            },
            SegmentView::Index(n) => match v {
                ValueView::Sequence(items) => {
                    if n < items.len() {
                        lemma_select_shift(pre, segs, idx + 1, items[n as int]);
                    }
                },
                _ => {},
            },
            SegmentView::Wildcard => match v {
                ValueView::Sequence(items) => {
                    lemma_select_each_shift(pre, segs, idx, items);
                },
                _ => {},
            },
        }
    }
}

/// Behind one more segment at the front, the segments select from each item what they
/// select alone.
pub proof fn lemma_select_each_shift(
    pre: SegmentView,
    segs: Seq<SegmentView>,
    idx: int,
    items: Seq<ValueView>,
)
    requires
        0 <= idx < segs.len(),
    ensures
        select_each(seq![pre] + segs, idx + 1, items) == select_each(segs, idx, items),
    decreases segs.len() - idx, 0int, items.len(),
{
    if items.len() > 0 {
        lemma_select_each_shift(pre, segs, idx, items.drop_last());
        lemma_select_shift(pre, segs, idx + 1, items.last());
    }
}

/// A selector whose first segment is not the field `facts` selects nothing in a document
/// that holds the one key `facts`.
pub proof fn lemma_nothing_in_wrapper(segs: Seq<SegmentView>, doc: ValueView)
    requires
        segs.len() > 0,
        segs[0] != facts_segment(),
    ensures
        select_values(segs, wrapped_document(doc)).len() == 0,
{
    let entries = seq![(ValueView::String("facts"@), doc)];
    match segs[0] {
        SegmentView::Field(name) => {
            assert(entries[0].0 != ValueView::String(name));
            assert(entries.drop_first() =~= Seq::<(ValueView, ValueView)>::empty());
            assert(lookup(entries.drop_first(), ValueView::String(name)) is None);
        },
        _ => {},
    }
}

/// The field `facts` is found in the document that holds it as its one key.
pub proof fn lemma_wrapper_lookup(doc: ValueView)
    ensures
        lookup(seq![(ValueView::String("facts"@), doc)], ValueView::String("facts"@)) == Some(doc),
{
}

/// Prefix tolerance, for parsed selectors: where the facts hold no key `facts`, a selector
/// with the segment `facts` in front selects for extraction what it selects without it,
/// as long as its own first segment is not the field `facts`.
pub proof fn lemma_prefix_tolerance_segments(
    segs: Seq<SegmentView>,
    facts: Seq<(Seq<char>, ValueView)>,
)
    requires
        segs.len() > 0,
        segs[0] != facts_segment(),
        lookup(document_of(facts)->Mapping_0, ValueView::String("facts"@)) is None,
    ensures
        selected_for(seq![facts_segment()] + segs, document_of(facts)) == selected_for(
            segs,
            document_of(facts),
        ),
{
    let doc = document_of(facts);
    let all = seq![facts_segment()] + segs;
    assert(all[0] == facts_segment());
    // with the prefix, nothing is selected in the facts themselves
    assert(select_values(all, doc).len() == 0);
    // so the wrapped facts are asked, where the prefix leads to the facts
    lemma_wrapper_lookup(doc);
    lemma_select_shift(facts_segment(), segs, 0, doc);
    assert(select_values(all, wrapped_document(doc)) == select_values(segs, doc));
    // without the prefix, the wrapped facts give nothing
    lemma_nothing_in_wrapper(segs, doc);
}

/// The outcome of parsing with some segments put in front of those of a successful parse.
pub open spec fn prepended(
    pre: Seq<SegmentView>,
    r: Result<Seq<SegmentView>, SelectorErrorView>,
) -> Result<Seq<SegmentView>, SelectorErrorView> {
    match r {
        Ok(s) => Ok(pre + s),
        Err(e) => Err(e),
    }
}

proof fn lemma_bracket_end_shift(p: Seq<char>, t: Seq<char>, i: int)
    requires
        0 <= i <= t.len(),
    ensures
        bracket_end(p + t, p.len() + i) == p.len() + bracket_end(t, i),
    decreases t.len() - i,
{
    let s = p + t;
    if i < t.len() {
        assert(s[p.len() + i] == t[i]);
        if t[i] != ']' {
            lemma_bracket_end_shift(p, t, i + 1);
        }
    }
}

/// Parsing a text behind a prefix that was read into the segments `pre` gives, where the
/// text parses alone, those segments and then its own.
proof fn lemma_parse_shift(
    p: Seq<char>,
    t: Seq<char>,
    i: int,
    pre: Seq<SegmentView>,
    segs: Seq<SegmentView>,
    cur: Seq<char>,
)
    requires
        0 <= i <= t.len(),
        parse_from(t, i, segs, cur) is Ok,
    ensures
        parse_from(p + t, p.len() + i, pre + segs, cur) == prepended(
            pre,
            parse_from(t, i, segs, cur),
        ),
    decreases t.len() - i,
{
    let s = p + t;
    if i >= t.len() {
        if cur.len() > 0 {
            assert(flush_field(pre + segs, cur) =~= pre + flush_field(segs, cur));
        } else {
            assert(flush_field(pre + segs, cur) =~= pre + flush_field(segs, cur));
        }
    } else {
        assert(s[p.len() + i] == t[i]);
        assert(flush_field(pre + segs, cur) =~= pre + flush_field(segs, cur));
        if t[i] == '.' {
            lemma_parse_shift(p, t, i + 1, pre, flush_field(segs, cur), Seq::empty());
        } else if t[i] == '[' {
            lemma_bracket_end_bounds(t, i + 1);
            lemma_bracket_end_shift(p, t, i + 1);
            let close = bracket_end(t, i + 1);
            let inner = t.subrange(i + 1, close);
            assert(s.subrange(p.len() + i + 1, p.len() + close) =~= inner);
            let next = if close < t.len() {
                close + 1
            } else {
                close
            };
            if inner == seq!['*'] {
                let grown = flush_field(segs, cur).push(SegmentView::Wildcard);
                assert(flush_field(pre + segs, cur).push(SegmentView::Wildcard) =~= pre + grown);
                lemma_parse_shift(p, t, next, pre, grown, Seq::empty());
            } else {
                match crate::text::parse_unsigned(inner, usize::MAX as nat) {
                    Some(n) => {
                        let grown = flush_field(segs, cur).push(SegmentView::Index(n));
                        assert(flush_field(pre + segs, cur).push(SegmentView::Index(n)) =~= pre
                            + grown);
                        lemma_parse_shift(p, t, next, pre, grown, Seq::empty());
                    },
                    None => {},
                }
            }
        } else if t[i] == ']' || t[i] == '*' {
        } else {
            lemma_parse_shift(p, t, i + 1, pre, segs, cur.push(t[i]));
        }
    }
}

/// The text `facts.` is read as the one segment `facts`, and the parse goes on behind it.
proof fn lemma_parse_prefix(t: Seq<char>)
    ensures
        parse_from("facts."@ + t, 0, Seq::empty(), Seq::empty()) == parse_from(
            "facts."@ + t,
            6,
            seq![facts_segment()],
            Seq::empty(),
        ),
{
    reveal_strlit("facts.");
    reveal_strlit("facts");
    let s = "facts."@ + t;
    let e = Seq::<char>::empty();
    let none = Seq::<SegmentView>::empty();
    assert(s[0] == 'f' && s[1] == 'a' && s[2] == 'c' && s[3] == 't' && s[4] == 's' && s[5] == '.');
    assert(parse_from(s, 0, none, e) == parse_from(s, 1, none, e.push('f')));
    assert(parse_from(s, 1, none, e.push('f')) == parse_from(s, 2, none, e.push('f').push('a')));
    assert(parse_from(s, 2, none, e.push('f').push('a')) == parse_from(
        s,
        3,
        none,
        e.push('f').push('a').push('c'),
    ));
    assert(parse_from(s, 3, none, e.push('f').push('a').push('c')) == parse_from(
        s,
        4,
        none,
        e.push('f').push('a').push('c').push('t'),
    ));
    assert(parse_from(s, 4, none, e.push('f').push('a').push('c').push('t')) == parse_from(
        s,
        5,
        none,
        e.push('f').push('a').push('c').push('t').push('s'),
    ));
    let word = e.push('f').push('a').push('c').push('t').push('s');
    assert(word =~= "facts"@);
    assert(flush_field(none, word) =~= seq![facts_segment()]);
    assert(parse_from(s, 5, none, word) == parse_from(s, 6, seq![facts_segment()], e));
}

/// A text that begins with no white space keeps its front when it is trimmed behind
/// `facts.`.
proof fn lemma_trim_behind_prefix(rest: Seq<char>)
    requires
        rest.len() > 0,
        !is_space(rest[0]),
    ensures
        trim("facts."@ + rest) == "facts."@ + trim(rest),
        trim(rest).len() > 0,
{
    reveal_strlit("facts.");
    let p = "facts."@;
    let s = p + rest;
    assert(s[0] == 'f');
    assert(!is_space('f'));
    assert(leading_spaces(s) == 0);
    assert(leading_spaces(rest) == 0);
    assert(s.skip(0) =~= s);
    assert(rest.skip(0) =~= rest);
    lemma_trailing_spaces(s);
    lemma_trailing_spaces(rest);
    lemma_trailing_shift(p, rest);
    assert(trim_end(s) =~= p + trim_end(rest));
    // the first character of `rest` is no white space, so not all of it is trimmed away
    if trailing_spaces(rest) == rest.len() {
        assert(is_space(rest[0]));
    }
}

/// The white space at the end of a text is that of its last part, as long as that part
/// does not begin with white space.
proof fn lemma_trailing_shift(p: Seq<char>, rest: Seq<char>)
    requires
        rest.len() > 0,
        !is_space(rest[0]),
    ensures
        trailing_spaces(p + rest) == trailing_spaces(rest),
    decreases rest.len(),
{
    let s = p + rest;
    assert(s.last() == rest.last());
    if is_space(rest.last()) {
        assert(rest.len() > 1);
        assert(s.drop_last() =~= p + rest.drop_last());
        assert(rest.drop_last()[0] == rest[0]);
        lemma_trailing_shift(p, rest.drop_last());
    }
}

/// Prefix tolerance, for selector texts: a selector that parses and begins with no white
/// space parses, with `facts.` in front, to the segment `facts` and then its own segments.
pub proof fn lemma_prefixed_selector_parses(rest: Seq<char>)
    requires
        rest.len() > 0,
        !is_space(rest[0]),
        parse_selector(rest) is Ok,
    ensures
        parse_selector("facts."@ + rest) == Ok::<_, SelectorErrorView>(
            seq![facts_segment()] + parse_selector(rest)->Ok_0,
        ),
{
    reveal_strlit("facts.");
    lemma_trim_behind_prefix(rest);
    let t = trim(rest);
    let p = "facts."@;
    lemma_parse_prefix(t);
    assert(seq![facts_segment()] + Seq::<SegmentView>::empty() =~= seq![facts_segment()]);
    lemma_parse_shift(p, t, 0, seq![facts_segment()], Seq::empty(), Seq::empty());
}

/// A selector that parses has a first segment.
pub proof fn lemma_parsed_nonempty(rest: Seq<char>)
    requires
        parse_selector(rest) is Ok,
    ensures
        parse_selector(rest)->Ok_0.len() > 0,
{
    crate::selector::lemma_parse_from_nonempty(trim(rest), 0, Seq::empty(), Seq::empty());
}

/// Prefix tolerance, for one claim: the facts of a claim whose selector is written with
/// `facts.` in front are those of the claim with the selector without it.
///
/// This holds where the facts hold no key `facts`, and the selector parses, begins with no
/// white space, and does not itself begin with the field `facts`.
pub proof fn lemma_prefix_tolerance(
    name: Seq<char>,
    rest: Seq<char>,
    facts: Seq<(Seq<char>, ValueView)>,
)
    requires
        rest.len() > 0,
        !is_space(rest[0]),
        parse_selector(rest) is Ok,
        parse_selector(rest)->Ok_0[0] != facts_segment(),
        lookup(document_of(facts)->Mapping_0, ValueView::String("facts"@)) is None,
    ensures
        claim_facts(name, "facts."@ + rest, document_of(facts)) == claim_facts(
            name,
            rest,
            document_of(facts),
        ),
{
    lemma_prefixed_selector_parses(rest);
    lemma_parsed_nonempty(rest);
    lemma_prefix_tolerance_segments(parse_selector(rest)->Ok_0, facts);
}

/// Whether the table `prefixed` holds the claims of `plain`, each selector with `facts.` in
/// front, and each selector of `plain` is one for which [`lemma_prefix_tolerance`] holds.
pub open spec fn prefixed_table(
    plain: Seq<(Seq<char>, Seq<char>)>,
    prefixed: Seq<(Seq<char>, Seq<char>)>,
) -> bool {
    &&& plain.len() == prefixed.len()
    &&& forall|i: int|
        0 <= i < plain.len() ==> {
            &&& (#[trigger] prefixed[i]).0 == plain[i].0
            &&& prefixed[i].1 == "facts."@ + plain[i].1
            &&& plain[i].1.len() > 0
            &&& !is_space(plain[i].1[0])
            &&& parse_selector(plain[i].1) is Ok
            &&& parse_selector(plain[i].1)->Ok_0[0] != facts_segment()
        }
}

/// Prefix tolerance, for a whole rulespec: where every selector is written with `facts.` in
/// front, the extracted facts are those of the selectors without it.
pub proof fn lemma_prefix_tolerance_table(
    plain: Seq<(Seq<char>, Seq<char>)>,
    prefixed: Seq<(Seq<char>, Seq<char>)>,
    facts: Seq<(Seq<char>, ValueView)>,
    n: int,
)
    requires
        prefixed_table(plain, prefixed),
        0 <= n <= plain.len(),
        lookup(document_of(facts)->Mapping_0, ValueView::String("facts"@)) is None,
    ensures
        table_facts(prefixed, n, document_of(facts)) == table_facts(plain, n, document_of(facts)),
    decreases n,
{
    if n > 0 {
        lemma_prefix_tolerance_table(plain, prefixed, facts, n - 1);
        assert(prefixed[n - 1].0 == plain[n - 1].0);
        lemma_prefix_tolerance(plain[n - 1].0, plain[n - 1].1, facts);
    }
}

/// Whether the claims `prefixed` are the claims `plain`, each selector with `facts.` in
/// front, and each selector of `plain` is one for which [`lemma_prefix_tolerance`] holds.
pub open spec fn prefixed_claims(plain: Seq<ClaimView>, prefixed: Seq<ClaimView>) -> bool {
    &&& plain.len() == prefixed.len()
    &&& forall|i: int|
        0 <= i < plain.len() ==> {
            &&& (#[trigger] prefixed[i]).name == plain[i].name
            &&& prefixed[i].selector == "facts."@ + plain[i].selector
            &&& plain[i].selector.len() > 0
            &&& !is_space(plain[i].selector[0])
            &&& parse_selector(plain[i].selector) is Ok
            &&& parse_selector(plain[i].selector)->Ok_0[0] != facts_segment()
        }
}

/// Two lists of claims that differ in the prefix of their selectors only give tables that
/// differ in that prefix only.
proof fn lemma_tables_aligned(plain: Seq<ClaimView>, prefixed: Seq<ClaimView>, n: int)
    requires
        prefixed_claims(plain, prefixed),
        0 <= n <= plain.len(),
    ensures
        prefixed_table(claim_table(plain, n), claim_table(prefixed, n)),
{
    let a = claim_table(plain, n);
    let b = claim_table(prefixed, n);
    assert forall|i: int| 0 <= i < a.len() implies {
        &&& (#[trigger] b[i]).0 == a[i].0
        &&& b[i].1 == "facts."@ + a[i].1
        &&& a[i].1.len() > 0
        &&& !is_space(a[i].1[0])
        &&& parse_selector(a[i].1) is Ok
        &&& parse_selector(a[i].1)->Ok_0[0] != facts_segment()
    } by {
        assert(prefixed[i].name == plain[i].name);
    }
}

/// Prefix tolerance, for the claims of a rulespec: where every selector is written with
/// `facts.` in front, the table of claims gives the facts that it gives with the selectors
/// written without it.
///
/// This holds where the facts hold no key `facts`, and each selector parses, begins with no
/// white space, and does not itself begin with the field `facts`.
pub proof fn lemma_prefix_tolerance_claims(
    plain: Seq<ClaimView>,
    prefixed: Seq<ClaimView>,
    facts: Seq<(Seq<char>, ValueView)>,
)
    requires
        prefixed_claims(plain, prefixed),
        lookup(document_of(facts)->Mapping_0, ValueView::String("facts"@)) is None,
    ensures
        table_facts(
            claim_table(prefixed, prefixed.len() as int),
            claim_table(prefixed, prefixed.len() as int).len() as int,
            document_of(facts),
        ) == table_facts(
            claim_table(plain, plain.len() as int),
            claim_table(plain, plain.len() as int).len() as int,
            document_of(facts),
        ),
{
    lemma_tables_aligned(plain, prefixed, plain.len() as int);
    let a = claim_table(plain, plain.len() as int);
    let b = claim_table(prefixed, prefixed.len() as int);
    lemma_prefix_tolerance_table(a, b, facts, a.len() as int);
}

} // verus!
