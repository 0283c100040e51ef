//! Reports for a human reader: what was evaluated and how it ended.

use vstd::prelude::*;
use crate::canonical::{lemma_sorted_facts_len, sorted_facts};
use crate::datalog::{DatalogExecutionResult, DatalogPredicateResult};
use crate::envelope::{ActionEnvelope, EnvelopeView};
use crate::value::{
    display_text, entry_views, item_views, lemma_view_mapping, lemma_view_sequence, value_text,
    ValueView, YamlValue,
};
use crate::evaluate::{PredicateEvaluation, RulespecEvaluation};
use crate::rulespec::{rule_name, source_name, text_view, InvariantSource, PredicateRule};
use crate::text::{decimal, push_chars, push_decimal, push_str, string_of};

verus! {

/// `n` copies of `unit`, one after the other.
pub open spec fn repeated(unit: Seq<char>, n: nat) -> Seq<char>
    decreases n,
{
    if n == 0 {
        Seq::empty()
    } else {
        repeated(unit, (n - 1) as nat) + unit
    }
}

/// Appends `n` copies of `unit` to `out`.
fn push_repeated(out: &mut Vec<char>, unit: &str, n: usize)
    ensures
        final(out)@ == old(out)@ + repeated(unit@, n as nat),
{
    let ghost before = out@;
    let mut i: usize = 0;
    assert(out@ =~= before + repeated(unit@, 0));
    while i < n
        invariant
            i <= n,
            out@ == before + repeated(unit@, i as nat),
        decreases n - i,
    {
        push_str(out, unit);
        assert(out@ =~= before + repeated(unit@, (i + 1) as nat));
        i += 1;
    }
}

/// The lines of one outcome in a report: a mark for pass or failure, the source, the rule,
/// the claim and what follows it; the reason; and the notes where there are some.
pub open spec fn outcome_lines(
    pass_mark: Seq<char>,
    fail_mark: Seq<char>,
    memo_mark: Seq<char>,
    passed: bool,
    source: InvariantSource,
    rule: PredicateRule,
    subject: Seq<char>,
    reason: Seq<char>,
    notes: Option<Seq<char>>,
) -> Seq<char> {
    (if passed {
        pass_mark
    } else {
        fail_mark
    }) + " ["@ + source_name(source) + "] "@ + rule_name(rule) + " "@ + subject + "\n"@ + "   "@
        + reason + "\n"@ + (match notes {
        Some(n) => "   "@ + memo_mark + " "@ + n + "\n"@,
        None => Seq::empty(),
    }) + "\n"@
}

/// Appends the lines of one outcome to `out`.
fn push_outcome(
    out: &mut Vec<char>,
    pass_mark: &str,
    fail_mark: &str,
    memo_mark: &str,
    passed: bool,
    source: InvariantSource,
    rule: PredicateRule,
    subject: &Vec<char>,
    reason: &str,
    notes: &Option<String>,
)
    ensures
        final(out)@ == old(out)@ + outcome_lines(
            pass_mark@,
            fail_mark@,
            memo_mark@,
            passed,
            source,
            rule,
            subject@,
            reason@,
            text_view(*notes),
        ),
{
    let mut line: Vec<char> = Vec::new();
    if passed {
        push_str(&mut line, pass_mark);
    } else {
        push_str(&mut line, fail_mark);
    }
    push_str(&mut line, " [");
    let s = source.to_string();
    push_str(&mut line, s.as_str());
    push_str(&mut line, "] ");
    let r = rule.to_string();
    push_str(&mut line, r.as_str());
    push_str(&mut line, " ");
    push_chars(&mut line, subject);
    push_str(&mut line, "\n");
    push_str(&mut line, "   ");
    push_str(&mut line, reason);
    push_str(&mut line, "\n");
    match notes {
        Some(n) => {
            push_str(&mut line, "   ");
            push_str(&mut line, memo_mark);
            push_str(&mut line, " ");
            push_str(&mut line, n.as_str());
            push_str(&mut line, "\n");
        },
        None => {},
    }
    push_str(&mut line, "\n");
    assert(line@ =~= outcome_lines(
        pass_mark@,
        fail_mark@,
        memo_mark@,
        passed,
        source,
        rule,
        subject@,
        reason@,
        text_view(*notes),
    ));
    push_chars(out, &line);
}

/// The last lines of a report: how many invariants held, between two rules.
pub open spec fn closing_lines(
    dash: Seq<char>,
    all_mark: Seq<char>,
    warn_mark: Seq<char>,
    tail: Seq<char>,
    passed: nat,
    failed: nat,
) -> Seq<char> {
    repeated(dash, 60) + "\n"@ + (if failed == 0 {
        all_mark + " All "@ + decimal(passed) + " invariant(s) satisfied"@ + tail + "\n"@
    } else {
        warn_mark + "  "@ + decimal(passed) + "/"@ + decimal(passed + failed)
            + " invariant(s) satisfied, "@ + decimal(failed) + " failed"@ + tail + "\n"@
    }) + repeated(dash, 60) + "\n"@
}

/// Appends the last lines of a report to `out`.
fn push_closing(
    out: &mut Vec<char>,
    dash: &str,
    all_mark: &str,
    warn_mark: &str,
    tail: &str,
    passed: usize,
    failed: usize,
)
    requires
        passed + failed <= usize::MAX,
    ensures
        final(out)@ == old(out)@ + closing_lines(
            dash@,
            all_mark@,
            warn_mark@,
            tail@,
            passed as nat,
            failed as nat,
        ),
{
    let mut line: Vec<char> = Vec::new();
    push_repeated(&mut line, dash, 60);
    push_str(&mut line, "\n");
    if failed == 0 {
        push_str(&mut line, all_mark);
        push_str(&mut line, " All ");
        push_decimal(&mut line, passed as u64);
        push_str(&mut line, " invariant(s) satisfied");
        push_str(&mut line, tail);
        push_str(&mut line, "\n");
    } else {
        push_str(&mut line, warn_mark);
        push_str(&mut line, "  ");
        push_decimal(&mut line, passed as u64);
        push_str(&mut line, "/");
        push_decimal(&mut line, (passed + failed) as u64);
        push_str(&mut line, " invariant(s) satisfied, ");
        push_decimal(&mut line, failed as u64);
        push_str(&mut line, " failed");
        push_str(&mut line, tail);
        push_str(&mut line, "\n");
    }
    push_repeated(&mut line, dash, 60);
    push_str(&mut line, "\n");
    assert(line@ =~= closing_lines(
        dash@,
        all_mark@,
        warn_mark@,
        tail@,
        passed as nat,
        failed as nat,
    ));
    push_chars(out, &line);
}

/// What stands behind the claim in the line of a compiled predicate: its operand between
/// single quotes.
pub open spec fn operand_suffix(expected: Option<Seq<char>>) -> Seq<char> {
    match expected {
        Some(v) => " '"@ + v + "'"@,
        None => Seq::empty(),
    }
}

/// The lines of one outcome of a datalog evaluation.
pub open spec fn datalog_outcome(pr: DatalogPredicateResult) -> Seq<char> {
    outcome_lines(
        "âœ…"@,
        "âŒ"@,
        "ðŸ“"@,
        pr.passed,
        pr.source,
        pr.rule,
        pr.claim_name@ + operand_suffix(text_view(pr.expected_value)),
        pr.reason@,
        text_view(pr.notes),
    )
}

/// Appends the lines of one outcome of a datalog evaluation to `out`.
fn push_datalog_outcome(out: &mut Vec<char>, pr: &DatalogPredicateResult)
    ensures
        final(out)@ == old(out)@ + datalog_outcome(*pr),
{
    let mut subject: Vec<char> = Vec::new();
    push_str(&mut subject, pr.claim_name.as_str());
    match &pr.expected_value {
        Some(v) => {
            push_str(&mut subject, " '");
            push_str(&mut subject, v.as_str());
            push_str(&mut subject, "'");
        },
        None => {},
    }
    assert(subject@ =~= pr.claim_name@ + operand_suffix(text_view(pr.expected_value)));
    push_outcome(
        out,
        "âœ…",
        "âŒ",
        "ðŸ“",
        pr.passed,
        pr.source,
        pr.rule,
        &subject,
        pr.reason.as_str(),
        &pr.notes,
    );
}

/// The lines of the first `n` outcomes of a datalog evaluation.
pub open spec fn datalog_outcomes(results: Seq<DatalogPredicateResult>, n: int) -> Seq<char>
    decreases n,
{
    if n <= 0 || n > results.len() {
        Seq::empty()
    } else {
        datalog_outcomes(results, n - 1) + datalog_outcome(results[n - 1])
    }
}

/// The report of a datalog evaluation: a title between rules, the number of facts, the
/// lines of each outcome, and the closing lines.
pub open spec fn datalog_report(r: DatalogExecutionResult) -> Seq<char> {
    "\n"@ + repeated("â”€"@, 60) + "\n"@ + "ðŸ”¬ DATALOG INVARIANT VERIFICATION (shadow mode)\n"@ + repeated("â”€"@, 60) + "\n\n"@
        + "Facts extracted: "@ + decimal(r.fact_count as nat) + "\n\n"@ + datalog_outcomes(
        r.predicate_results@,
        r.predicate_results@.len() as int,
    ) + closing_lines(
        "â”€"@,
        "âœ…"@,
        "âš ï¸"@,
        " (datalog)"@,
        r.passed_count as nat,
        r.failed_count as nat,
    )
}

/// Writes the report of a datalog evaluation.
pub fn format_datalog_results(result: &DatalogExecutionResult) -> (r: String)
    requires
        result.passed_count + result.failed_count <= usize::MAX,
    ensures
        r@ == datalog_report(*result),
{
    let mut out: Vec<char> = Vec::new();
    push_str(&mut out, "\n");
    push_repeated(&mut out, "â”€", 60);
    push_str(&mut out, "\n");
    push_str(&mut out, "ðŸ”¬ DATALOG INVARIANT VERIFICATION (shadow mode)\n");
    push_repeated(&mut out, "â”€", 60);
    push_str(&mut out, "\n\n");
    push_str(&mut out, "Facts extracted: ");
    push_decimal(&mut out, result.fact_count as u64);
    push_str(&mut out, "\n\n");
    let ghost head = out@;
    let mut i: usize = 0;
    assert(out@ =~= head + datalog_outcomes(result.predicate_results@, 0));
    while i < result.predicate_results.len()
        invariant
            i <= result.predicate_results.len(),
            out@ == head + datalog_outcomes(result.predicate_results@, i as int),
        decreases result.predicate_results.len() - i,
    {
        push_datalog_outcome(&mut out, &result.predicate_results[i]);
        assert(out@ =~= head + datalog_outcomes(result.predicate_results@, i + 1));
        i += 1;
    }
    push_closing(
        &mut out,
        "â”€",
        "âœ…",
        "âš ï¸",
        " (datalog)",
        result.passed_count,
        result.failed_count,
    );
    assert(out@ =~= datalog_report(*result));
    string_of(&out)
}

/// A text as Rust's `Debug` writes it: between double quotes, with escapes.
pub uninterp spec fn debug_text(s: Seq<char>) -> Seq<char>;

/// Writes `s` with the `Debug` formatting of `str`.
///
/// Trusted: the result depends on the text alone.
#[verifier::external_body]
fn debug_quoted(s: &str) -> (r: String)
    ensures
        r@ == debug_text(s@),
{
    format!("{:?}", s)
}

/// The lines of the first `n` outcomes of a direct evaluation.
pub open spec fn evaluation_outcomes(results: Seq<PredicateEvaluation>, n: int) -> Seq<char>
    decreases n,
{
    if n <= 0 || n > results.len() {
        Seq::empty()
    } else {
        evaluation_outcomes(results, n - 1) + outcome_lines(
            "✅"@,
            "❌"@,
            "📝"@,
            results[n - 1].result.passed,
            results[n - 1].predicate.source,
            results[n - 1].predicate.rule,
            debug_text(results[n - 1].claim_name@),
            results[n - 1].result.reason@,
            text_view(results[n - 1].predicate.notes),
        )
    }
}

/// The report of a direct evaluation: a title between rules, the lines of each outcome,
/// and the closing lines.
pub open spec fn evaluation_report(e: RulespecEvaluation) -> Seq<char> {
    "\n"@ + repeated("─"@, 60) + "\n"@ + "📜 INVARIANT VERIFICATION\n"@ + repeated("─"@, 60) + "\n\n"@
        + evaluation_outcomes(e.predicate_results@, e.predicate_results@.len() as int)
        + closing_lines(
        "─"@,
        "✅"@,
        "⚠️"@,
        Seq::empty(),
        e.passed_count as nat,
        e.failed_count as nat,
    )
}

/// Writes the report of a direct evaluation.
pub fn format_evaluation_results(eval: &RulespecEvaluation) -> (r: String)
    requires
        eval.passed_count + eval.failed_count <= usize::MAX,
    ensures
        r@ == evaluation_report(*eval),
{
    let mut out: Vec<char> = Vec::new();
    push_str(&mut out, "\n");
    push_repeated(&mut out, "─", 60);
    push_str(&mut out, "\n");
    push_str(&mut out, "📜 INVARIANT VERIFICATION\n");
    push_repeated(&mut out, "─", 60);
    push_str(&mut out, "\n\n");
    let ghost head = out@;
    let mut i: usize = 0;
    assert(out@ =~= head + evaluation_outcomes(eval.predicate_results@, 0));
    while i < eval.predicate_results.len()
        invariant
            i <= eval.predicate_results.len(),
            out@ == head + evaluation_outcomes(eval.predicate_results@, i as int),
        decreases eval.predicate_results.len() - i,
    {
        let pe = &eval.predicate_results[i];
        let quoted = debug_quoted(pe.claim_name.as_str());
        let mut subject: Vec<char> = Vec::new();
        push_str(&mut subject, quoted.as_str());
        assert(subject@ =~= debug_text(pe.claim_name@));
        push_outcome(
            &mut out,
            "✅",
            "❌",
            "📝",
            pe.result.passed,
            pe.predicate.source,
            pe.predicate.rule,
            &subject,
            pe.result.reason.as_str(),
            &pe.predicate.notes,
        );
        assert(out@ =~= head + evaluation_outcomes(eval.predicate_results@, i + 1));
        i += 1;
    }
    let empty = String::new();
    push_closing(
        &mut out,
        "─",
        "✅",
        "⚠️",
        empty.as_str(),
        eval.passed_count,
        eval.failed_count,
    );
    assert(out@ =~= evaluation_report(*eval));
    string_of(&out)
}


/// The scalar that a value is written as between backticks, where it is a boolean, a
/// number or a string.
pub open spec fn inline_scalar(v: ValueView) -> Option<Seq<char>> {
    match v {
        ValueView::Bool(_) => Some(value_text(v)),
        ValueView::Number(_) => Some(value_text(v)),
        ValueView::String(s) => Some(s),
        _ => None,
    }
}

/// A value as lines of a markdown list, each line behind `prefix`.
///
/// A scalar is one item; a sequence is one item for each scalar and, two columns deeper,
/// the lines of each other item; a mapping is one item for each entry, with the lines of a
/// nested sequence or mapping four columns deeper.
pub open spec fn markdown_lines(v: ValueView, prefix: Seq<char>) -> Seq<char>
    decreases v, 0int,
{
    match v {
        ValueView::Null => prefix + "  - _null_\n"@,
        ValueView::Sequence(items) => markdown_items(items, prefix),
        ValueView::Mapping(entries) => markdown_entries(entries, prefix),
        _ => prefix + "  - `"@ + value_text(v) + "`\n"@,
    }
}

/// The lines of the items of a sequence, one after the other.
pub open spec fn markdown_items(items: Seq<ValueView>, prefix: Seq<char>) -> Seq<char>
    decreases items, 2int,
{
    if items.len() == 0 {
        Seq::empty()
    } else {
        markdown_items(items.drop_last(), prefix) + markdown_item(items.last(), prefix)
    }
}

/// The lines of the entries of a mapping, one after the other.
pub open spec fn markdown_entries(entries: Seq<(ValueView, ValueView)>, prefix: Seq<char>) -> Seq<
    char,
>
    decreases entries, 2int,
{
    if entries.len() == 0 {
        Seq::empty()
    } else {
        markdown_entries(entries.drop_last(), prefix) + markdown_entry(entries.last(), prefix)
    }
}

/// The lines of one item of a sequence.
pub open spec fn markdown_item(item: ValueView, prefix: Seq<char>) -> Seq<char>
    decreases item, 1int,
{
    match inline_scalar(item) {
        Some(t) => prefix + "  - `"@ + t + "`\n"@,
        None => markdown_lines(item, prefix + "  "@),
    }
}

/// The lines of one entry of a mapping.
pub open spec fn markdown_entry(entry: (ValueView, ValueView), prefix: Seq<char>) -> Seq<char>
    decreases entry, 1int,
{
    let key = display_text(entry.0);
    let value = entry.1;
    match value {
        ValueView::Null => prefix + "  - "@ + key + ": _null_\n"@,
        ValueView::Sequence(_) => prefix + "  - "@ + key + ":\n"@ + markdown_lines(
            value,
            prefix + "    "@,
        ),
        ValueView::Mapping(_) => prefix + "  - "@ + key + ":\n"@ + markdown_lines(
            value,
            prefix + "    "@,
        ),
        _ => prefix + "  - "@ + key + ": `"@ + value_text(value) + "`\n"@,
    }
}

/// Appends the lines of one item of a sequence to `out`.
fn push_markdown_item(out: &mut Vec<char>, item: &YamlValue, prefix: &Vec<char>)
    ensures
        final(out)@ == old(out)@ + markdown_item(item@, prefix@),
    decreases item, 1int,
{
    let ghost before = out@;
    match item {
        YamlValue::Bool(_) | YamlValue::Number(_) | YamlValue::String(_) => {
            push_chars(out, prefix);
            push_str(out, "  - `");
            item.push_text(out);
            push_str(out, "`\n");
            assert(inline_scalar(item@) == Some(value_text(item@)));
            assert(out@ =~= before + markdown_item(item@, prefix@));
        },
        _ => {
            let mut deeper = prefix.clone();
            push_str(&mut deeper, "  ");
            push_markdown(out, item, &deeper);
            proof {
                match item {
                    YamlValue::Sequence(x) => {
                        lemma_view_sequence(*x);
                    },
                    YamlValue::Mapping(x) => {
                        lemma_view_mapping(*x);
                    },
                    _ => {},
                }
                assert(inline_scalar(item@) is None);
            }
        },
    }
}

/// Appends the lines of one entry of a mapping to `out`.
fn push_markdown_entry(out: &mut Vec<char>, entry: &(YamlValue, YamlValue), prefix: &Vec<char>)
    ensures
        final(out)@ == old(out)@ + markdown_entry((entry.0@, entry.1@), prefix@),
    decreases entry, 1int,
{
    let ghost before = out@;
    let key = entry.0.display();
    let v = &entry.1;
    push_chars(out, prefix);
    push_str(out, "  - ");
    push_str(out, key.as_str());
    let ghost mid = out@;
    assert(mid =~= before + (prefix@ + "  - "@ + key@));
    match v {
        YamlValue::Null => {
            push_str(out, ": _null_\n");
            assert(out@ =~= before + (prefix@ + "  - "@ + key@ + ": _null_\n"@));
        },
        YamlValue::Sequence(x) => {
            proof {
                lemma_view_sequence(*x);
            }
            push_str(out, ":\n");
            let mut deeper = prefix.clone();
            push_str(&mut deeper, "    ");
            push_markdown(out, v, &deeper);
            assert(out@ =~= before + (prefix@ + "  - "@ + key@ + ":\n"@ + markdown_lines(
                v@,
                prefix@ + "    "@,
            )));
        },
        YamlValue::Mapping(x) => {
            proof {
                lemma_view_mapping(*x);
            }
            push_str(out, ":\n");
            let mut deeper = prefix.clone();
            push_str(&mut deeper, "    ");
            push_markdown(out, v, &deeper);
            assert(out@ =~= before + (prefix@ + "  - "@ + key@ + ":\n"@ + markdown_lines(
                v@,
                prefix@ + "    "@,
            )));
        },
        _ => {
            push_str(out, ": `");
            v.push_text(out);
            push_str(out, "`\n");
            assert(out@ =~= before + (prefix@ + "  - "@ + key@ + ": `"@ + value_text(v@) + "`\n"@));
        },
    }
}

/// Appends the lines of a value to `out`.
#[verifier::loop_isolation(false)]
fn push_markdown(out: &mut Vec<char>, value: &YamlValue, prefix: &Vec<char>)
    ensures
        final(out)@ == old(out)@ + markdown_lines(value@, prefix@),
    decreases value, 0int,
{
    let ghost before = out@;
    match value {
        YamlValue::Null => {
            push_chars(out, prefix);
            push_str(out, "  - _null_\n");
            assert(out@ =~= before + markdown_lines(value@, prefix@));
        },
        YamlValue::Sequence(items) => {
            proof {
                lemma_view_sequence(*items);
            }
            let ghost views = item_views(items@);
            let mut i: usize = 0;
            assert(views.take(0) =~= Seq::<ValueView>::empty());
            assert(out@ =~= before + markdown_items(views.take(0), prefix@));
            while i < items.len()
                invariant
                    i <= items.len(),
                    out@ == before + markdown_items(views.take(i as int), prefix@),
                decreases items.len() - i,
            {
                push_markdown_item(out, &items[i], prefix);
                proof {
                    let t = views.take(i + 1);
                    assert(t.drop_last() =~= views.take(i as int));
                    assert(t.last() == items@[i as int]@);
                    assert(out@ =~= before + markdown_items(t, prefix@));
                }
                i += 1;
            }
            assert(views.take(i as int) =~= views);
        },
        YamlValue::Mapping(entries) => {
            proof {
                lemma_view_mapping(*entries);
            }
            let ghost views = entry_views(entries@);
            let mut i: usize = 0;
            assert(views.take(0) =~= Seq::<(ValueView, ValueView)>::empty());
            assert(out@ =~= before + markdown_entries(views.take(0), prefix@));
            while i < entries.len()
                invariant
                    i <= entries.len(),
                    out@ == before + markdown_entries(views.take(i as int), prefix@),
                decreases entries.len() - i,
            {
                push_markdown_entry(out, &entries[i], prefix);
                proof {
                    let t = views.take(i + 1);
                    assert(t.drop_last() =~= views.take(i as int));
                    assert(t.last() == (entries@[i as int].0@, entries@[i as int].1@));
                    assert(out@ =~= before + markdown_entries(t, prefix@));
                }
                i += 1;
            }
            assert(views.take(i as int) =~= views);
        },
        _ => {
            push_chars(out, prefix);
            push_str(out, "  - `");
            value.push_text(out);
            push_str(out, "`\n");
            assert(out@ =~= before + markdown_lines(value@, prefix@));
        },
    }
}

/// The markdown of the first `n` facts: for each its key in bold and the lines of its value.
pub open spec fn markdown_facts(facts: Seq<(Seq<char>, ValueView)>, n: int) -> Seq<char>
    decreases n,
{
    if n <= 0 || n > facts.len() {
        Seq::empty()
    } else {
        markdown_facts(facts, n - 1) + "**"@ + facts[n - 1].0 + "**:\n"@ + markdown_lines(
            facts[n - 1].1,
            Seq::empty(),
        ) + "\n"@
    }
}

/// An envelope as markdown: a title and its facts in the order of their keys, or a note
/// where it has none.
pub open spec fn envelope_markdown(e: EnvelopeView) -> Seq<char> {
    if e.facts.len() == 0 {
        "\n### Action Envelope\n\n_No facts recorded._\n"@
    } else {
        "\n### Action Envelope\n\n"@ + markdown_facts(
            sorted_facts(e.facts, e.facts.len() as int),
            e.facts.len() as int,
        )
    }
}

/// Writes an envelope as markdown for a human reader.
pub fn format_envelope_markdown(envelope: &ActionEnvelope) -> (r: String)
    ensures
        r@ == envelope_markdown(envelope@),
{
    if envelope.is_empty() {
        return "\n### Action Envelope\n\n_No facts recorded._\n".to_string();
    }
    let sorted = envelope.canonical_document();
    let mut out: Vec<char> = Vec::new();
    push_str(&mut out, "\n### Action Envelope\n\n");
    let ghost head = out@;
    let ghost facts = sorted_facts(envelope@.facts, envelope@.facts.len() as int);
    proof {
        lemma_sorted_facts_len(envelope@.facts, envelope@.facts.len() as int);
    }
    match &sorted {
        YamlValue::Mapping(entries) => {
            proof {
                lemma_view_mapping(*entries);
                assert(entry_views(entries@) == crate::envelope::document_of(facts)->Mapping_0);
                assert(entry_views(entries@).len() == facts.len());
            }
            let empty: Vec<char> = Vec::new();
            let mut i: usize = 0;
            assert(out@ =~= head + markdown_facts(facts, 0));
            while i < entries.len()
                invariant
                    i <= entries.len(),
                    entries@.len() == facts.len(),
                    empty@ == Seq::<char>::empty(),
                    forall|k: int|
                        0 <= k < facts.len() ==> (#[trigger] entry_views(entries@)[k]) == (
                            ValueView::String(facts[k].0),
                            facts[k].1,
                        ),
                    out@ == head + markdown_facts(facts, i as int),
                decreases entries.len() - i,
            {
                assert(entry_views(entries@)[i as int] == (
                    ValueView::String(facts[i as int].0),
                    facts[i as int].1,
                ));
                let key = entries[i].0.display();
                push_str(&mut out, "**");
                push_str(&mut out, key.as_str());
                push_str(&mut out, "**:\n");
                push_markdown(&mut out, &entries[i].1, &empty);
                push_str(&mut out, "\n");
                assert(out@ =~= head + markdown_facts(facts, i + 1));
                i += 1;
            }
            assert(entries@.len() == envelope@.facts.len());
        },
        _ => {
            assert(false);
        },
    }
    string_of(&out)
}

} // verus!
