//! The textual datalog program that records, for audit, what was evaluated: declarations,
//! the facts in their order, and one clause for each predicate.

use vstd::prelude::*;
use crate::datalog::{
    facts_sorted, lemma_sorted_listing_unique, CompiledPredicate, CompiledPredicateView,
    CompiledRulespec, CompiledRulespecView, FactSet,
};
use crate::rulespec::{rule_name, PredicateRule};
use crate::text::{
    chars_end_with, chars_of, decimal, decimal_int, ends_with, parse_i64, parse_signed, push_chars,
    push_decimal, push_int, push_str, string_of, strip_suffix_all, strip_suffix_chars,
};

verus! {

/// How one character is written inside a datalog string literal.
pub open spec fn escape_char(c: char) -> Seq<char> {
    if c == '\\' {
        seq!['\\', '\\']
    } else if c == '"' {
        seq!['\\', '"']
    } else if c == '\n' {
        seq!['\\', 'n']
    } else if c == '\r' {
        seq!['\\', 'r']
    } else if c == '\t' {
        seq!['\\', 't']
    } else {
        seq![c]
    }
}

/// A text as it is written inside a datalog string literal: backslash, double quote, line
/// feed, carriage return and tab are escaped, every other character stands for itself.
pub open spec fn escaped(s: Seq<char>) -> Seq<char>
    decreases s.len(),
{
    if s.len() == 0 {
        Seq::empty()
    } else {
        escaped(s.drop_last()) + escape_char(s.last())
    }
}

/// Appends `s`, escaped, to `out`.
fn push_escaped(out: &mut Vec<char>, s: &Vec<char>)
    ensures
        final(out)@ == old(out)@ + escaped(s@),
{
    let ghost before = out@;
    let mut i: usize = 0;
    assert(s@.take(0) =~= Seq::<char>::empty());
    assert(out@ =~= before + escaped(s@.take(0)));
    while i < s.len()
        invariant
            i <= s.len(),
            out@ == before + escaped(s@.take(i as int)),
        decreases s.len() - i,
    {
        let c = s[i];
        let ghost mid = out@;
        if c == '\\' {
            out.push('\\');
            out.push('\\');
        } else if c == '"' {
            out.push('\\');
            out.push('"');
        } else if c == '\n' {
            out.push('\\');
            out.push('n');
        } else if c == '\r' {
            out.push('\\');
            out.push('r');
        } else if c == '\t' {
            out.push('\\');
            out.push('t');
        } else {
            out.push(c);
        }
        proof {
            let t = s@.take(i + 1);
            assert(t.drop_last() =~= s@.take(i as int));
            assert(t.last() == c);
            assert(out@ =~= mid + escape_char(c));
            assert(out@ =~= before + escaped(t));
        }
        i += 1;
    }
    assert(s@.take(i as int) =~= s@);
}

/// Escapes a text for use inside a datalog string literal.
pub fn escape_datalog_string(s: &str) -> (r: String)
    ensures
        r@ == escaped(s@),
{
    let mut out: Vec<char> = Vec::new();
    push_escaped(&mut out, &chars_of(s));
    assert(out@ =~= escaped(s@));
    string_of(&out)
}

/// The fixed text that opens a program, after the two lines that name plan and revision.
pub open spec fn declarations_text() -> Seq<char> {
    "\n// --- Relation declarations ---\n.decl claim_value(claim: symbol, value: symbol)\n.decl claim_length(claim: symbol, length: number)\n.decl predicate_pass(id: number)\n.decl predicate_fail(id: number)\n\n.output predicate_pass\n.output predicate_fail\n\n// --- Facts (from envelope) ---\n"@
}

/// The head of a program: a title, the plan, the revision, and the declarations.
pub open spec fn header_text(plan_id: Seq<char>, revision: u32) -> Seq<char> {
    "// Auto-generated datalog program\n// Plan: "@ + plan_id + "\n// Compiled at revision: "@
        + decimal(revision as nat) + "\n"@ + declarations_text()
}

/// The line that states one fact. A fact under a name that ends in `.__length` is a length:
/// it is written where its value is an integer, under the name without that ending, and
/// left out otherwise. Any other fact is a value.
pub open spec fn fact_line(f: (Seq<char>, Seq<char>)) -> Seq<char> {
    if ends_with(f.0, ".__length"@) {
        match parse_signed(f.1, i64::MIN as int, i64::MAX as int) {
            Some(n) => "claim_length(\""@ + escaped(strip_suffix_all(f.0, ".__length"@)) + "\", "@
                + decimal_int(n) + ").\n"@,
            None => Seq::empty(),
        }
    } else {
        "claim_value(\""@ + escaped(f.0) + "\", \""@ + escaped(f.1) + "\").\n"@
    }
}

/// The lines of the first `n` facts, in order.
pub open spec fn fact_lines(facts: Seq<(Seq<char>, Seq<char>)>, n: int) -> Seq<char>
    decreases n,
{
    if n <= 0 || n > facts.len() {
        Seq::empty()
    } else {
        fact_lines(facts, n - 1) + fact_line(facts[n - 1])
    }
}

/// What follows the head of a clause `predicate_pass(id) :- `, by rule.
pub open spec fn clause_body(rule: PredicateRule, claim: Seq<char>, expected: Seq<char>) -> Seq<
    char,
> {
    match rule {
        PredicateRule::Exists => "claim_value(\""@ + claim + "\", _).\n"@,
        PredicateRule::NotExists => "!claim_value(\""@ + claim + "\", _).\n"@,
        PredicateRule::Equals => "claim_value(\""@ + claim + "\", \""@ + expected + "\").\n"@,
        PredicateRule::Contains => "claim_value(\""@ + claim + "\", \""@ + expected + "\").\n"@,
        PredicateRule::GreaterThan => "claim_value(\""@ + claim + "\", V), to_number(V, N), N > "@
            + expected + ".\n"@,
        PredicateRule::LessThan => "claim_value(\""@ + claim + "\", V), to_number(V, N), N < "@
            + expected + ".\n"@,
        PredicateRule::MinLength => "claim_length(\""@ + claim + "\", N), N >= "@ + expected
            + ".\n"@,
        PredicateRule::MaxLength => "claim_length(\""@ + claim + "\", N), N <= "@ + expected
            + ".\n"@,
        PredicateRule::Matches => "claim_value(\""@ + claim + "\", V), match(\""@ + expected
            + "\", V).\n"@,
        PredicateRule::NotContains => "!claim_value(\""@ + claim + "\", \""@ + expected
            + "\").\n"@,
        PredicateRule::AnyOf => "claim_value(\""@ + claim + "\", V), any_of(\""@ + expected
            + "\", V).\n"@,
        PredicateRule::NoneOf => "!claim_value(\""@ + claim + "\", V), none_of(\""@ + expected
            + "\", V).\n"@,
    }
}

/// The operand of a predicate between single quotes, or nothing.
pub open spec fn quoted_operand(expected: Option<Seq<char>>) -> Seq<char> {
    match expected {
        Some(v) => "'"@ + v + "'"@,
        None => Seq::empty(),
    }
}

/// The notes of a predicate after a dash, or nothing.
pub open spec fn notes_suffix(notes: Option<Seq<char>>) -> Seq<char> {
    match notes {
        Some(n) => "  -- "@ + n,
        None => Seq::empty(),
    }
}

/// The text of an operand that may be missing, escaped.
pub open spec fn escaped_operand(expected: Option<Seq<char>>) -> Seq<char> {
    match expected {
        Some(v) => escaped(v),
        None => Seq::empty(),
    }
}

/// The block of one predicate: a comment that describes it, the clause that derives its
/// pass, the clause that derives its failure from that, and an empty line.
pub open spec fn predicate_block(p: CompiledPredicateView) -> Seq<char> {
    "// pred["@ + decimal(p.id) + "]: "@ + rule_name(p.rule) + " "@ + p.claim_name + " "@
        + quoted_operand(p.expected_value) + notes_suffix(p.notes) + "\n"@ + "predicate_pass("@
        + decimal(p.id) + ") :- "@ + clause_body(
        p.rule,
        escaped(p.claim_name),
        escaped_operand(p.expected_value),
    ) + "predicate_fail("@ + decimal(p.id) + ") :- !predicate_pass("@ + decimal(p.id) + ").\n\n"@
}

/// The blocks of the first `n` predicates, in order.
pub open spec fn predicate_blocks(predicates: Seq<CompiledPredicateView>, n: int) -> Seq<char>
    decreases n,
{
    if n <= 0 || n > predicates.len() {
        Seq::empty()
    } else {
        predicate_blocks(predicates, n - 1) + predicate_block(predicates[n - 1])
    }
}

/// The whole program for a compiled rulespec and a listing of facts.
pub open spec fn program_text(c: CompiledRulespecView, facts: Seq<(Seq<char>, Seq<char>)>) -> Seq<
    char,
> {
    header_text(c.plan_id, c.compiled_at_revision) + fact_lines(facts, facts.len() as int)
        + "\n// --- Rules (from rulespec predicates) ---\n"@ + predicate_blocks(
        c.predicates,
        c.predicates.len() as int,
    )
}

/// The line that states one fact.
fn format_fact_line(claim_name: &str, value: &str) -> (r: Vec<char>)
    ensures
        r@ == fact_line((claim_name@, value@)),
{
    let claim = chars_of(claim_name);
    let val = chars_of(value);
    let suffix = chars_of(".__length");
    let mut out: Vec<char> = Vec::new();
    if chars_end_with(&claim, &suffix) {
        match parse_i64(&val) {
            Some(n) => {
                let base = strip_suffix_chars(&claim, &suffix);
                push_str(&mut out, "claim_length(\"");
                push_escaped(&mut out, &base);
                push_str(&mut out, "\", ");
                push_int(&mut out, n);
                push_str(&mut out, ").\n");
                assert(out@ =~= fact_line((claim_name@, value@)));
            },
            None => {
                assert(out@ =~= fact_line((claim_name@, value@)));
            },
        }
    } else {
        push_str(&mut out, "claim_value(\"");
        push_escaped(&mut out, &claim);
        push_str(&mut out, "\", \"");
        push_escaped(&mut out, &val);
        push_str(&mut out, "\").\n");
        assert(out@ =~= fact_line((claim_name@, value@)));
    }
    out
}

/// What follows the head of a clause, by rule.
fn format_clause_body(rule: PredicateRule, claim: &Vec<char>, expected: &Vec<char>) -> (r: Vec<
    char,
>)
    ensures
        r@ == clause_body(rule, claim@, expected@),
{
    let mut out: Vec<char> = Vec::new();
    let (open, middle, close): (&str, &str, &str) = match rule {
        PredicateRule::Exists => ("claim_value(\"", "\", _).\n", ""),
        PredicateRule::NotExists => ("!claim_value(\"", "\", _).\n", ""),
        PredicateRule::Equals => ("claim_value(\"", "\", \"", "\").\n"),
        PredicateRule::Contains => ("claim_value(\"", "\", \"", "\").\n"),
        PredicateRule::GreaterThan => ("claim_value(\"", "\", V), to_number(V, N), N > ", ".\n"),
        PredicateRule::LessThan => ("claim_value(\"", "\", V), to_number(V, N), N < ", ".\n"),
        PredicateRule::MinLength => ("claim_length(\"", "\", N), N >= ", ".\n"),
        PredicateRule::MaxLength => ("claim_length(\"", "\", N), N <= ", ".\n"),
        PredicateRule::Matches => ("claim_value(\"", "\", V), match(\"", "\", V).\n"),
        PredicateRule::NotContains => ("!claim_value(\"", "\", \"", "\").\n"),
        PredicateRule::AnyOf => ("claim_value(\"", "\", V), any_of(\"", "\", V).\n"),
        PredicateRule::NoneOf => ("!claim_value(\"", "\", V), none_of(\"", "\", V).\n"),
    };
    push_str(&mut out, open);
    push_chars(&mut out, claim);
    push_str(&mut out, middle);
    match rule {
        PredicateRule::Exists => {},
        PredicateRule::NotExists => {},
        _ => {
            push_chars(&mut out, expected);
            push_str(&mut out, close);
        },
    }
    assert(out@ =~= clause_body(rule, claim@, expected@));
    out
}

/// The block of one predicate.
fn format_predicate_block(pred: &CompiledPredicate) -> (r: Vec<char>)
    ensures
        r@ == predicate_block(pred@),
{
    let mut out: Vec<char> = Vec::new();
    let id = pred.id as u64;
    let mut claim: Vec<char> = Vec::new();
    push_escaped(&mut claim, &chars_of(pred.claim_name.as_str()));
    assert(claim@ =~= escaped(pred@.claim_name));
    let mut expected: Vec<char> = Vec::new();
    match &pred.expected_value {
        Some(v) => {
            push_escaped(&mut expected, &chars_of(v.as_str()));
        },
        None => {},
    }
    assert(expected@ =~= escaped_operand(pred@.expected_value));
    push_str(&mut out, "// pred[");
    push_decimal(&mut out, id);
    push_str(&mut out, "]: ");
    let rule = pred.rule.to_string();
    push_str(&mut out, rule.as_str());
    push_str(&mut out, " ");
    push_str(&mut out, pred.claim_name.as_str());
    push_str(&mut out, " ");
    match &pred.expected_value {
        Some(v) => {
            push_str(&mut out, "'");
            push_str(&mut out, v.as_str());
            push_str(&mut out, "'");
        },
        None => {},
    }
    let ghost a = "// pred["@ + decimal(pred@.id) + "]: "@ + rule_name(pred.rule) + " "@
        + pred@.claim_name + " "@ + quoted_operand(pred@.expected_value);
    assert(out@ =~= a);
    match &pred.notes {
        Some(n) => {
            push_str(&mut out, "  -- ");
            push_str(&mut out, n.as_str());
        },
        None => {},
    }
    assert(out@ =~= a + notes_suffix(pred@.notes));
    push_str(&mut out, "\n");
    push_str(&mut out, "predicate_pass(");
    push_decimal(&mut out, id);
    push_str(&mut out, ") :- ");
    let body = format_clause_body(pred.rule, &claim, &expected);
    push_chars(&mut out, &body);
    push_str(&mut out, "predicate_fail(");
    push_decimal(&mut out, id);
    push_str(&mut out, ") :- !predicate_pass(");
    push_decimal(&mut out, id);
    push_str(&mut out, ").\n\n");
    assert(out@ =~= predicate_block(pred@));
    out
}

/// Writes a compiled rulespec and the facts it was run on as a datalog program.
///
/// The text is [`program_text`] of the compiled rulespec and the facts in their order: the
/// same rulespec and the same set of facts give the same text, character for character.
pub fn format_datalog_program(compiled: &CompiledRulespec, facts: &FactSet) -> (r: String)
    ensures
        r@ == program_text(compiled@, facts.listing()),
{
    let mut out: Vec<char> = Vec::new();
    push_str(&mut out, "// Auto-generated datalog program\n// Plan: ");
    push_str(&mut out, compiled.plan_id.as_str());
    push_str(&mut out, "\n// Compiled at revision: ");
    push_decimal(&mut out, compiled.compiled_at_revision as u64);
    push_str(&mut out, "\n");
    push_str(
        &mut out,
        "\n// --- Relation declarations ---\n.decl claim_value(claim: symbol, value: symbol)\n.decl claim_length(claim: symbol, length: number)\n.decl predicate_pass(id: number)\n.decl predicate_fail(id: number)\n\n.output predicate_pass\n.output predicate_fail\n\n// --- Facts (from envelope) ---\n",
    );
    let ghost head = header_text(compiled@.plan_id, compiled@.compiled_at_revision);
    assert(out@ =~= head);
    let ghost listing = facts.listing();
    let n = facts.len();
    let mut i: usize = 0;
    assert(out@ =~= head + fact_lines(listing, 0));
    while i < n
        invariant
            i <= n,
            n == listing.len(),
            listing == facts.listing(),
            out@ == head + fact_lines(listing, i as int),
        decreases n - i,
    {
        let fact = facts.get(i);
        let line = format_fact_line(fact.claim_name.as_str(), fact.value.as_str());
        push_chars(&mut out, &line);
        assert(out@ =~= head + fact_lines(listing, i + 1));
        i += 1;
    }
    push_str(&mut out, "\n// --- Rules (from rulespec predicates) ---\n");
    let ghost mid = out@;
    let ghost predicates = compiled@.predicates;
    let mut k: usize = 0;
    assert(out@ =~= mid + predicate_blocks(predicates, 0));
    while k < compiled.predicates.len()
        invariant
            k <= compiled.predicates.len(),
            predicates == compiled@.predicates,
            predicates.len() == compiled.predicates.len(),
            out@ == mid + predicate_blocks(predicates, k as int),
        decreases compiled.predicates.len() - k,
    {
        assert(predicates[k as int] == compiled.predicates@[k as int]@);
        let block = format_predicate_block(&compiled.predicates[k]);
        push_chars(&mut out, &block);
        assert(out@ =~= mid + predicate_blocks(predicates, k + 1));
        k += 1;
    }
    assert(out@ =~= program_text(compiled@, listing));
    string_of(&out)
}

/// The program is fixed by the compiled rulespec and the set of facts: two listings in
/// order of the same facts give the same text, character for character.
pub proof fn lemma_program_deterministic(
    c: CompiledRulespecView,
    a: Seq<(Seq<char>, Seq<char>)>,
    b: Seq<(Seq<char>, Seq<char>)>,
)
    requires
        facts_sorted(a),
        facts_sorted(b),
        forall|p: (Seq<char>, Seq<char>)| a.contains(p) <==> b.contains(p),
    ensures
        program_text(c, a) == program_text(c, b),
{
    lemma_sorted_listing_unique(a, b);
}

} // verus!
