//! The envelope tool without its files: what is checked when an agent hands in its facts,
//! what is evaluated, what is written down for audit, and the one line that goes back.

use vstd::prelude::*;
use crate::datalog::{
    compile_rulespec, compile_spec, compiled_passes_among, is_outcome_of, execute_rules, extract_facts,
    extracted_facts, CompileError, CompiledRulespecView, DatalogExecutionResult, FactSet,
};
use crate::envelope::{ActionEnvelope, EnvelopeView};
use crate::program::{format_datalog_program, program_text};
use crate::report::{datalog_report, format_datalog_results};
use crate::rulespec::Rulespec;
use crate::text::{chars_of, decimal, push_decimal, push_str, string_of};

verus! {

/// What the agent is told where it hands in an envelope without facts.
pub open spec fn empty_facts_guidance() -> Seq<char> {
    "❌ Envelope has empty facts. The YAML must contain a non-empty `facts` top-level key. Example:\n\n```yaml\nfacts:\n  my_feature:\n    capabilities: [feature_a, feature_b]\n    file: \"src/my_feature.rs\"\n```"@
}

/// Checks an envelope that an agent hands in: it must hold a fact. Where it holds none the
/// guidance message comes back, and nothing is to be written or stamped.
pub fn check_envelope(envelope: &ActionEnvelope) -> (r: Result<(), String>)
    ensures
        r is Err <==> envelope@.facts.len() == 0,
        r is Err ==> r->Err_0@ == empty_facts_guidance(),
{
    if envelope.is_empty() {
        Err(
            "❌ Envelope has empty facts. The YAML must contain a non-empty `facts` top-level key. Example:\n\n```yaml\nfacts:\n  my_feature:\n    capabilities: [feature_a, feature_b]\n    file: \"src/my_feature.rs\"\n```".to_string(),
        )
    } else {
        Ok(())
    }
}

/// Takes in the envelope that an agent hands in, and gives the envelope that is to be
/// written for it: the same facts, and no stamp, whatever stamp the agent wrote. An
/// envelope without facts is refused with the guidance message.
pub fn accept_envelope(envelope: &ActionEnvelope) -> (r: Result<ActionEnvelope, String>)
    ensures
        r is Err <==> envelope@.facts.len() == 0,
        r is Err ==> r->Err_0@ == empty_facts_guidance(),
        r is Ok ==> r->Ok_0@ == (EnvelopeView { facts: envelope@.facts, verified: None }),
{
    match check_envelope(envelope) {
        Err(guidance) => Err(guidance),
        Ok(_) => Ok(envelope.unstamped()),
    }
}

/// A file name under a directory: the name alone where the directory is empty, else the
/// directory, a `/` unless it ends in one, and the name.
pub open spec fn joined_path(dir: Seq<char>, name: Seq<char>) -> Seq<char> {
    if dir.len() == 0 {
        name
    } else if dir.last() == '/' {
        dir + name
    } else {
        dir + seq!['/'] + name
    }
}

/// The path of the file `name` in the directory `dir`.
pub fn join_path(dir: &str, name: &str) -> (r: String)
    ensures
        r@ == joined_path(dir@, name@),
{
    let d = chars_of(dir);
    let mut out: Vec<char> = Vec::new();
    push_str(&mut out, dir);
    if d.len() > 0 && d[d.len() - 1] != '/' {
        out.push('/');
    }
    push_str(&mut out, name);
    assert(out@ =~= joined_path(dir@, name@));
    string_of(&out)
}

/// The path of the envelope of a session, in the directory of its logs.
pub fn get_envelope_path(session_logs_dir: &str) -> (r: String)
    ensures
        r@ == joined_path(session_logs_dir@, "envelope.yaml"@),
{
    join_path(session_logs_dir, "envelope.yaml")
}

/// What was evaluated for an envelope, and what is to be written down of it.
#[derive(Debug)]
pub struct Evaluation {
    /// The facts that were extracted.
    pub facts: FactSet,
    /// The outcome of each predicate, and the counts.
    pub result: DatalogExecutionResult,
    /// The datalog program, for the file `rulespec.compiled.dl`.
    pub program: String,
    /// The report, for the file `datalog_evaluation.txt`.
    pub report: String,
    /// Whether the envelope is to be stamped: no predicate failed and one passed at least.
    pub stamp: bool,
}

/// How the verification of an envelope ended.
#[derive(Debug)]
pub enum EnvelopeVerification {
    /// There is no rulespec: nothing to verify.
    NoRulespec,
    /// The rulespec does not compile.
    CompileFailed(CompileError),
    /// The rulespec has no predicate: nothing to verify.
    NoPredicates,
    /// There is no envelope.
    NoEnvelope,
    /// The predicates were evaluated.
    Evaluated(Evaluation),
}

/// The plan name under which a rulespec is compiled for the verification of an envelope.
pub open spec fn verify_plan_id() -> Seq<char> {
    "envelope-verify"@
}

/// Whether the verification against this rulespec gets as far as the envelope: there is a
/// rulespec, it compiles, and it has a predicate. Where it does not, the envelope need not
/// be read, and a fault of its file is no matter.
pub fn envelope_needed(rulespec: &Option<Rulespec>) -> (r: bool)
    ensures
        r == (rulespec is Some && compile_spec(rulespec->0@, verify_plan_id(), 0) is Ok
            && rulespec->0@.predicates.len() > 0),
{
    match rulespec {
        Some(r) => match compile_rulespec(r, "envelope-verify", 0) {
            Ok(compiled) => !compiled.is_empty(),
            Err(_) => false,
        },
        None => false,
    }
}

/// Verifies an envelope against a rulespec, as far as both were found.
///
/// Without rulespec nothing is verified. A rulespec that does not compile, or has no
/// predicate, ends the verification, and so does a missing envelope. Else the facts are
/// extracted and every predicate is evaluated; the program and the report are made for the
/// audit files; and the envelope is to be stamped exactly where no predicate failed and
/// one passed at least.
pub fn verify_envelope(rulespec: &Option<Rulespec>, envelope: &Option<ActionEnvelope>) -> (r:
    EnvelopeVerification)
    ensures
        match r {
            EnvelopeVerification::NoRulespec => rulespec is None,
            EnvelopeVerification::CompileFailed(e) => rulespec is Some && compile_spec(
                rulespec->0@,
                verify_plan_id(),
                0,
            ) == Err::<CompiledRulespecView, _>(e@),
            EnvelopeVerification::NoPredicates => rulespec is Some && compile_spec(
                rulespec->0@,
                verify_plan_id(),
                0,
            ) is Ok && rulespec->0@.predicates.len() == 0,
            EnvelopeVerification::NoEnvelope => rulespec is Some && compile_spec(
                rulespec->0@,
                verify_plan_id(),
                0,
            ) is Ok && rulespec->0@.predicates.len() > 0 && envelope is None,
            EnvelopeVerification::Evaluated(ev) => {
                let compiled = compile_spec(rulespec->0@, verify_plan_id(), 0);
                &&& rulespec is Some
                &&& envelope is Some
                &&& compiled is Ok
                &&& compiled->Ok_0.predicates.len() > 0
                &&& ev.facts@ == extracted_facts(envelope->0@, compiled->Ok_0)
                &&& ev.result.predicate_results@.len() == compiled->Ok_0.predicates.len()
                &&& forall|k: int|
                    0 <= k < compiled->Ok_0.predicates.len() ==> is_outcome_of(
                        #[trigger] ev.result.predicate_results@[k],
                        compiled->Ok_0.predicates[k],
                        ev.facts@,
                    )
                &&& ev.result.fact_count == ev.facts.listing().len()
                &&& ev.result.passed_count == compiled_passes_among(
                    compiled->Ok_0.predicates,
                    ev.facts@,
                    compiled->Ok_0.predicates.len() as int,
                )
                &&& ev.result.passed_count + ev.result.failed_count
                    == compiled->Ok_0.predicates.len()
                &&& ev.stamp == (ev.result.failed_count == 0)
                &&& ev.program@ == program_text(compiled->Ok_0, ev.facts.listing())
                &&& ev.report@ == datalog_report(ev.result)
            },
        },
{
    let rulespec = match rulespec {
        Some(r) => r,
        None => {
            return EnvelopeVerification::NoRulespec;
        },
    };
    let compiled = match compile_rulespec(rulespec, "envelope-verify", 0) {
        Ok(c) => c,
        Err(e) => {
            return EnvelopeVerification::CompileFailed(e);
        },
    };
    if compiled.is_empty() {
        return EnvelopeVerification::NoPredicates;
    }
    let envelope = match envelope {
        Some(e) => e,
        None => {
            return EnvelopeVerification::NoEnvelope;
        },
    };
    let facts = extract_facts(envelope, &compiled);
    let result = execute_rules(&compiled, &facts);
    assert(compiled@.predicates.len() == compiled.predicates.len());
    let report = format_datalog_results(&result);
    let program = format_datalog_program(&compiled, &facts);
    let stamp = result.failed_count == 0 && result.passed_count > 0;
    EnvelopeVerification::Evaluated(Evaluation { facts, result, program, report, stamp })
}

/// The counts of a verification in one line.
pub open spec fn counts_line(passed: nat, failed: nat) -> Seq<char> {
    if failed == 0 {
        "\n✅ Invariant verification: "@ + decimal(passed) + "/"@ + decimal(passed + failed)
            + " passed\n"@
    } else {
        "\n⚠️  Invariant verification: "@ + decimal(passed) + "/"@ + decimal(passed + failed)
            + " passed, "@ + decimal(failed) + " failed\n"@
    }
}

/// The one line that goes back to the agent after a verification. The stamp is no part of
/// it.
pub open spec fn summary_text(v: EnvelopeVerification) -> Seq<char> {
    match v {
        EnvelopeVerification::NoRulespec => "\nℹ️  No rulespec found — skipping invariant verification.\n"@,
        EnvelopeVerification::CompileFailed(e) => "\n⚠️  Failed to compile rulespec: "@
            + crate::datalog::compile_error_text(e@) + "\n"@,
        EnvelopeVerification::NoPredicates => "\nℹ️  Rulespec has no predicates — skipping invariant verification.\n"@,
        EnvelopeVerification::NoEnvelope => "\n⚠️  No envelope found — skipping invariant verification.\n"@,
        EnvelopeVerification::Evaluated(ev) => counts_line(
            ev.result.passed_count as nat,
            ev.result.failed_count as nat,
        ),
    }
}

/// Writes the one line that goes back to the agent after a verification.
pub fn verification_summary(v: &EnvelopeVerification) -> (s: String)
    requires
        v is Evaluated ==> v->Evaluated_0.result.passed_count
            + v->Evaluated_0.result.failed_count <= usize::MAX,
    ensures
        s@ == summary_text(*v),
{
    match v {
        EnvelopeVerification::NoRulespec => "\nℹ️  No rulespec found — skipping invariant verification.\n".to_string(),
        EnvelopeVerification::CompileFailed(e) => {
            let mut out: Vec<char> = Vec::new();
            push_str(&mut out, "\n⚠️  Failed to compile rulespec: ");
            let detail = e.to_string();
            push_str(&mut out, detail.as_str());
            push_str(&mut out, "\n");
            assert(out@ =~= summary_text(*v));
            string_of(&out)
        },
        EnvelopeVerification::NoPredicates => "\nℹ️  Rulespec has no predicates — skipping invariant verification.\n".to_string(),
        EnvelopeVerification::NoEnvelope => "\n⚠️  No envelope found — skipping invariant verification.\n".to_string(),
        EnvelopeVerification::Evaluated(ev) => {
            let passed = ev.result.passed_count;
            let failed = ev.result.failed_count;
            let mut out: Vec<char> = Vec::new();
            if failed == 0 {
                push_str(&mut out, "\n✅ Invariant verification: ");
                push_decimal(&mut out, passed as u64);
                push_str(&mut out, "/");
                push_decimal(&mut out, (passed + failed) as u64);
                push_str(&mut out, " passed\n");
            } else {
                push_str(&mut out, "\n⚠️  Invariant verification: ");
                push_decimal(&mut out, passed as u64);
                push_str(&mut out, "/");
                push_decimal(&mut out, (passed + failed) as u64);
                push_str(&mut out, " passed, ");
                push_decimal(&mut out, failed as u64);
                push_str(&mut out, " failed\n");
            }
            assert(out@ =~= summary_text(*v));
            string_of(&out)
        },
    }
}

} // verus!
