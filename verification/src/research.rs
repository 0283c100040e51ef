//! What a research agent printed: its text without terminal escapes, and the report
//! between its markers.

use vstd::prelude::*;
use crate::text::{
    chars_blank, chars_of, find_from, is_blank, occurs_at, push_str, slice_chars, string_of, trim,
    trim_chars,
};

verus! {

/// Whether `c` is an ASCII letter.
pub open spec fn is_ascii_letter(c: char) -> bool {
    (65 <= c as int <= 90) || (97 <= c as int <= 122)
}

/// Index behind the first ASCII letter of `s` at or after `i`, or the length of `s`.
pub open spec fn csi_end(s: Seq<char>, i: int) -> int
    decreases s.len() - i,
{
    if i < 0 || i >= s.len() {
        s.len() as int
    } else if is_ascii_letter(s[i]) {
        i + 1
    } else {
        csi_end(s, i + 1)
    }
}

/// Index behind the first bell character of `s` at or after `i`, or the length of `s`.
pub open spec fn osc_end(s: Seq<char>, i: int) -> int
    decreases s.len() - i,
{
    if i < 0 || i >= s.len() {
        s.len() as int
    } else if s[i] == '\x07' {
        i + 1
    } else {
        osc_end(s, i + 1)
    }
}

/// A sequence that `[` opens ends at or behind its start, within the text.
pub proof fn lemma_csi_end(s: Seq<char>, i: int)
    requires
        0 <= i <= s.len(),
    ensures
        i <= csi_end(s, i) <= s.len(),
    decreases s.len() - i,
{
    if i < s.len() && !is_ascii_letter(s[i]) {
        lemma_csi_end(s, i + 1);
    }
}

/// A sequence that `]` opens ends at or behind its start, within the text.
pub proof fn lemma_osc_end(s: Seq<char>, i: int)
    requires
        0 <= i <= s.len(),
    ensures
        i <= osc_end(s, i) <= s.len(),
    decreases s.len() - i,
{
    if i < s.len() && s[i] != '\x07' {
        lemma_osc_end(s, i + 1);
    }
}

/// The text of `s` from index `i` on without terminal escape sequences: after an escape
/// character, `[` opens a sequence that runs to the next letter, `]` one that runs to the
/// next bell character, and any other character is kept while the escape itself goes.
pub open spec fn stripped(s: Seq<char>, i: int) -> Seq<char>
    decreases s.len() - i,
{
    if i < 0 || i >= s.len() {
        Seq::empty()
    } else if s[i] == '\x1b' {
        if i + 1 < s.len() && s[i + 1] == '[' {
            proof {
                lemma_csi_end(s, i + 2);
            }
            stripped(s, csi_end(s, i + 2))
        } else if i + 1 < s.len() && s[i + 1] == ']' {
            proof {
                lemma_osc_end(s, i + 2);
            }
            stripped(s, osc_end(s, i + 2))
        } else {
            stripped(s, i + 1)
        }
    } else {
        seq![s[i]] + stripped(s, i + 1)
    }
}

/// The characters of `v` without terminal escape sequences.
fn strip_chars(v: &Vec<char>) -> (r: Vec<char>)
    ensures
        r@ == stripped(v@, 0),
{
    let mut out: Vec<char> = Vec::new();
    let mut i: usize = 0;
    assert(out@ + stripped(v@, 0) =~= stripped(v@, 0));
    while i < v.len()
        invariant
            i <= v.len(),
            stripped(v@, 0) == out@ + stripped(v@, i as int),
        decreases v.len() - i,
    {
        let c = v[i];
        if c == '\x1b' {
            if i + 1 < v.len() && v[i + 1] == '[' {
                let mut j: usize = i + 2;
                while j < v.len() && !(('a' <= v[j] && v[j] <= 'z') || ('A' <= v[j] && v[j] <= 'Z'))
                    invariant
                        i + 2 <= j <= v.len(),
                        csi_end(v@, i + 2) == csi_end(v@, j as int),
                    decreases v.len() - j,
                {
                    j += 1;
                }
                i = if j < v.len() {
                    j + 1
                } else {
                    j
                };
            } else if i + 1 < v.len() && v[i + 1] == ']' {
                let mut j: usize = i + 2;
                while j < v.len() && v[j] != '\x07'
                    invariant
                        i + 2 <= j <= v.len(),
                        osc_end(v@, i + 2) == osc_end(v@, j as int),
                    decreases v.len() - j,
                {
                    j += 1;
                }
                i = if j < v.len() {
                    j + 1
                } else {
                    j
                };
            } else {
                i += 1;
            }
        } else {
            let ghost before = out@;
            out.push(c);
            assert(out@ + stripped(v@, i + 1) =~= before + (seq![c] + stripped(v@, i + 1)));
            i += 1;
        }
    }
    assert(out@ + stripped(v@, i as int) =~= out@);
    out
}

/// Strips terminal escape sequences from a text.
pub fn strip_ansi_codes(s: &str) -> (r: String)
    ensures
        r@ == stripped(s@, 0),
{
    string_of(&strip_chars(&chars_of(s)))
}

/// A query cut for display to `max_len` characters: the query where it fits, else its
/// first `max_len - 3` characters and three dots.
pub open spec fn query_cut(query: Seq<char>, max_len: nat) -> Seq<char> {
    if query.len() <= max_len {
        query
    } else {
        query.take(
            if max_len >= 3 {
                max_len - 3
            } else {
                0
            },
        ) + "..."@
    }
}

/// Cuts a query for display.
pub fn truncate_query(query: &str, max_len: usize) -> (r: String)
    ensures
        r@ == query_cut(query@, max_len as nat),
{
    let v = chars_of(query);
    if v.len() <= max_len {
        string_of(&v)
    } else {
        let keep: usize = if max_len >= 3 {
            max_len - 3
        } else {
            0
        };
        let mut out = slice_chars(&v, 0, keep);
        push_str(&mut out, "...");
        string_of(&out)
    }
}

/// Why no report is found in what an agent printed.
#[derive(Clone, Copy, Debug, PartialEq, Eq, Structural)]
pub enum ReportError {
    /// The marker that opens the report is not there.
    MissingStart,
    /// The marker that closes the report is not there.
    MissingEnd,
    /// The closing marker does not stand behind the opening one.
    EndBeforeStart,
    /// The opening marker is there, but broken up by escape sequences.
    StartNotPlain,
    /// The closing marker is there, but broken up by escape sequences.
    EndNotPlain,
}

/// The text of the message that goes with a report error.
pub open spec fn report_error_text(e: ReportError) -> Seq<char> {
    match e {
        ReportError::MissingStart => "Scout agent did not output a properly formatted report. Expected ---SCOUT_REPORT_START--- marker."@,
        ReportError::MissingEnd => "Scout agent report is incomplete. Expected ---SCOUT_REPORT_END--- marker."@,
        ReportError::EndBeforeStart => "Invalid report format: end marker before start marker"@,
        ReportError::StartNotPlain => "Could not find start marker in original output"@,
        ReportError::EndNotPlain => "Could not find end marker in original output"@,
    }
}

impl ReportError {
    /// The message that goes with this error.
    pub fn to_string(&self) -> (s: String)
        ensures
            s@ == report_error_text(*self),
    {
        match self {
            ReportError::MissingStart => "Scout agent did not output a properly formatted report. Expected ---SCOUT_REPORT_START--- marker.".to_string(),
            ReportError::MissingEnd => "Scout agent report is incomplete. Expected ---SCOUT_REPORT_END--- marker.".to_string(),
            ReportError::EndBeforeStart => "Invalid report format: end marker before start marker".to_string(),
            ReportError::StartNotPlain => "Could not find start marker in original output".to_string(),
            ReportError::EndNotPlain => "Could not find end marker in original output".to_string(),
        }
    }
}

/// Whether `i` is the first place where `marker` occurs in `s`.
pub open spec fn first_at(s: Seq<char>, marker: Seq<char>, i: int) -> bool {
    occurs_at(s, marker, i) && forall|k: int| 0 <= k < i ==> !occurs_at(s, marker, k)
}

/// Whether `marker` occurs in `s`.
pub open spec fn occurs(s: Seq<char>, marker: Seq<char>) -> bool {
    exists|i: int| occurs_at(s, marker, i)
}

/// The first place where `marker` occurs in `s`.
pub open spec fn first_place(s: Seq<char>, marker: Seq<char>) -> int {
    choose|i: int| first_at(s, marker, i)
}

/// The marker that opens a report.
pub open spec fn start_marker() -> Seq<char> {
    "---SCOUT_REPORT_START---"@
}

/// The marker that closes a report.
pub open spec fn end_marker() -> Seq<char> {
    "---SCOUT_REPORT_END---"@
}

/// What the text between the markers gives as a report: itself, trimmed, or a notice where
/// nothing is left of it.
pub open spec fn report_of(content: Seq<char>) -> Seq<char> {
    if is_blank(content) {
        "Scout agent returned an empty report."@
    } else {
        trim(content)
    }
}

/// The report in what an agent printed.
///
/// Without its escape sequences the text must hold the opening marker and, behind the
/// first place of that, the first place of the closing marker. The report is then cut out
/// of the text as it was printed, between the first places of the two markers there, which
/// must be found and stand in this order.
pub open spec fn report_spec(output: Seq<char>) -> Result<Seq<char>, ReportError> {
    let clean = stripped(output, 0);
    if !occurs(clean, start_marker()) {
        Err(ReportError::MissingStart)
    } else if !occurs(clean, end_marker()) {
        Err(ReportError::MissingEnd)
    } else if first_place(clean, end_marker()) <= first_place(clean, start_marker()) {
        Err(ReportError::EndBeforeStart)
    } else if !occurs(output, start_marker()) {
        Err(ReportError::StartNotPlain)
    } else if !occurs(output, end_marker()) {
        Err(ReportError::EndNotPlain)
    } else {
        let from = first_place(output, start_marker()) + start_marker().len();
        let to = first_place(output, end_marker());
        if to < from {
            Err(ReportError::EndBeforeStart)
        } else {
            Ok(report_of(output.subrange(from, to)))
        }
    }
}

/// The first place where `marker` occurs in `v`.
fn find_marker_position(v: &Vec<char>, marker: &Vec<char>) -> (r: Option<usize>)
    ensures
        match r {
            Some(i) => occurs(v@, marker@) && first_place(v@, marker@) == i && i + marker@.len()
                <= v@.len(),
            None => !occurs(v@, marker@),
        },
{
    match find_from(v, marker, 0) {
        Some(i) => {
            proof {
                assert(first_at(v@, marker@, i as int));
                let c = first_place(v@, marker@);
                assert(first_at(v@, marker@, c));
                if c < i {
                    assert(!occurs_at(v@, marker@, c));
                } else if c > i {
                    assert(!occurs_at(v@, marker@, i as int));
                }
            }
            Some(i)
        },
        None => {
            assert forall|k: int| !occurs_at(v@, marker@, k) by {}
            None
        },
    }
}

/// The view of the outcome of an extraction.
pub open spec fn report_view(r: Result<String, ReportError>) -> Result<Seq<char>, ReportError> {
    match r {
        Ok(s) => Ok(s@),
        Err(e) => Err(e),
    }
}

/// Extracts the report from what an agent printed. Escape sequences inside the report are
/// kept.
pub fn extract_report(output: &str) -> (r: Result<String, ReportError>)
    ensures
        report_view(r) == report_spec(output@),
{
    let v = chars_of(output);
    let clean = strip_chars(&v);
    let start = chars_of("---SCOUT_REPORT_START---");
    let end = chars_of("---SCOUT_REPORT_END---");
    let start_pos = match find_marker_position(&clean, &start) {
        Some(p) => p,
        None => {
            return Err(ReportError::MissingStart);
        },
    };
    let end_pos = match find_marker_position(&clean, &end) {
        Some(p) => p,
        None => {
            return Err(ReportError::MissingEnd);
        },
    };
    if end_pos <= start_pos {
        return Err(ReportError::EndBeforeStart);
    }
    let printed_start = match find_marker_position(&v, &start) {
        Some(p) => p,
        None => {
            return Err(ReportError::StartNotPlain);
        },
    };
    let printed_end = match find_marker_position(&v, &end) {
        Some(p) => p,
        None => {
            return Err(ReportError::EndNotPlain);
        },
    };
    assert(printed_start + start.len() <= v.len());
    let from = printed_start + start.len();
    if printed_end < from {
        return Err(ReportError::EndBeforeStart);
    }
    let content = slice_chars(&v, from, printed_end);
    if chars_blank(&content) {
        Ok("Scout agent returned an empty report.".to_string())
    } else {
        Ok(string_of(&trim_chars(&content)))
    }
}

} // verus!
