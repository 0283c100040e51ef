//! Project context: the parts that make up what an agent is told of a workspace, and the
//! title that stands for it.

use vstd::prelude::*;
use crate::text::{
    chars_blank, chars_of, chars_start_with, is_blank, push_str, slice_chars, starts_with,
    string_of, trim, trim_chars,
};

verus! {

/// The text that `s` is cut to for display in `max_len` characters: `s` where it fits, else
/// its first `max_len - 3` characters and three dots.
pub open spec fn display_cut(s: Seq<char>, max_len: nat) -> Seq<char> {
    if s.len() <= max_len {
        s
    } else {
        s.take(
            if max_len >= 3 {
                max_len - 3
            } else {
                0
            },
        ) + "..."@
    }
}

/// Cuts a text for display to `max_len` characters, three dots at the end where it was cut.
pub fn truncate_for_display(s: &str, max_len: usize) -> (r: String)
    ensures
        r@ == display_cut(s@, max_len as nat),
{
    let v = chars_of(s);
    if v.len() <= max_len {
        string_of(&v)
    } else {
        let keep: usize = if max_len >= 3 {
            max_len - 3
        } else {
            0
        };
        let mut out = slice_chars(&v, 0, keep);
        push_str(&mut out, "...");
        string_of(&out)
    }
}

/// The parts of a project context that are there, in their order: the working directory,
/// the agents file, the language prompts, the included prompt, the skills, and the memory
/// last.
pub open spec fn context_parts(
    agents: Option<Seq<char>>,
    memory: Option<Seq<char>>,
    language: Option<Seq<char>>,
    include_prompt: Option<Seq<char>>,
    skills: Option<Seq<char>>,
    workspace_dir: Seq<char>,
) -> Seq<Seq<char>> {
    seq!["üìÇ Working Directory: "@ + workspace_dir] + optional(agents) + optional(language)
        + optional(include_prompt) + optional(skills) + optional(memory)
}

/// A part that may be missing, as a list of one part or none.
pub open spec fn optional(part: Option<Seq<char>>) -> Seq<Seq<char>> {
    match part {
        Some(p) => seq![p],
        None => Seq::empty(),
    }
}

/// The parts joined by an empty line between one and the next.
pub open spec fn joined_parts(parts: Seq<Seq<char>>) -> Seq<char>
    decreases parts.len(),
{
    if parts.len() == 0 {
        Seq::empty()
    } else if parts.len() == 1 {
        parts[0]
    } else {
        joined_parts(parts.drop_last()) + "\n\n"@ + parts.last()
    }
}

/// The view of a part that may be missing.
pub open spec fn part_view(p: Option<String>) -> Option<Seq<char>> {
    match p {
        Some(s) => Some(s@),
        None => None,
    }
}

/// Adds a part, where there is one, to the parts joined so far.
fn push_part(out: &mut Vec<char>, part: &Option<String>, Ghost(parts): Ghost<Seq<Seq<char>>>)
    requires
        parts.len() > 0,
        old(out)@ == joined_parts(parts),
    ensures
        final(out)@ == joined_parts(parts + optional(part_view(*part))),
{
    match part {
        Some(p) => {
            push_str(out, "\n\n");
            push_str(out, p.as_str());
            proof {
                let all = parts + seq![p@];
                assert(all.drop_last() =~= parts);
                assert(all.last() == p@);
                assert(parts + optional(part_view(*part)) =~= all);
            }
        },
        None => {
            assert(parts + optional(part_view(*part)) =~= parts);
        },
    }
}

/// Combines the parts of a project context into one text.
///
/// The working directory always comes first, so the result is never `None`; the parts
/// that are there follow in the order of [`context_parts`], an empty line between them.
pub fn combine_project_content(
    agents_content: Option<String>,
    memory_content: Option<String>,
    language_content: Option<String>,
    include_prompt: Option<String>,
    skills_content: Option<String>,
    workspace_dir: &str,
) -> (r: Option<String>)
    ensures
        r is Some,
        r->0@ == joined_parts(
            context_parts(
                part_view(agents_content),
                part_view(memory_content),
                part_view(language_content),
                part_view(include_prompt),
                part_view(skills_content),
                workspace_dir@,
            ),
        ),
{
    let mut out: Vec<char> = Vec::new();
    push_str(&mut out, "üìÇ Working Directory: ");
    push_str(&mut out, workspace_dir);
    let ghost parts0 = seq!["üìÇ Working Directory: "@ + workspace_dir@];
    assert(out@ =~= joined_parts(parts0));
    push_part(&mut out, &agents_content, Ghost(parts0));
    let ghost parts1 = parts0 + optional(part_view(agents_content));
    push_part(&mut out, &language_content, Ghost(parts1));
    let ghost parts2 = parts1 + optional(part_view(language_content));
    push_part(&mut out, &include_prompt, Ghost(parts2));
    let ghost parts3 = parts2 + optional(part_view(include_prompt));
    push_part(&mut out, &skills_content, Ghost(parts3));
    let ghost parts4 = parts3 + optional(part_view(skills_content));
    push_part(&mut out, &memory_content, Ghost(parts4));
    Some(string_of(&out))
}

/// Index of the first line feed of `s` at or after `i`, or the length of `s`.
pub open spec fn line_end(s: Seq<char>, i: int) -> int
    decreases s.len() - i,
{
    if i < 0 || i >= s.len() || s[i] == '\n' {
        if i < 0 || i > s.len() {
            s.len() as int
        } else {
            i
        }
    } else {
        line_end(s, i + 1)
    }
}

/// The line of `s` that starts at `i` and ends before `end`, without the carriage return
/// that may close it.
pub open spec fn line_at(s: Seq<char>, i: int, end: int) -> Seq<char> {
    if i < end && s[end - 1] == '\r' {
        s.subrange(i, end - 1)
    } else {
        s.subrange(i, end)
    }
}

/// Whether a trimmed line is one of the markers that open a section of a project context.
pub open spec fn is_marker_line(t: Seq<char>) -> bool {
    starts_with(t, "üìÇ"@) || starts_with(t, "ü§ñ"@) || starts_with(t, "üîß"@)
        || starts_with(t, "üìé"@) || starts_with(t, "==="@)
}

/// The title that a trimmed line gives as a first-level heading: what follows `# `,
/// trimmed, where that is not empty.
pub open spec fn heading_of(t: Seq<char>) -> Option<Seq<char>> {
    if !is_marker_line(t) && starts_with(t, "# "@) && !is_blank(t.skip(2)) {
        Some(trim(t.skip(2)))
    } else {
        None
    }
}

/// The first heading among the lines of `s` from index `i` on.
pub open spec fn first_heading(s: Seq<char>, i: int) -> Option<Seq<char>>
    decreases s.len() - i,
{
    if i < 0 || i >= s.len() {
        None
    } else {
        proof {
            lemma_line_end(s, i);
        }
        let end = line_end(s, i);
        match heading_of(trim(line_at(s, i, end))) {
            Some(t) => Some(t),
            None => if end >= s.len() {
                None
            } else {
                first_heading(s, end + 1)
            },
        }
    }
}

/// Whether a trimmed line can stand as a title where there is no heading: it is not empty
/// and opens no section, heading, rule or list of separators.
pub open spec fn is_title_line(t: Seq<char>) -> bool {
    t.len() > 0 && !starts_with(t, "üìö"@) && !starts_with(t, "üìÇ"@) && !starts_with(
        t,
        "ü§ñ"@,
    ) && !starts_with(t, "üîß"@) && !starts_with(t, "#"@) && !starts_with(t, "=="@)
        && !starts_with(t, "--"@)
}

/// The first line that can stand as a title among up to `left` lines of `s` from index `i`
/// on, cut for display to 100 characters.
pub open spec fn fallback_title(s: Seq<char>, i: int, left: nat) -> Option<Seq<char>>
    decreases left,
{
    if left == 0 || i < 0 || i >= s.len() {
        None
    } else {
        let end = line_end(s, i);
        let t = trim(line_at(s, i, end));
        if is_title_line(t) {
            Some(display_cut(t, 100))
        } else if end >= s.len() {
            None
        } else {
            fallback_title(s, end + 1, (left - 1) as nat)
        }
    }
}

/// The title of a project context: its first first-level heading or, where it has none,
/// the first of its first five lines that can stand as one.
pub open spec fn project_heading(s: Seq<char>) -> Option<Seq<char>> {
    match first_heading(s, 0) {
        Some(t) => Some(t),
        None => fallback_title(s, 0, 5),
    }
}

/// A line ends at or behind its start, within the text.
pub proof fn lemma_line_end(s: Seq<char>, i: int)
    requires
        0 <= i <= s.len(),
    ensures
        i <= line_end(s, i) <= s.len(),
    decreases s.len() - i,
{
    if i < s.len() && s[i] != '\n' {
        lemma_line_end(s, i + 1);
    }
}

/// Finds the end of the line that starts at `i`.
fn find_line_end(v: &Vec<char>, i: usize) -> (end: usize)
    requires
        i <= v.len(),
    ensures
        end == line_end(v@, i as int),
        i <= end <= v.len(),
{
    let mut end: usize = i;
    while end < v.len() && v[end] != '\n'
        invariant
            i <= end <= v.len(),
            line_end(v@, i as int) == line_end(v@, end as int),
        decreases v.len() - end,
    {
        end += 1;
    }
    end
}

/// The line from `i` to `end`, trimmed.
fn trimmed_line(v: &Vec<char>, i: usize, end: usize) -> (t: Vec<char>)
    requires
        i <= end <= v.len(),
    ensures
        t@ == trim(line_at(v@, i as int, end as int)),
{
    let stop: usize = if i < end && v[end - 1] == '\r' {
        end - 1
    } else {
        end
    };
    let line = slice_chars(v, i, stop);
    trim_chars(&line)
}

/// Whether `t` begins with `prefix`.
fn begins(t: &Vec<char>, prefix: &str) -> (r: bool)
    ensures
        r == starts_with(t@, prefix@),
{
    chars_start_with(t, &chars_of(prefix))
}

/// Extracts the title of a project context.
///
/// Returns [`project_heading`]: the first first-level heading outside the marker lines,
/// else the first plain line among the first five, cut to 100 characters.
pub fn extract_project_heading(project_context: &str) -> (r: Option<String>)
    ensures
        part_view(r) == project_heading(project_context@),
{
    let v = chars_of(project_context);
    let mut i: usize = 0;
    while i < v.len()
        invariant
            i <= v.len(),
            v@ == project_context@,
            first_heading(v@, 0) == first_heading(v@, i as int),
        decreases v.len() - i,
    {
        let end = find_line_end(&v, i);
        let t = trimmed_line(&v, i, end);
        let marker = begins(&t, "üìÇ") || begins(&t, "ü§ñ") || begins(&t, "üîß") || begins(
            &t,
            "üìé",
        ) || begins(&t, "===");
        if !marker && begins(&t, "# ") {
            proof {
                reveal_strlit("# ");
            }
            let rest = slice_chars(&t, 2, t.len());
            assert(rest@ =~= t@.skip(2));
            if !chars_blank(&rest) {
                let title = trim_chars(&rest);
                return Some(string_of(&title));
            }
        }
        i = if end < v.len() {
            end + 1
        } else {
            v.len()
        };
    }
    let mut i: usize = 0;
    let mut left: usize = 5;
    while left > 0 && i < v.len()
        invariant
            i <= v.len(),
            v@ == project_context@,
            first_heading(v@, 0) is None,
            fallback_title(v@, 0, 5) == fallback_title(v@, i as int, left as nat),
        decreases left,
    {
        let end = find_line_end(&v, i);
        let t = trimmed_line(&v, i, end);
        if t.len() > 0 && !begins(&t, "üìö") && !begins(&t, "üìÇ") && !begins(&t, "ü§ñ")
            && !begins(&t, "üîß") && !begins(&t, "#") && !begins(&t, "==") && !begins(&t, "--") {
            let text = string_of(&t);
            return Some(truncate_for_display(text.as_str(), 100));
        }
        i = if end < v.len() {
            end + 1
        } else {
            v.len()
        };
        left -= 1;
    }
    None
}

} // verus!
