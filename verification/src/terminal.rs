//! Fitting text into the width of a terminal: clipping lines and compressing paths.

use vstd::prelude::*;
use crate::text::{
    chars_contain, chars_of, contains_text, part_views, push_chars, push_str, slice_chars,
    split_chars, split_texts, string_of,
};

verus! {

/// Columns left free at the right edge.
pub const RIGHT_MARGIN: usize = 4;

/// The least width that is still used.
pub const MIN_WIDTH: usize = 40;

/// The width taken where the terminal does not tell its own.
pub const DEFAULT_WIDTH: usize = 80;

/// The usable width of a terminal of `detected` columns, or of 80 columns where the width
/// is not known: the columns less the right margin, and never less than 40.
pub open spec fn usable_width(detected: Option<u16>) -> nat {
    let columns: nat = match detected {
        Some(w) => w as nat,
        None => DEFAULT_WIDTH as nat,
    };
    let inner: nat = if columns >= RIGHT_MARGIN {
        (columns - RIGHT_MARGIN) as nat
    } else {
        0
    };
    if inner >= MIN_WIDTH {
        inner
    } else {
        MIN_WIDTH as nat
    }
}

/// The usable width of the terminal, from the number of columns that was detected, if any.
pub fn get_terminal_width(detected: Option<u16>) -> (w: usize)
    ensures
        w == usable_width(detected),
        w >= MIN_WIDTH,
{
    let columns: usize = match detected {
        Some(w) => w as usize,
        None => DEFAULT_WIDTH,
    };
    let inner: usize = if columns >= RIGHT_MARGIN {
        columns - RIGHT_MARGIN
    } else {
        0
    };
    if inner >= MIN_WIDTH {
        inner
    } else {
        MIN_WIDTH
    }
}

/// The width left for content after a prefix of `prefix_width` columns.
pub fn available_width_after_prefix(detected: Option<u16>, prefix_width: usize) -> (w: usize)
    ensures
        w == if usable_width(detected) >= prefix_width {
            usable_width(detected) - prefix_width
        } else {
            0
        },
{
    let width = get_terminal_width(detected);
    if width >= prefix_width {
        width - prefix_width
    } else {
        0
    }
}

/// A line clipped to `max_width` characters: the line where it fits, else its first
/// `max_width - 1` characters and an ellipsis.
pub open spec fn clipped(line: Seq<char>, max_width: nat) -> Seq<char> {
    if line.len() <= max_width {
        line
    } else {
        line.take(
            if max_width >= 1 {
                max_width - 1
            } else {
                0
            },
        ).push('…')
    }
}

/// Clips the characters of a line.
fn clip_chars(v: &Vec<char>, max_width: usize) -> (r: Vec<char>)
    ensures
        r@ == clipped(v@, max_width as nat),
{
    if v.len() <= max_width {
        let r = slice_chars(v, 0, v.len());
        assert(r@ =~= v@);
        r
    } else {
        let keep: usize = if max_width >= 1 {
            max_width - 1
        } else {
            0
        };
        let mut out = slice_chars(v, 0, keep);
        out.push('…');
        out
    }
}

/// Clips a line to fit within `max_width` characters, with an ellipsis where it was cut.
pub fn clip_line(line: &str, max_width: usize) -> (r: String)
    ensures
        r@ == clipped(line@, max_width as nat),
{
    string_of(&clip_chars(&chars_of(line), max_width))
}

/// Compresses a shell command to fit within `max_width` characters: it is cut at the right.
pub fn compress_command(command: &str, max_width: usize) -> (r: String)
    ensures
        r@ == clipped(command@, max_width as nat),
{
    clip_line(command, max_width)
}

/// Index of the last `/` among the first `upto` characters of `path`, or -1.
pub open spec fn last_slash(path: Seq<char>, upto: int) -> int
    decreases upto,
{
    if upto <= 0 || upto > path.len() {
        -1
    } else if path[upto - 1] == '/' {
        upto - 1
    } else {
        last_slash(path, upto - 1)
    }
}

/// A path compressed to `max_width` characters.
///
/// A path that fits stays. Else the file name, which is what follows the last `/`,
/// is kept: clipped where even it does not fit beside an ellipsis; else after an
/// ellipsis, as much of the end of the directory as fits, and a `/`.
pub open spec fn compressed_path(path: Seq<char>, max_width: nat) -> Seq<char> {
    let slash = last_slash(path, path.len() as int);
    let filename = path.skip(slash + 1);
    if path.len() <= max_width {
        path
    } else if filename.len() + 1 >= max_width {
        clipped(filename, max_width)
    } else {
        let available = max_width - (filename.len() + 2);
        if available == 0 {
            seq!['…', '/'] + filename
        } else if slash < 0 || slash <= available {
            path
        } else {
            seq!['…'] + path.subrange(slash - available, slash) + seq!['/'] + filename
        }
    }
}

proof fn lemma_last_slash(path: Seq<char>, upto: int)
    requires
        0 <= upto <= path.len(),
    ensures
        -1 <= last_slash(path, upto) < upto,
    decreases upto,
{
    if upto > 0 && path[upto - 1] != '/' {
        lemma_last_slash(path, upto - 1);
    }
}

/// Compresses a file path to fit within `max_width` characters, keeping the file name.
pub fn compress_path(path: &str, max_width: usize) -> (r: String)
    ensures
        r@ == compressed_path(path@, max_width as nat),
{
    let v = chars_of(path);
    if v.len() <= max_width {
        return string_of(&v);
    }
    let mut cut: usize = v.len();
    while cut > 0 && v[cut - 1] != '/'
        invariant
            cut <= v.len(),
            last_slash(v@, v.len() as int) == last_slash(v@, cut as int),
        decreases cut,
    {
        cut -= 1;
    }
    // `cut` stands behind the last slash, or at the start where there is none
    proof {
        lemma_last_slash(v@, v.len() as int);
    }
    let filename = slice_chars(&v, cut, v.len());
    assert(filename@ =~= v@.skip(last_slash(v@, v.len() as int) + 1));
    if max_width == 0 || filename.len() >= max_width - 1 {
        return string_of(&clip_chars(&filename, max_width));
    }
    let available: usize = max_width - (filename.len() + 2);
    let mut out: Vec<char> = Vec::new();
    if available == 0 {
        out.push('…');
        out.push('/');
        push_chars(&mut out, &filename);
        assert(out@ =~= seq!['…', '/'] + filename@);
        return string_of(&out);
    }
    if cut == 0 || cut - 1 <= available {
        return string_of(&v);
    }
    let slash: usize = cut - 1;
    let partial = slice_chars(&v, slash - available, slash);
    out.push('…');
    push_chars(&mut out, &partial);
    out.push('/');
    push_chars(&mut out, &filename);
    assert(out@ =~= seq!['…'] + v@.subrange(slash - available, slash as int) + seq!['/']
        + filename@);
    string_of(&out)
}


/// A summary of a replacement in colour: `added | removed` with the first part green and
/// the second red; a summary that begins with `+` green, one that begins with `-` red; any
/// other as it is.
pub open spec fn colorized_summary(summary: Seq<char>) -> Seq<char> {
    let parts = split_texts(summary, " | "@);
    if contains_text(summary, " | "@) {
        if parts.len() == 2 {
            "\x1b[32m"@ + parts[0] + "\x1b[0m \x1b[2m|\x1b[0m \x1b[31m"@ + parts[1] + "\x1b[0m"@
        } else {
            summary
        }
    } else if summary.len() > 0 && summary[0] == '+' {
        "\x1b[32m"@ + summary + "\x1b[0m"@
    } else if summary.len() > 0 && summary[0] == '-' {
        "\x1b[31m"@ + summary + "\x1b[0m"@
    } else {
        summary
    }
}

/// Writes the summary of a replacement in colour.
pub fn colorize_str_replace_summary(summary: &str) -> (r: String)
    ensures
        r@ == colorized_summary(summary@),
{
    let v = chars_of(summary);
    let sep = chars_of(" | ");
    proof {
        reveal_strlit(" | ");
    }
    let mut out: Vec<char> = Vec::new();
    if chars_contain(&v, &sep) {
        let parts = split_chars(&v, &sep);
        assert(part_views(parts@).len() == parts@.len());
        if parts.len() == 2 {
            assert(part_views(parts@)[0] == parts@[0]@);
            assert(part_views(parts@)[1] == parts@[1]@);
            push_str(&mut out, "\x1b[32m");
            push_chars(&mut out, &parts[0]);
            push_str(&mut out, "\x1b[0m \x1b[2m|\x1b[0m \x1b[31m");
            push_chars(&mut out, &parts[1]);
            push_str(&mut out, "\x1b[0m");
            assert(out@ =~= colorized_summary(summary@));
            return string_of(&out);
        }
        return string_of(&v);
    }
    if v.len() > 0 && v[0] == '+' {
        push_str(&mut out, "\x1b[32m");
        push_chars(&mut out, &v);
        push_str(&mut out, "\x1b[0m");
        assert(out@ =~= colorized_summary(summary@));
        return string_of(&out);
    }
    if v.len() > 0 && v[0] == '-' {
        push_str(&mut out, "\x1b[31m");
        push_chars(&mut out, &v);
        push_str(&mut out, "\x1b[0m");
        assert(out@ =~= colorized_summary(summary@));
        return string_of(&out);
    }
    string_of(&v)
}

} // verus!
