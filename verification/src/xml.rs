//! Text inside XML elements.

use vstd::prelude::*;
use crate::text::{chars_of, push_str, string_of};

verus! {

/// How one character is written inside an XML element.
pub open spec fn xml_char(c: char) -> Seq<char> {
    if c == '&' {
        "&amp;"@
    } else if c == '<' {
        "&lt;"@
    } else if c == '>' {
        "&gt;"@
    } else if c == '"' {
        "&quot;"@
    } else if c == '\'' {
        "&apos;"@
    } else {
        seq![c]
    }
}

/// A text as it is written inside an XML element: `&`, `<`, `>` and the two quotes are
/// written as entities, every other character stands for itself.
pub open spec fn xml_escaped(s: Seq<char>) -> Seq<char>
    decreases s.len(),
{
    if s.len() == 0 {
        Seq::empty()
    } else {
        xml_escaped(s.drop_last()) + xml_char(s.last())
    }
}

/// Appends `s`, escaped for XML, to `out`.
pub fn push_xml(out: &mut Vec<char>, s: &str)
    ensures
        final(out)@ == old(out)@ + xml_escaped(s@),
{
    let v = chars_of(s);
    let ghost before = out@;
    let mut i: usize = 0;
    assert(v@.take(0) =~= Seq::<char>::empty());
    assert(out@ =~= before + xml_escaped(v@.take(0)));
    while i < v.len()
        invariant
            i <= v.len(),
            out@ == before + xml_escaped(v@.take(i as int)),
        decreases v.len() - i,
    {
        let c = v[i];
        let ghost mid = out@;
        if c == '&' {
            push_str(out, "&amp;");
        } else if c == '<' {
            push_str(out, "&lt;");
        } else if c == '>' {
            push_str(out, "&gt;");
        } else if c == '"' {
            push_str(out, "&quot;");
        } else if c == '\'' {
            push_str(out, "&apos;");
        } else {
            out.push(c);
        }
        proof {
            let t = v@.take(i + 1);
            assert(t.drop_last() =~= v@.take(i as int));
            assert(t.last() == c);
            assert(out@ =~= mid + xml_char(c));
            assert(out@ =~= before + xml_escaped(t));
        }
        i += 1;
    }
    assert(v@.take(i as int) =~= v@);
}

/// Escapes a text for use inside an XML element.
pub fn escape_xml(s: &str) -> (r: String)
    ensures
        r@ == xml_escaped(s@),
{
    let mut out: Vec<char> = Vec::new();
    push_xml(&mut out, s);
    assert(out@ =~= xml_escaped(s@));
    string_of(&out)
}

} // verus!
