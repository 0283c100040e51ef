//! Agent skills: what a skill file states, whether it states it well, and how the skills
//! at hand are told to the agent.

use vstd::prelude::*;
use vstd::utf8::encode_utf8;
use crate::decode::field_of;
use crate::rulespec::text_view;
use crate::selector::lookup;
use crate::text::{
    chars_contain, chars_lt, chars_of, chars_start_with, contains_text, decimal, find_from,
    is_blank, lemma_leading_spaces_is, occurs_at, push_decimal, push_str, slice_chars, starts_with,
    str_eq, string_of, text_lt, trim, trim_chars, trim_start,
};
use crate::value::{entry_views, lemma_view_mapping, lemma_view_sequence, ValueView, YamlValue};
use crate::xml::{push_xml, xml_escaped};
use crate::yaml::{parse_yaml, yaml_parse};

verus! {

/// A skill that is built into the program.
#[derive(Clone, Copy, Debug)]
pub struct EmbeddedSkill {
    /// The name of the skill, as in its skill file.
    pub name: &'static str,
    /// The text of its skill file.
    pub skill_md: &'static str,
}

/// The skills that are built into the program. There is none at present.
pub fn get_embedded_skills() -> (r: Vec<EmbeddedSkill>)
    ensures
        r@.len() == 0,
{
    Vec::new()
}

/// The built-in skill of the given name.
pub fn get_embedded_skill(name: &str) -> (r: Option<EmbeddedSkill>)
    ensures
        r is None,
{
    let all = get_embedded_skills();
    let mut i: usize = 0;
    while i < all.len()
        invariant
            all@.len() == 0,
        decreases all.len() - i,
    {
        if str_eq(all[i].name, name) {
            return Some(all[i]);
        }
        i += 1;
    }
    None
}

/// A skill, as its skill file states it.
#[derive(Clone, Debug, PartialEq, Eq)]
pub struct Skill {
    /// The name: up to 64 lower-case letters, digits and hyphens.
    pub name: String,
    /// What the skill does and when to use it: up to 1024 bytes.
    pub description: String,
    /// The license.
    pub license: Option<String>,
    /// What the skill needs: up to 500 bytes.
    pub compatibility: Option<String>,
    /// Any other data, by key.
    pub metadata: Option<Vec<(String, String)>>,
    /// The tools that the skill may use.
    pub allowed_tools: Option<String>,
    /// The text after the front matter.
    pub body: String,
    /// Where the skill file is.
    pub path: String,
}

/// Mathematical form of a [`Skill`].
pub struct SkillView {
    pub name: Seq<char>,
    pub description: Seq<char>,
    pub license: Option<Seq<char>>,
    pub compatibility: Option<Seq<char>>,
    pub metadata: Option<Seq<(Seq<char>, Seq<char>)>>,
    pub allowed_tools: Option<Seq<char>>,
    pub body: Seq<char>,
    pub path: Seq<char>,
}

/// The views of the entries of a table of texts.
pub open spec fn pair_views(pairs: Seq<(String, String)>) -> Seq<(Seq<char>, Seq<char>)> {
    Seq::new(pairs.len(), |i: int| (pairs[i].0@, pairs[i].1@))
}

/// The view of a table of texts that may be missing.
pub open spec fn metadata_view(m: Option<Vec<(String, String)>>) -> Option<
    Seq<(Seq<char>, Seq<char>)>,
> {
    match m {
        Some(v) => Some(pair_views(v@)),
        None => None,
    }
}

impl View for Skill {
    type V = SkillView;

    open spec fn view(&self) -> SkillView {
        SkillView {
            name: self.name@,
            description: self.description@,
            license: text_view(self.license),
            compatibility: text_view(self.compatibility),
            metadata: metadata_view(self.metadata),
            allowed_tools: text_view(self.allowed_tools),
            body: self.body@,
            path: self.path@,
        }
    }
}

/// What is wrong with a skill file.
#[derive(Clone, Copy, Debug, PartialEq, Eq, Structural)]
pub enum SkillFault {
    /// The file does not begin with `---`.
    MissingFrontmatter,
    /// No line that begins with `---` closes the front matter.
    UnclosedFrontmatter,
    /// Nothing stands between the two `---`.
    EmptyFrontmatter,
    /// The front matter is no YAML mapping of the fields of a skill.
    InvalidYaml,
    /// There is no `name`.
    MissingName,
    /// There is no `description`.
    MissingDescription,
    /// The name is empty.
    EmptyName,
    /// The name is longer than 64 bytes: so many.
    NameTooLong(usize),
    /// The name holds this character, which is no lower-case letter, digit or hyphen.
    InvalidNameChar(char),
    /// The name begins or ends with a hyphen.
    HyphenAtEdge,
    /// The name holds two hyphens in a row.
    ConsecutiveHyphens,
    /// The description is empty.
    EmptyDescription,
    /// The description is longer than 1024 bytes: so many.
    DescriptionTooLong(usize),
    /// The compatibility note is longer than 500 bytes: so many.
    CompatibilityTooLong(usize),
}

/// A fault of a skill file, and the file.
#[derive(Clone, Debug, PartialEq, Eq)]
pub struct SkillError {
    pub fault: SkillFault,
    pub path: String,
}

/// The text of the message that goes with a fault of the skill file at `path`.
pub open spec fn skill_error_text(fault: SkillFault, path: Seq<char>) -> Seq<char> {
    match fault {
        SkillFault::MissingFrontmatter => "SKILL.md must start with YAML frontmatter (---)"@,
        SkillFault::UnclosedFrontmatter => "SKILL.md frontmatter not closed (missing ---)"@,
        SkillFault::EmptyFrontmatter => "SKILL.md frontmatter is empty"@,
        SkillFault::InvalidYaml => "Invalid YAML frontmatter in "@ + path,
        SkillFault::MissingName => "Missing required 'name' field in "@ + path,
        SkillFault::MissingDescription => "Missing required 'description' field in "@ + path,
        SkillFault::EmptyName => "Skill name cannot be empty in "@ + path,
        SkillFault::NameTooLong(n) => "Skill name exceeds 64 characters ("@ + decimal(n as nat)
            + " chars) in "@ + path,
        SkillFault::InvalidNameChar(c) => "Skill name contains invalid character '"@ + seq![c]
            + "' in "@ + path + " (must be lowercase alphanumeric or hyphen)"@,
        SkillFault::HyphenAtEdge => "Skill name cannot start or end with hyphen in "@ + path,
        SkillFault::ConsecutiveHyphens => "Skill name cannot contain consecutive hyphens in "@
            + path,
        SkillFault::EmptyDescription => "Description cannot be empty in "@ + path,
        SkillFault::DescriptionTooLong(n) => "Description exceeds 1024 characters ("@ + decimal(
            n as nat,
        ) + " chars) in "@ + path,
        SkillFault::CompatibilityTooLong(n) => "Compatibility exceeds 500 characters ("@
            + decimal(n as nat) + " chars) in "@ + path,
    }
}

impl SkillError {
    /// The message that goes with this error.
    pub fn to_string(&self) -> (s: String)
        ensures
            s@ == skill_error_text(self.fault, self.path@),
    {
        let mut out: Vec<char> = Vec::new();
        let path = self.path.as_str();
        match self.fault {
            SkillFault::MissingFrontmatter => {
                push_str(&mut out, "SKILL.md must start with YAML frontmatter (---)");
            },
            SkillFault::UnclosedFrontmatter => {
                push_str(&mut out, "SKILL.md frontmatter not closed (missing ---)");
            },
            SkillFault::EmptyFrontmatter => {
                push_str(&mut out, "SKILL.md frontmatter is empty");
            },
            SkillFault::InvalidYaml => {
                push_str(&mut out, "Invalid YAML frontmatter in ");
                push_str(&mut out, path);
            },
            SkillFault::MissingName => {
                push_str(&mut out, "Missing required 'name' field in ");
                push_str(&mut out, path);
            },
            SkillFault::MissingDescription => {
                push_str(&mut out, "Missing required 'description' field in ");
                push_str(&mut out, path);
            },
            SkillFault::EmptyName => {
                push_str(&mut out, "Skill name cannot be empty in ");
                push_str(&mut out, path);
            },
            SkillFault::NameTooLong(n) => {
                push_str(&mut out, "Skill name exceeds 64 characters (");
                push_decimal(&mut out, n as u64);
                push_str(&mut out, " chars) in ");
                push_str(&mut out, path);
            },
            SkillFault::InvalidNameChar(c) => {
                push_str(&mut out, "Skill name contains invalid character '");
                out.push(c);
                push_str(&mut out, "' in ");
                push_str(&mut out, path);
                push_str(&mut out, " (must be lowercase alphanumeric or hyphen)");
            },
            SkillFault::HyphenAtEdge => {
                push_str(&mut out, "Skill name cannot start or end with hyphen in ");
                push_str(&mut out, path);
            },
            SkillFault::ConsecutiveHyphens => {
                push_str(&mut out, "Skill name cannot contain consecutive hyphens in ");
                push_str(&mut out, path);
            },
            SkillFault::EmptyDescription => {
                push_str(&mut out, "Description cannot be empty in ");
                push_str(&mut out, path);
            },
            SkillFault::DescriptionTooLong(n) => {
                push_str(&mut out, "Description exceeds 1024 characters (");
                push_decimal(&mut out, n as u64);
                push_str(&mut out, " chars) in ");
                push_str(&mut out, path);
            },
            SkillFault::CompatibilityTooLong(n) => {
                push_str(&mut out, "Compatibility exceeds 500 characters (");
                push_decimal(&mut out, n as u64);
                push_str(&mut out, " chars) in ");
                push_str(&mut out, path);
            },
        }
        assert(out@ =~= skill_error_text(self.fault, self.path@));
        string_of(&out)
    }
}

/// Whether `c` may stand in the name of a skill: a lower-case letter, a digit or a hyphen.
pub open spec fn is_name_char(c: char) -> bool {
    (97 <= c as int <= 122) || (48 <= c as int <= 57) || c == '-'
}

/// Index of the first character of `s` from `i` on that may not stand in a name, or the
/// length of `s`.
pub open spec fn first_bad_char(s: Seq<char>, i: int) -> int
    decreases s.len() - i,
{
    if i < 0 || i >= s.len() {
        s.len() as int
    } else if !is_name_char(s[i]) {
        i
    } else {
        first_bad_char(s, i + 1)
    }
}

/// What is wrong with a name, if anything: it is empty, longer than 64 bytes, holds a
/// character that may not stand in it, has a hyphen at an end, or two in a row, in this
/// order.
pub open spec fn name_fault(name: Seq<char>) -> Option<SkillFault> {
    let bytes = encode_utf8(name).len();
    let bad = first_bad_char(name, 0);
    if name.len() == 0 {
        Some(SkillFault::EmptyName)
    } else if bytes > 64 {
        Some(SkillFault::NameTooLong(bytes as usize))
    } else if bad < name.len() {
        Some(SkillFault::InvalidNameChar(name[bad]))
    } else if name[0] == '-' || name.last() == '-' {
        Some(SkillFault::HyphenAtEdge)
    } else if contains_text(name, seq!['-', '-']) {
        Some(SkillFault::ConsecutiveHyphens)
    } else {
        None
    }
}

/// Checks the name of a skill.
pub fn validate_name(name: &str) -> (r: Option<SkillFault>)
    ensures
        r == name_fault(name@),
{
    let v = chars_of(name);
    if v.len() == 0 {
        return Some(SkillFault::EmptyName);
    }
    let bytes = name.as_bytes().len();
    if bytes > 64 {
        return Some(SkillFault::NameTooLong(bytes));
    }
    let mut i: usize = 0;
    while i < v.len()
        invariant
            i <= v.len(),
            v@ == name@,
            v@.len() > 0,
            bytes == encode_utf8(name@).len(),
            bytes <= 64,
            first_bad_char(v@, 0) == first_bad_char(v@, i as int),
        decreases v.len() - i,
    {
        let c = v[i];
        if !(('a' <= c && c <= 'z') || ('0' <= c && c <= '9') || c == '-') {
            assert(!is_name_char(v@[i as int]));
            assert(first_bad_char(v@, i as int) == i);
            return Some(SkillFault::InvalidNameChar(c));
        }
        assert(is_name_char(v@[i as int]));
        i += 1;
    }
    if v[0] == '-' || v[v.len() - 1] == '-' {
        return Some(SkillFault::HyphenAtEdge);
    }
    let double = vec!['-', '-'];
    assert(double@ =~= seq!['-', '-']);
    if chars_contain(&v, &double) {
        return Some(SkillFault::ConsecutiveHyphens);
    }
    None
}

/// The front matter and the body of a skill file.
pub struct Frontmatter {
    pub frontmatter: String,
    pub body: String,
}

/// Whether `i` is the first place where `marker` occurs in `s`.
pub open spec fn first_marker(s: Seq<char>, marker: Seq<char>, i: int) -> bool {
    occurs_at(s, marker, i) && forall|k: int| 0 <= k < i ==> !occurs_at(s, marker, k)
}

/// The front matter and the body of a skill file.
///
/// White space at the start left aside, the file begins with `---`; the front matter runs
/// from there to the first line that begins with `---`, and the body from behind those
/// three characters. The front matter is trimmed and may not be empty; the body loses the
/// white space at its start.
pub open spec fn split_spec(content: Seq<char>) -> Result<(Seq<char>, Seq<char>), SkillFault> {
    let c = trim_start(content);
    let after = c.skip(3);
    let closing = seq!['\n', '-', '-', '-'];
    if !starts_with(c, seq!['-', '-', '-']) {
        Err(SkillFault::MissingFrontmatter)
    } else if !exists|i: int| occurs_at(after, closing, i) {
        Err(SkillFault::UnclosedFrontmatter)
    } else {
        let at = choose|i: int| first_marker(after, closing, i);
        if is_blank(after.take(at)) {
            Err(SkillFault::EmptyFrontmatter)
        } else {
            Ok((trim(after.take(at)), trim_start(after.skip(at + 4))))
        }
    }
}

/// `v` without the white space at its start.
fn trim_start_chars(v: &Vec<char>) -> (r: Vec<char>)
    ensures
        r@ == trim_start(v@),
{
    let mut start: usize = 0;
    while start < v.len() && crate::text::char_is_space(v[start])
        invariant
            start <= v.len(),
            forall|i: int| 0 <= i < start ==> crate::text::is_space(#[trigger] v@[i]),
        decreases v.len() - start,
    {
        start += 1;
    }
    proof {
        lemma_leading_spaces_is(v@, start as int);
    }
    let r = slice_chars(v, start, v.len());
    assert(r@ =~= v@.skip(start as int));
    r
}

/// Splits a skill file into its front matter and its body.
pub fn split_frontmatter(content: &str) -> (r: Result<Frontmatter, SkillFault>)
    ensures
        match r {
            Ok(f) => split_spec(content@) == Ok::<_, SkillFault>((f.frontmatter@, f.body@)),
            Err(e) => split_spec(content@) == Err::<(Seq<char>, Seq<char>), _>(e),
        },
{
    let c = trim_start_chars(&chars_of(content));
    let opening = vec!['-', '-', '-'];
    assert(opening@ =~= seq!['-', '-', '-']);
    if !chars_start_with(&c, &opening) {
        return Err(SkillFault::MissingFrontmatter);
    }
    let after = slice_chars(&c, 3, c.len());
    assert(after@ =~= c@.skip(3));
    let closing = vec!['\n', '-', '-', '-'];
    assert(closing@ =~= seq!['\n', '-', '-', '-']);
    let at = match find_from(&after, &closing, 0) {
        Some(i) => i,
        None => {
            assert forall|i: int| !occurs_at(after@, closing@, i) by {}
            return Err(SkillFault::UnclosedFrontmatter);
        },
    };
    proof {
        assert(first_marker(after@, closing@, at as int));
        let chosen = choose|i: int| first_marker(after@, closing@, i);
        if chosen < at {
            assert(!occurs_at(after@, closing@, chosen));
        } else if chosen > at {
            assert(!occurs_at(after@, closing@, at as int));
        }
    }
    let front = slice_chars(&after, 0, at);
    assert(front@ =~= after@.take(at as int));
    if crate::text::chars_blank(&front) {
        return Err(SkillFault::EmptyFrontmatter);
    }
    let rest = slice_chars(&after, at + 4, after.len());
    assert(rest@ =~= after@.skip(at + 4));
    Ok(
        Frontmatter {
            frontmatter: string_of(&trim_chars(&front)),
            body: string_of(&trim_start_chars(&rest)),
        },
    )
}

/// A text under a key of the front matter that may be missing; null counts as missing.
/// `None` on the outside where what stands there is no text.
pub open spec fn optional_field(entries: Seq<(ValueView, ValueView)>, key: Seq<char>) -> Option<
    Option<Seq<char>>,
> {
    match field_of(entries, key) {
        None => Some(None),
        Some(ValueView::Null) => Some(None),
        Some(ValueView::String(s)) => Some(Some(s)),
        Some(_) => None,
    }
}

/// The first `n` entries of a mapping as a table of texts; `None` where a key or a value is
/// no text.
pub open spec fn text_table(entries: Seq<(ValueView, ValueView)>, n: int) -> Option<
    Seq<(Seq<char>, Seq<char>)>,
>
    decreases n,
{
    if n <= 0 || n > entries.len() {
        Some(Seq::empty())
    } else {
        match text_table(entries, n - 1) {
            None => None,
            Some(before) => match entries[n - 1] {
                (ValueView::String(k), ValueView::String(v)) => Some(before.push((k, v))),
                _ => None,
            },
        }
    }
}

/// The table under `metadata`, where there is one; null counts as none. `None` on the
/// outside where what stands there is no table of texts.
pub open spec fn metadata_field(entries: Seq<(ValueView, ValueView)>) -> Option<
    Option<Seq<(Seq<char>, Seq<char>)>>,
> {
    match field_of(entries, "metadata"@) {
        None => Some(None),
        Some(ValueView::Null) => Some(None),
        Some(ValueView::Mapping(m)) => match text_table(m, m.len() as int) {
            Some(t) => Some(Some(t)),
            None => None,
        },
        Some(_) => None,
    }
}

/// What the front matter `doc` and the body state as the skill at `path`, or what is wrong.
///
/// The front matter is a mapping whose fields, where they are there, are texts, and a
/// table of texts under `metadata`. Name and description must be there. The name is
/// checked, then the description, which may not be empty nor longer than 1024 bytes, then
/// the compatibility note, which may not be longer than 500 bytes.
pub open spec fn skill_of(doc: ValueView, body: Seq<char>, path: Seq<char>) -> Result<
    SkillView,
    SkillFault,
> {
    match doc {
        ValueView::Mapping(e) => {
            let name = optional_field(e, "name"@);
            let description = optional_field(e, "description"@);
            let license = optional_field(e, "license"@);
            let compatibility = optional_field(e, "compatibility"@);
            let metadata = metadata_field(e);
            let allowed = optional_field(e, "allowed-tools"@);
            if name is None || description is None || license is None || compatibility is None
                || metadata is None || allowed is None {
                Err(SkillFault::InvalidYaml)
            } else if name->0 is None {
                Err(SkillFault::MissingName)
            } else if description->0 is None {
                Err(SkillFault::MissingDescription)
            } else if name_fault(name->0->0) is Some {
                Err(name_fault(name->0->0)->0)
            } else if description->0->0.len() == 0 {
                Err(SkillFault::EmptyDescription)
            } else if encode_utf8(description->0->0).len() > 1024 {
                Err(SkillFault::DescriptionTooLong(encode_utf8(description->0->0).len() as usize))
            } else if compatibility->0 is Some && encode_utf8(compatibility->0->0).len() > 500 {
                Err(
                    SkillFault::CompatibilityTooLong(
                        encode_utf8(compatibility->0->0).len() as usize,
                    ),
                )
            } else {
                Ok(
                    SkillView {
                        name: name->0->0,
                        description: description->0->0,
                        license: license->0,
                        compatibility: compatibility->0,
                        metadata: metadata->0,
                        allowed_tools: allowed->0,
                        body,
                        path,
                    },
                )
            }
        },
        _ => Err(SkillFault::InvalidYaml),
    }
}

/// The value under the string key `name`.
fn front_field<'a>(entries: &'a Vec<(YamlValue, YamlValue)>, name: &str) -> (r: Option<
    &'a YamlValue,
>)
    ensures
        match r {
            Some(v) => field_of(entry_views(entries@), name@) == Some(v@),
            None => field_of(entry_views(entries@), name@) is None,
        },
{
    let ghost all = entry_views(entries@);
    let ghost key = ValueView::String(name@);
    let mut i: usize = 0;
    assert(all.skip(0) =~= all);
    while i < entries.len()
        invariant
            i <= entries.len(),
            all == entry_views(entries@),
            key == ValueView::String(name@),
            lookup(all, key) == lookup(all.skip(i as int), key),
        decreases entries.len() - i,
    {
        let hit = match &entries[i].0 {
            YamlValue::String(k) => str_eq(k.as_str(), name),
            _ => false,
        };
        assert(all.skip(i as int)[0] == all[i as int]);
        assert(all.skip(i as int).drop_first() =~= all.skip(i + 1));
        if hit {
            return Some(&entries[i].1);
        }
        i += 1;
    }
    None
}

/// Reads a text that may be missing from the front matter.
fn read_field(entries: &Vec<(YamlValue, YamlValue)>, key: &str) -> (r: Option<Option<String>>)
    ensures
        match r {
            Some(t) => optional_field(entry_views(entries@), key@) == Some(text_view(t)),
            None => optional_field(entry_views(entries@), key@) is None,
        },
{
    match front_field(entries, key) {
        None => Some(None),
        Some(YamlValue::Null) => Some(None),
        Some(YamlValue::String(s)) => Some(Some(s.clone())),
        Some(YamlValue::Sequence(x)) => {
            proof {
                lemma_view_sequence(*x);
            }
            None
        },
        Some(YamlValue::Mapping(x)) => {
            proof {
                lemma_view_mapping(*x);
            }
            None
        },
        Some(_) => None,
    }
}

proof fn lemma_text_table_none(entries: Seq<(ValueView, ValueView)>, n: int, m: int)
    requires
        0 <= n <= m <= entries.len(),
        text_table(entries, n) is None,
    ensures
        text_table(entries, m) is None,
    decreases m - n,
{
    if n < m {
        lemma_text_table_none(entries, n, m - 1);
    }
}

/// Reads the table under `metadata`.
#[verifier::loop_isolation(false)]
fn read_metadata(entries: &Vec<(YamlValue, YamlValue)>) -> (r: Option<
    Option<Vec<(String, String)>>,
>)
    ensures
        match r {
            Some(t) => metadata_field(entry_views(entries@)) == Some(metadata_view(t)),
            None => metadata_field(entry_views(entries@)) is None,
        },
{
    match front_field(entries, "metadata") {
        None => Some(None),
        Some(YamlValue::Null) => Some(None),
        Some(YamlValue::Mapping(m)) => {
            proof {
                lemma_view_mapping(*m);
            }
            let ghost views = entry_views(m@);
            let mut table: Vec<(String, String)> = Vec::new();
            let mut i: usize = 0;
            assert(pair_views(table@) =~= Seq::<(Seq<char>, Seq<char>)>::empty());
            while i < m.len()
                invariant
                    i <= m.len(),
                    text_table(views, i as int) == Some(pair_views(table@)),
                decreases m.len() - i,
            {
                match &m[i] {
                    (YamlValue::String(k), YamlValue::String(v)) => {
                        let ghost before = pair_views(table@);
                        table.push((k.clone(), v.clone()));
                        assert(pair_views(table@) =~= before.push((k@, v@)));
                    },
                    (a, b) => {
                        proof {
                            match a {
                                YamlValue::Sequence(x) => {
                                    lemma_view_sequence(*x);
                                },
                                YamlValue::Mapping(x) => {
                                    lemma_view_mapping(*x);
                                },
                                _ => {},
                            }
                            match b {
                                YamlValue::Sequence(x) => {
                                    lemma_view_sequence(*x);
                                },
                                YamlValue::Mapping(x) => {
                                    lemma_view_mapping(*x);
                                },
                                _ => {},
                            }
                            assert(text_table(views, i + 1) is None);
                            lemma_text_table_none(views, i + 1, views.len() as int);
                        }
                        return None;
                    },
                }
                i += 1;
            }
            Some(Some(table))
        },
        Some(YamlValue::Sequence(x)) => {
            proof {
                lemma_view_sequence(*x);
            }
            None
        },
        Some(_) => None,
    }
}

/// Reads a skill from its front matter, as a document, and its body.
pub fn decode_skill(doc: &YamlValue, body: &str, path: &str) -> (r: Result<Skill, SkillFault>)
    ensures
        match r {
            Ok(s) => skill_of(doc@, body@, path@) == Ok::<_, SkillFault>(s@),
            Err(e) => skill_of(doc@, body@, path@) == Err::<SkillView, _>(e),
        },
{
    let entries = match doc {
        YamlValue::Mapping(entries) => {
            proof {
                lemma_view_mapping(*entries);
            }
            entries
        },
        YamlValue::Sequence(x) => {
            proof {
                lemma_view_sequence(*x);
            }
            return Err(SkillFault::InvalidYaml);
        },
        _ => {
            return Err(SkillFault::InvalidYaml);
        },
    };
    let name = read_field(entries, "name");
    let description = read_field(entries, "description");
    let license = read_field(entries, "license");
    let compatibility = read_field(entries, "compatibility");
    let metadata = read_metadata(entries);
    let allowed = read_field(entries, "allowed-tools");
    let (name, description, license, compatibility, metadata, allowed) = match (
        name,
        description,
        license,
        compatibility,
        metadata,
        allowed,
    ) {
        (Some(a), Some(b), Some(c), Some(d), Some(e), Some(f)) => (a, b, c, d, e, f),
        _ => {
            return Err(SkillFault::InvalidYaml);
        },
    };
    let name = match name {
        Some(n) => n,
        None => {
            return Err(SkillFault::MissingName);
        },
    };
    let description = match description {
        Some(d) => d,
        None => {
            return Err(SkillFault::MissingDescription);
        },
    };
    match validate_name(name.as_str()) {
        Some(fault) => {
            return Err(fault);
        },
        None => {},
    }
    if description.as_str().unicode_len() == 0 {
        return Err(SkillFault::EmptyDescription);
    }
    let description_bytes = description.as_str().as_bytes().len();
    if description_bytes > 1024 {
        return Err(SkillFault::DescriptionTooLong(description_bytes));
    }
    match &compatibility {
        Some(c) => {
            let compatibility_bytes = c.as_str().as_bytes().len();
            if compatibility_bytes > 500 {
                return Err(SkillFault::CompatibilityTooLong(compatibility_bytes));
            }
        },
        None => {},
    }
    Ok(
        Skill {
            name,
            description,
            license,
            compatibility,
            metadata,
            allowed_tools: allowed,
            body: body.to_string(),
            path: path.to_string(),
        },
    )
}

/// What parsing a skill file at `path` gives.
pub open spec fn parse_spec(content: Seq<char>, path: Seq<char>) -> Result<SkillView, SkillFault> {
    match split_spec(content) {
        Err(e) => Err(e),
        Ok((front, body)) => match yaml_parse(front) {
            None => Err(SkillFault::InvalidYaml),
            Some(doc) => skill_of(doc, body, path),
        },
    }
}

impl Skill {
    /// Parses a skill file from its text.
    ///
    /// Returns the skill that [`parse_spec`] gives, or an error with its fault and the path.
    pub fn parse(content: &str, path: &str) -> (r: Result<Skill, SkillError>)
        ensures
            match r {
                Ok(s) => parse_spec(content@, path@) == Ok::<_, SkillFault>(s@),
                Err(e) => parse_spec(content@, path@) == Err::<SkillView, _>(e.fault) && e.path@
                    == path@,
            },
    {
        let parts = match split_frontmatter(content) {
            Ok(p) => p,
            Err(fault) => {
                return Err(SkillError { fault, path: path.to_string() });
            },
        };
        let doc = match parse_yaml(parts.frontmatter.as_str()) {
            Some(d) => d,
            None => {
                return Err(SkillError { fault: SkillFault::InvalidYaml, path: path.to_string() });
            },
        };
        match decode_skill(&doc, parts.body.as_str(), path) {
            Ok(s) => Ok(s),
            Err(fault) => Err(SkillError { fault, path: path.to_string() }),
        }
    }
}

/// The element that tells the agent of one skill: its name, what it does, where it is and,
/// where it says so, what it needs. The place is written as it is.
pub open spec fn skill_element(s: SkillView) -> Seq<char> {
    "  <skill>\n"@ + "    <name>"@ + xml_escaped(s.name) + "</name>\n"@ + "    <description>"@
        + xml_escaped(s.description) + "</description>\n"@ + "    <location>"@ + s.path
        + "</location>\n"@ + (match s.compatibility {
        Some(c) => "    <compatibility>"@ + xml_escaped(c) + "</compatibility>\n"@,
        None => Seq::empty(),
    }) + "  </skill>\n"@
}

/// The elements of the first `n` skills.
pub open spec fn skill_elements(skills: Seq<Skill>, n: int) -> Seq<char>
    decreases n,
{
    if n <= 0 || n > skills.len() {
        Seq::empty()
    } else {
        skill_elements(skills, n - 1) + skill_element(skills[n - 1]@)
    }
}

/// The part of the system prompt that tells of the skills at hand; nothing where there are
/// none.
pub open spec fn skills_prompt(skills: Seq<Skill>) -> Seq<char> {
    if skills.len() == 0 {
        Seq::empty()
    } else {
        "# Available Skills\n\nYou have access to the following skills. When a task matches a skill's description, read the full skill file using `read_file` to get detailed instructions.\n\n<available_skills>\n"@
            + skill_elements(skills, skills.len() as int) + "</available_skills>\n"@
    }
}

/// Appends the element of one skill to `out`.
fn push_skill(out: &mut Vec<char>, skill: &Skill)
    ensures
        final(out)@ == old(out)@ + skill_element(skill@),
{
    let mut e: Vec<char> = Vec::new();
    push_str(&mut e, "  <skill>\n");
    push_str(&mut e, "    <name>");
    push_xml(&mut e, skill.name.as_str());
    push_str(&mut e, "</name>\n");
    push_str(&mut e, "    <description>");
    push_xml(&mut e, skill.description.as_str());
    push_str(&mut e, "</description>\n");
    push_str(&mut e, "    <location>");
    push_str(&mut e, skill.path.as_str());
    push_str(&mut e, "</location>\n");
    match &skill.compatibility {
        Some(c) => {
            push_str(&mut e, "    <compatibility>");
            push_xml(&mut e, c.as_str());
            push_str(&mut e, "</compatibility>\n");
        },
        None => {},
    }
    push_str(&mut e, "  </skill>\n");
    assert(e@ =~= skill_element(skill@));
    crate::text::push_chars(out, &e);
}

/// Writes the part of the system prompt that tells of the skills at hand.
pub fn generate_skills_prompt(skills: &[Skill]) -> (r: String)
    ensures
        r@ == skills_prompt(skills@),
{
    if skills.len() == 0 {
        return String::new();
    }
    let mut out: Vec<char> = Vec::new();
    push_str(
        &mut out,
        "# Available Skills\n\nYou have access to the following skills. When a task matches a skill's description, read the full skill file using `read_file` to get detailed instructions.\n\n<available_skills>\n",
    );
    let ghost head = out@;
    let mut i: usize = 0;
    assert(out@ =~= head + skill_elements(skills@, 0));
    while i < skills.len()
        invariant
            i <= skills.len(),
            out@ == head + skill_elements(skills@, i as int),
        decreases skills.len() - i,
    {
        push_skill(&mut out, &skills[i]);
        assert(out@ =~= head + skill_elements(skills@, i + 1));
        i += 1;
    }
    push_str(&mut out, "</available_skills>\n");
    assert(out@ =~= skills_prompt(skills@));
    string_of(&out)
}

/// The skills `sorted` with `s` put in at its place in the order of names, or in the place
/// of the skill of its name.
pub open spec fn with_skill(sorted: Seq<SkillView>, s: SkillView) -> Seq<SkillView>
    decreases sorted.len(),
{
    if sorted.len() == 0 {
        seq![s]
    } else if sorted.last().name == s.name {
        sorted.drop_last().push(s)
    } else if text_lt(sorted.last().name, s.name) {
        sorted.push(s)
    } else {
        with_skill(sorted.drop_last(), s).push(sorted.last())
    }
}

/// The first `n` skills found, by name: each name once, with the skill found last, in the
/// order of names.
pub open spec fn discovered(found: Seq<SkillView>, n: int) -> Seq<SkillView>
    decreases n,
{
    if n <= 0 || n > found.len() {
        Seq::empty()
    } else {
        with_skill(discovered(found, n - 1), found[n - 1])
    }
}

/// The views of a run of skills, in order.
pub open spec fn skill_views(skills: Seq<Skill>) -> Seq<SkillView> {
    Seq::new(skills.len(), |i: int| skills[i]@)
}

/// Puts a skill into a list that is kept in the order of names.
fn put_skill(sorted: Vec<Skill>, s: Skill) -> (r: Vec<Skill>)
    ensures
        skill_views(r@) == with_skill(skill_views(sorted@), s@),
{
    let ghost all = skill_views(sorted@);
    let ghost sv = s@;
    let name = chars_of(s.name.as_str());
    let mut at: usize = sorted.len();
    let mut replace = false;
    let mut found = false;
    assert(all.take(at as int) =~= all);
    while at > 0 && !found
        invariant
            at <= sorted.len(),
            all == skill_views(sorted@),
            name@ == sv.name,
            replace ==> found,
            !found ==> with_skill(all, sv) == with_skill(all.take(at as int), sv) + all.skip(
                at as int,
            ),
            found && !replace ==> with_skill(all, sv) == all.take(at as int).push(sv) + all.skip(
                at as int,
            ),
            replace ==> at > 0 && with_skill(all, sv) == all.take(at - 1).push(sv) + all.skip(
                at as int,
            ),
        decreases at + if found { 0int } else { 1int },
    {
        let last = chars_of(sorted[at - 1].name.as_str());
        let ghost t = all.take(at as int);
        proof {
            assert(t.last() == all[at - 1]);
            assert(all[at - 1] == sorted@[at - 1]@);
            assert(t.last().name == last@);
            assert(t.drop_last() =~= all.take(at - 1));
        }
        if crate::text::chars_eq(&last, &name) {
            proof {
                assert(with_skill(t, sv) == t.drop_last().push(sv));
            }
            replace = true;
            found = true;
        } else if chars_lt(&last, &name) {
            proof {
                assert(with_skill(t, sv) == t.push(sv));
            }
            found = true;
        } else {
            proof {
                assert(with_skill(t, sv) == with_skill(t.drop_last(), sv).push(t.last()));
                assert(with_skill(all.take(at - 1), sv).push(all[at - 1]) + all.skip(at as int)
                    =~= with_skill(all.take(at - 1), sv) + all.skip(at - 1));
            }
            at -= 1;
        }
    }
    let keep: usize = if replace {
        at - 1
    } else {
        at
    };
    let ghost target = if replace {
        all.take(at - 1).push(sv) + all.skip(at as int)
    } else {
        all.take(at as int).push(sv) + all.skip(at as int)
    };
    proof {
        if !found {
            let t = all.take(at as int);
            assert(t =~= Seq::<SkillView>::empty());
            assert(with_skill(t, sv) =~= t.push(sv));
        }
        assert(with_skill(all, sv) == target);
    }
    let mut sorted = sorted;
    let mut tail: Vec<Skill> = sorted.split_off(at);
    if replace {
        sorted.pop();
    }
    assert(skill_views(sorted@) =~= all.take(keep as int));
    assert(skill_views(tail@) =~= all.skip(at as int));
    sorted.push(s);
    sorted.append(&mut tail);
    assert(skill_views(sorted@) =~= target);
    sorted
}

/// Brings the skills that were found together: those built in first, then the others in
/// the order in which they were found. A skill found later takes the place of one of the
/// same name; the result is in the order of names.
pub fn discover_skills(found: Vec<Skill>) -> (r: Vec<Skill>)
    ensures
        skill_views(r@) == discovered(skill_views(found@), found@.len() as int),
{
    let ghost all = skill_views(found@);
    let mut out: Vec<Skill> = Vec::new();
    let mut i: usize = 0;
    assert(skill_views(out@) =~= discovered(all, 0));
    while i < found.len()
        invariant
            i <= found.len(),
            all == skill_views(found@),
            skill_views(out@) == discovered(all, i as int),
        decreases found.len() - i,
    {
        let s = clone_skill(&found[i]);
        out = put_skill(out, s);
        i += 1;
    }
    out
}

/// A copy of a skill.
fn clone_skill(s: &Skill) -> (r: Skill)
    ensures
        r@ == s@,
{
    let metadata = match &s.metadata {
        Some(m) => {
            let mut t: Vec<(String, String)> = Vec::new();
            let mut i: usize = 0;
            while i < m.len()
                invariant
                    i <= m.len(),
                    t@.len() == i,
                    forall|k: int| 0 <= k < i ==> (#[trigger] t@[k]).0@ == m@[k].0@ && t@[k].1@ == m@[k].1@,
                decreases m.len() - i,
            {
                t.push((m[i].0.clone(), m[i].1.clone()));
                i += 1;
            }
            assert(pair_views(t@) =~= pair_views(m@));
            Some(t)
        },
        None => None,
    };
    Skill {
        name: s.name.clone(),
        description: s.description.clone(),
        license: crate::rulespec::clone_text(&s.license),
        compatibility: crate::rulespec::clone_text(&s.compatibility),
        metadata,
        allowed_tools: crate::rulespec::clone_text(&s.allowed_tools),
        body: s.body.clone(),
        path: s.path.clone(),
    }
}

} // verus!
