//! The prompt of the interactive loop, and the first message of plan mode.

use vstd::prelude::*;
use crate::plan::{plan_terminal, Plan};
use crate::text::{chars_eq, chars_of, push_chars, push_str, slice_chars, string_of};

verus! {

/// A project that is loaded into the session.
#[derive(Clone, Debug, PartialEq, Eq)]
pub struct Project {
    /// Where the project lives.
    pub path: String,
    /// What was read of it.
    pub content: String,
    /// The files that were read.
    pub loaded_files: Vec<String>,
}

/// Index of the last `/` among the first `upto` characters of `path`, or -1.
pub open spec fn slash_before(path: Seq<char>, upto: int) -> int
    decreases upto,
{
    if upto <= 0 || upto > path.len() {
        -1
    } else if path[upto - 1] == '/' {
        upto - 1
    } else {
        slash_before(path, upto - 1)
    }
}

/// The last component of the first `upto` characters of a path: what stands after the last
/// `/`, where slashes at the end and components `.` after a slash do not count.
pub open spec fn last_component(path: Seq<char>, upto: int) -> Seq<char>
    decreases upto,
{
    if upto <= 0 || upto > path.len() {
        Seq::empty()
    } else if path[upto - 1] == '/' {
        last_component(path, upto - 1)
    } else {
        proof {
            lemma_slash_before(path, upto);
        }
        let slash = slash_before(path, upto);
        let component = path.subrange(slash + 1, upto);
        if slash >= 0 && component == seq!['.'] {
            last_component(path, slash)
        } else {
            component
        }
    }
}

/// The file name of a path: its last component, unless that is empty, `.` or `..`.
pub open spec fn file_name(path: Seq<char>) -> Option<Seq<char>> {
    let c = last_component(path, path.len() as int);
    if c.len() == 0 || c == seq!['.'] || c == seq!['.', '.'] {
        None
    } else {
        Some(c)
    }
}

/// The name that stands for a project in the prompt: the file name of its path, or
/// `project` where the path has none.
pub open spec fn project_name(path: Seq<char>) -> Seq<char> {
    match file_name(path) {
        Some(n) => n,
        None => "project"@,
    }
}

/// The prompt of the interactive loop.
///
/// In a multi-line entry it is `... > `; else, in plan mode, ` [plan mode] >> `; else the
/// name of the agent, `g3` where there is none, then ` | ` and the name of the project where
/// one is loaded, then `> `.
pub open spec fn prompt_text(
    in_multiline: bool,
    in_plan_mode: bool,
    agent_name: Option<Seq<char>>,
    project_path: Option<Seq<char>>,
) -> Seq<char> {
    if in_multiline {
        "... > "@
    } else if in_plan_mode {
        " [plan mode] >> "@
    } else {
        let base = match agent_name {
            Some(n) => n,
            None => "g3"@,
        };
        match project_path {
            Some(p) => base + " | "@ + project_name(p) + "> "@,
            None => base + "> "@,
        }
    }
}

/// The last slash before a place stands before it, or there is none.
pub proof fn lemma_slash_before(path: Seq<char>, upto: int)
    requires
        0 <= upto <= path.len(),
    ensures
        -1 <= slash_before(path, upto) < upto,
    decreases upto,
{
    if upto > 0 && path[upto - 1] != '/' {
        lemma_slash_before(path, upto - 1);
    }
}

/// The last component of a path.
fn find_last_component(v: &Vec<char>) -> (r: Vec<char>)
    ensures
        r@ == last_component(v@, v.len() as int),
{
    let mut upto: usize = v.len();
    loop
        invariant
            upto <= v.len(),
            last_component(v@, v.len() as int) == last_component(v@, upto as int),
        decreases upto,
    {
        if upto == 0 {
            return Vec::new();
        }
        if v[upto - 1] == '/' {
            upto -= 1;
        } else {
            let mut cut: usize = upto;
            while cut > 0 && v[cut - 1] != '/'
                invariant
                    cut <= upto <= v.len(),
                    slash_before(v@, upto as int) == slash_before(v@, cut as int),
                decreases cut,
            {
                cut -= 1;
            }
            proof {
                lemma_slash_before(v@, upto as int);
            }
            let component = slice_chars(v, cut, upto);
            let is_dot = component.len() == 1 && component[0] == '.';
            proof {
                if is_dot {
                    assert(component@ =~= seq!['.']);
                } else if component@ == seq!['.'] {
                    assert(seq!['.'].len() == 1);
                    assert(seq!['.'][0] == '.');
                }
            }
            if cut > 0 && is_dot {
                upto = cut - 1;
            } else {
                return component;
            }
        }
    }
}

/// The name that stands for a project in the prompt.
fn name_of_project(path: &str) -> (r: Vec<char>)
    ensures
        r@ == project_name(path@),
{
    let c = find_last_component(&chars_of(path));
    let dot = vec!['.'];
    let dots = vec!['.', '.'];
    assert(dot@ =~= seq!['.']);
    assert(dots@ =~= seq!['.', '.']);
    if c.len() == 0 || chars_eq(&c, &dot) || chars_eq(&c, &dots) {
        chars_of("project")
    } else {
        c
    }
}

/// The view of a name that may be missing.
pub open spec fn name_view(n: Option<&str>) -> Option<Seq<char>> {
    match n {
        Some(s) => Some(s@),
        None => None,
    }
}

/// The path of a project that may be missing.
pub open spec fn path_view(p: Option<Project>) -> Option<Seq<char>> {
    match p {
        Some(x) => Some(x.path@),
        None => None,
    }
}

/// Builds the prompt of the interactive loop.
pub fn build_prompt(
    in_multiline: bool,
    in_plan_mode: bool,
    agent_name: Option<&str>,
    active_project: &Option<Project>,
) -> (r: String)
    ensures
        r@ == prompt_text(
            in_multiline,
            in_plan_mode,
            name_view(agent_name),
            path_view(*active_project),
        ),
{
    if in_multiline {
        "... > ".to_string()
    } else if in_plan_mode {
        " [plan mode] >> ".to_string()
    } else {
        let mut out: Vec<char> = Vec::new();
        match agent_name {
            Some(n) => {
                push_str(&mut out, n);
            },
            None => {
                push_str(&mut out, "g3");
            },
        }
        match active_project {
            Some(project) => {
                push_str(&mut out, " | ");
                let name = name_of_project(project.path.as_str());
                push_chars(&mut out, &name);
                push_str(&mut out, "> ");
            },
            None => {
                push_str(&mut out, "> ");
            },
        }
        assert(out@ =~= prompt_text(
            in_multiline,
            in_plan_mode,
            name_view(agent_name),
            path_view(*active_project),
        ));
        string_of(&out)
    }
}

/// Prepares what the user typed for plan mode: the first message of plan mode gets
/// `Create a plan: ` in front, and tells the caller to take the mark of the first message
/// off; any other input stays as it is.
pub fn prepare_plan_mode_input(input: &str, is_first_plan_message: bool, in_plan_mode: bool) -> (r:
    (String, bool))
    ensures
        r.1 == (in_plan_mode && is_first_plan_message),
        r.0@ == if in_plan_mode && is_first_plan_message {
            "Create a plan: "@ + input@
        } else {
            input@
        },
{
    if in_plan_mode && is_first_plan_message {
        let mut out: Vec<char> = Vec::new();
        push_str(&mut out, "Create a plan: ");
        push_str(&mut out, input);
        assert(out@ =~= "Create a plan: "@ + input@);
        (string_of(&out), true)
    } else {
        (input.to_string(), false)
    }
}

/// Leaves plan mode where the plan has come to its end. Returns whether plan mode was left.
pub fn check_and_exit_plan_mode_if_terminal(in_plan_mode: &mut bool, plan: &Plan) -> (r: bool)
    ensures
        r == (*old(in_plan_mode) && plan_terminal(plan@.items)),
        *final(in_plan_mode) == (*old(in_plan_mode) && !plan_terminal(plan@.items)),
{
    if *in_plan_mode && plan.is_terminal() {
        *in_plan_mode = false;
        true
    } else {
        false
    }
}

} // verus!
