//! The registry of toolsets that an agent can load while it runs.

use vstd::prelude::*;
use crate::text::{chars_of, push_str, str_eq, string_of, trim, trim_chars};
use crate::xml::{push_xml, xml_escaped};

verus! {

/// Which optional sets of tools are switched on.
#[derive(Clone, Copy, Debug, Default)]
pub struct ToolConfig {
    pub computer_control: bool,
}

impl ToolConfig {
    /// A configuration with computer control switched on or off.
    pub fn new(computer_control: bool) -> (r: ToolConfig)
        ensures
            r.computer_control == computer_control,
    {
        ToolConfig { computer_control }
    }
}

/// A set of tools that can be loaded by name.
#[derive(Clone, Copy, Debug)]
pub struct Toolset {
    /// The name by which the toolset is loaded.
    pub name: &'static str,
    /// What the toolset offers.
    pub description: &'static str,
}

/// How many toolsets there are.
pub const TOOLSET_COUNT: usize = 2;

/// The name of the toolset at `index`.
pub open spec fn toolset_name(index: int) -> Seq<char> {
    if index == 0 {
        "webdriver"@
    } else {
        "research"@
    }
}

/// The description of the toolset at `index`.
pub open spec fn toolset_description(index: int) -> Seq<char> {
    if index == 0 {
        "Browser automation via Safari WebDriver. Start sessions, navigate, find elements, click, type, execute JavaScript, take screenshots."@
    } else {
        "Initiate web-based research on a topic. This tool is ASYNCHRONOUS - it spawns a research agent in the background and returns immediately with a research_id. Results are automatically injected into the conversation when ready."@
    }
}

/// All toolsets, in the order of the registry.
pub fn get_all_toolsets() -> (r: Vec<Toolset>)
    ensures
        r@.len() == TOOLSET_COUNT,
        forall|i: int|
            0 <= i < TOOLSET_COUNT ==> (#[trigger] r@[i]).name@ == toolset_name(i)
                && r@[i].description@ == toolset_description(i),
{
    let mut v: Vec<Toolset> = Vec::new();
    v.push(
        Toolset {
            name: "webdriver",
            description: "Browser automation via Safari WebDriver. Start sessions, navigate, find elements, click, type, execute JavaScript, take screenshots.",
        },
    );
    v.push(
        Toolset {
            name: "research",
            description: "Initiate web-based research on a topic. This tool is ASYNCHRONOUS - it spawns a research agent in the background and returns immediately with a research_id. Results are automatically injected into the conversation when ready.",
        },
    );
    v
}

/// The names of all toolsets, in the order of the registry.
pub fn list_toolset_names() -> (r: Vec<&'static str>)
    ensures
        r@.len() == TOOLSET_COUNT,
        forall|i: int| 0 <= i < TOOLSET_COUNT ==> (#[trigger] r@[i])@ == toolset_name(i),
{
    let all = get_all_toolsets();
    let mut names: Vec<&'static str> = Vec::new();
    let mut i: usize = 0;
    while i < all.len()
        invariant
            i <= all.len(),
            all@.len() == TOOLSET_COUNT,
            forall|k: int| 0 <= k < TOOLSET_COUNT ==> (#[trigger] all@[k]).name@ == toolset_name(k),
            names@.len() == i,
            forall|k: int| 0 <= k < i ==> (#[trigger] names@[k])@ == toolset_name(k),
        decreases all.len() - i,
    {
        names.push(all[i].name);
        i += 1;
    }
    names
}

/// The names of all toolsets, joined by `", "`.
pub open spec fn toolset_list() -> Seq<char> {
    toolset_name(0) + ", "@ + toolset_name(1)
}

/// What asking for the toolset named `name` gives: the index of the toolset of that name,
/// white space at the ends of the name left aside, or the message that says why not.
pub open spec fn toolset_lookup(name: Seq<char>) -> Result<int, Seq<char>> {
    let t = trim(name);
    if t.len() == 0 {
        Err("Toolset name cannot be empty. Available toolsets: "@ + toolset_list())
    } else if t == toolset_name(0) {
        Ok(0)
    } else if t == toolset_name(1) {
        Ok(1)
    } else {
        Err("Unknown toolset '"@ + t + "'. Available toolsets: "@ + toolset_list())
    }
}

/// Gets a toolset by name. Where there is none of that name, the error lists those that
/// there are.
pub fn get_toolset(name: &str) -> (r: Result<Toolset, String>)
    ensures
        match r {
            Ok(t) => toolset_lookup(name@) is Ok && t.name@ == toolset_name(
                toolset_lookup(name@)->Ok_0,
            ) && t.description@ == toolset_description(toolset_lookup(name@)->Ok_0),
            Err(e) => toolset_lookup(name@) == Err::<int, _>(e@),
        },
{
    let t = string_of(&trim_chars(&chars_of(name)));
    let all = get_all_toolsets();
    if t.as_str().unicode_len() == 0 {
        let mut out: Vec<char> = Vec::new();
        push_str(&mut out, "Toolset name cannot be empty. Available toolsets: ");
        push_str(&mut out, all[0].name);
        push_str(&mut out, ", ");
        push_str(&mut out, all[1].name);
        assert(out@ =~= "Toolset name cannot be empty. Available toolsets: "@ + toolset_list());
        return Err(string_of(&out));
    }
    if str_eq(t.as_str(), all[0].name) {
        return Ok(all[0]);
    }
    if str_eq(t.as_str(), all[1].name) {
        return Ok(all[1]);
    }
    let mut out: Vec<char> = Vec::new();
    push_str(&mut out, "Unknown toolset '");
    push_str(&mut out, t.as_str());
    push_str(&mut out, "'. Available toolsets: ");
    push_str(&mut out, all[0].name);
    push_str(&mut out, ", ");
    push_str(&mut out, all[1].name);
    assert(out@ =~= "Unknown toolset '"@ + t@ + "'. Available toolsets: "@ + toolset_list());
    Err(string_of(&out))
}

/// The element that describes the toolset at `index`.
pub open spec fn toolset_element(index: int) -> Seq<char> {
    "  <toolset>\n    <name>"@ + xml_escaped(toolset_name(index)) + "</name>\n    <description>"@
        + xml_escaped(toolset_description(index)) + "</description>\n  </toolset>\n"@
}

/// The part of the system prompt that tells which toolsets can be loaded.
pub open spec fn toolsets_prompt() -> Seq<char> {
    "# Available Toolsets\n\nYou can dynamically load additional tools using `load_toolset`. The tool will return the full definitions so you learn how to use them.\n\n<available_toolsets>\n"@
        + toolset_element(0) + toolset_element(1) + "</available_toolsets>\n"@
}

/// Writes the part of the system prompt that tells which toolsets can be loaded.
pub fn generate_toolsets_prompt() -> (r: String)
    ensures
        r@ == toolsets_prompt(),
{
    let all = get_all_toolsets();
    let mut out: Vec<char> = Vec::new();
    push_str(
        &mut out,
        "# Available Toolsets\n\nYou can dynamically load additional tools using `load_toolset`. The tool will return the full definitions so you learn how to use them.\n\n<available_toolsets>\n",
    );
    let ghost head = out@;
    push_str(&mut out, "  <toolset>\n    <name>");
    push_xml(&mut out, all[0].name);
    push_str(&mut out, "</name>\n    <description>");
    push_xml(&mut out, all[0].description);
    push_str(&mut out, "</description>\n  </toolset>\n");
    assert(out@ =~= head + toolset_element(0));
    let ghost one = out@;
    push_str(&mut out, "  <toolset>\n    <name>");
    push_xml(&mut out, all[1].name);
    push_str(&mut out, "</name>\n    <description>");
    push_xml(&mut out, all[1].description);
    push_str(&mut out, "</description>\n  </toolset>\n");
    assert(out@ =~= one + toolset_element(1));
    push_str(&mut out, "</available_toolsets>\n");
    assert(out@ =~= toolsets_prompt());
    string_of(&out)
}

} // verus!
