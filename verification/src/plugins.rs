//! The tools that plugins define, and what is said about loading and running them.

use vstd::prelude::*;
use crate::api::{tools_view, ToolDef, ToolDefView, ToolFunction};
use crate::number::{decimal, push_decimal};
use crate::text::{chars_of, has_suffix, matches_at, same_text};
use crate::tools::function_tool;

verus! {

broadcast use vstd::seq::group_seq_axioms;

/// A tool as a plugin's script defines it.
#[derive(Debug)]
pub struct PluginTool {
    pub name: String,
    pub description: String,
    pub parameters: serde_json::Value,
}

/// The definition that the model is told of a plugin's tool.
pub open spec fn plugin_definition(tool: PluginTool) -> ToolDefView {
    function_tool(tool.name@, tool.description@, tool.parameters)
}

/// The tools of all plugins loaded so far.
#[derive(Debug)]
pub struct PluginManager {
    tools: Vec<ToolDef>,
}

impl PluginManager {
    /// The definitions of all tools, in the order in which they were loaded.
    pub closed spec fn tools(&self) -> Seq<ToolDefView> {
        tools_view(self.tools@)
    }

    /// Whether a plugin defines a tool of a name.
    pub open spec fn defines(&self, name: Seq<char>) -> bool {
        exists|i: int| 0 <= i < self.tools().len() && (#[trigger] self.tools()[i]).name == name
    }

    /// No plugin loaded yet.
    pub fn new() -> (r: Self)
        ensures
            r.tools() == Seq::<ToolDefView>::empty(),
    {
        let r = PluginManager { tools: Vec::new() };
        assert(tools_view(r.tools@) =~= Seq::empty());
        r
    }

    /// Takes the tools that a script defined, in order, and says how many. A script with a
    /// fault is skipped as a whole: none of its tools is taken, and the fault is given
    /// back.
    pub fn load_file(&mut self, found: Vec<PluginTool>, fault: Option<String>) -> (r: Result<
        usize,
        String,
    >)
        ensures
            match fault {
                Some(e) => r == Err::<usize, String>(e) && final(self).tools() == old(
                    self,
                ).tools(),
                None => r matches Ok(count) && count == found@.len() && final(self).tools()
                    == old(self).tools() + found@.map_values(
                    |t: PluginTool| plugin_definition(t),
                ),
            },
    {
        if let Some(e) = fault {
            return Err(e);
        }
        let count = found.len();
        let mut found = found;
        let ghost all = found@;
        let ghost definition = |t: PluginTool| plugin_definition(t);
        let mut i: usize = 0;
        while i < count
            invariant
                i <= count == all.len(),
                found@ == all.skip(i as int),
                definition == (|t: PluginTool| plugin_definition(t)),
                tools_view(self.tools@) =~= tools_view(old(self).tools@) + all.take(
                    i as int,
                ).map_values(definition),
            decreases count - i,
        {
            let tool = found.remove(0);
            let ghost before = self.tools@;
            let def = ToolDef {
                tool_type: "function".to_string(),
                function: ToolFunction {
                    name: tool.name,
                    description: tool.description,
                    parameters: tool.parameters,
                },
            };
            self.tools.push(def);
            proof {
                assert(tools_view(self.tools@) =~= tools_view(before).push(def@));
                assert(all.take(i + 1).map_values(definition) =~= all.take(i as int).map_values(
                    definition,
                ).push(plugin_definition(all[i as int])));
                assert(all.skip(i as int).remove(0) =~= all.skip(i + 1));
            }
            i = i + 1;
        }
        assert(all.take(i as int) =~= all);
        Ok(count)
    }

    /// The definitions of all tools.
    pub fn definitions(&self) -> (r: &Vec<ToolDef>)
        ensures
            tools_view(r@) == self.tools(),
    {
        &self.tools
    }

    /// Whether a plugin defines a tool of a name.
    pub fn has_tool(&self, name: &str) -> (r: bool)
        ensures
            r == self.defines(name@),
    {
        let mut i: usize = 0;
        while i < self.tools.len()
            invariant
                i <= self.tools@.len(),
                forall|j: int| 0 <= j < i ==> (#[trigger] self.tools()[j]).name != name@,
            decreases self.tools@.len() - i,
        {
            assert(self.tools()[i as int].name == self.tools@[i as int].function.name@);
            if same_text(self.tools[i].function.name.as_str(), name) {
                return true;
            }
            i = i + 1;
        }
        false
    }
}

/// Whether a file of a name is a plugin: it has a name in front of the extension `lua`.
pub open spec fn names_plugin(file_name: Seq<char>) -> bool {
    file_name.len() > 4 && has_suffix(file_name, ".lua"@)
}

/// Whether a file of a name is a plugin: it has a name in front of the extension `lua`.
pub fn is_plugin_file(file_name: &str) -> (r: bool)
    ensures
        r == names_plugin(file_name@),
{
    proof {
        reveal_strlit(".lua");
    }
    let cs = chars_of(file_name);
    let n = cs.len();
    if n <= 4 {
        return false;
    }
    let extension = chars_of(".lua");
    let r = matches_at(&cs, n - 4, &extension);
    proof {
        let tail = cs@.skip(n - 4);
        assert(tail.take(4) =~= tail);
    }
    r
}

/// What was wrong with a plugin.
#[derive(Debug)]
pub enum PluginFault {
    Directory(String),
    Read,
    Script(String),
    Definition,
    Name,
    Description,
    Parameters,
    Handler,
    Schema(String),
}

/// The words in front of an error about a plugin.
pub open spec fn fault_words(fault: PluginFault) -> Seq<char> {
    match fault {
        PluginFault::Directory(dir) => "Cannot read '"@ + dir@ + "': "@,
        PluginFault::Read => "Read error: "@,
        PluginFault::Script(path) => "Error in "@ + path@ + ": "@,
        PluginFault::Definition => "Bad tool definition: "@,
        PluginFault::Name => "Missing 'name': "@,
        PluginFault::Description => "Missing 'description': "@,
        PluginFault::Parameters => "Missing 'parameters': "@,
        PluginFault::Handler => "Missing 'handler': "@,
        PluginFault::Schema(name) => "Invalid parameters for '"@ + name@ + "': "@,
    }
}

/// Text with words in front of it and behind it.
fn between(front: &str, text: &str, back: &str) -> (r: String)
    ensures
        r@ == front@ + text@ + back@,
{
    let mut s = front.to_string();
    s.append(text);
    s.append(back);
    s
}

/// Says what was wrong with a plugin.
pub fn fault_text(fault: &PluginFault, error: &str) -> (r: String)
    ensures
        r@ == fault_words(*fault) + error@,
{
    let mut message = match fault {
        PluginFault::Directory(dir) => between("Cannot read '", dir.as_str(), "': "),
        PluginFault::Read => "Read error: ".to_string(),
        PluginFault::Script(path) => between("Error in ", path.as_str(), ": "),
        PluginFault::Definition => "Bad tool definition: ".to_string(),
        PluginFault::Name => "Missing 'name': ".to_string(),
        PluginFault::Description => "Missing 'description': ".to_string(),
        PluginFault::Parameters => "Missing 'parameters': ".to_string(),
        PluginFault::Handler => "Missing 'handler': ".to_string(),
        PluginFault::Schema(name) => between("Invalid parameters for '", name.as_str(), "': "),
    };
    message.append(error);
    message
}

/// What is reported about loading a plugin's file.
pub open spec fn load_words(path: Seq<char>, outcome: Result<usize, String>) -> Seq<char> {
    match outcome {
        Ok(count) => "[plugins] loaded "@ + decimal(count as nat) + " tool(s) from "@ + path,
        Err(e) => "[plugins] error in "@ + path + ": "@ + e@,
    }
}

/// Reports how loading a plugin's file went.
pub fn load_report(path: &str, outcome: &Result<usize, String>) -> (r: String)
    ensures
        r@ == load_words(path@, *outcome),
{
    match outcome {
        Ok(count) => {
            let mut report = "[plugins] loaded ".to_string();
            push_decimal(&mut report, *count as u64);
            report.append(" tool(s) from ");
            report.append(path);
            report
        },
        Err(e) => {
            let mut report = between("[plugins] error in ", path, ": ");
            report.append(e.as_str());
            report
        },
    }
}

/// How a call of a plugin's tool went.
#[derive(Debug)]
pub enum PluginOutcome {
    NoRegistry(String),
    NoHandler(String),
    BadArguments(String),
    Failed(String),
    Returned(String),
}

/// What is answered about a call of a plugin's tool.
pub open spec fn plugin_answer(name: Seq<char>, outcome: PluginOutcome) -> Seq<char> {
    match outcome {
        PluginOutcome::NoRegistry(e) => "Registry error: "@ + e@,
        PluginOutcome::NoHandler(e) => "No handler for '"@ + name + "': "@ + e@,
        PluginOutcome::BadArguments(e) => "Args conversion error: "@ + e@,
        PluginOutcome::Failed(e) => "Plugin '"@ + name + "' error: "@ + e@,
        PluginOutcome::Returned(text) => text@,
    }
}

/// Answers about a call of a plugin's tool.
pub fn plugin_reply(name: &str, outcome: PluginOutcome) -> (r: String)
    ensures
        r@ == plugin_answer(name@, outcome),
{
    match outcome {
        PluginOutcome::NoRegistry(e) => {
            let mut s = "Registry error: ".to_string();
            s.append(e.as_str());
            s
        },
        PluginOutcome::NoHandler(e) => {
            let mut s = between("No handler for '", name, "': ");
            s.append(e.as_str());
            s
        },
        PluginOutcome::BadArguments(e) => {
            let mut s = "Args conversion error: ".to_string();
            s.append(e.as_str());
            s
        },
        PluginOutcome::Failed(e) => {
            let mut s = between("Plugin '", name, "' error: ");
            s.append(e.as_str());
            s
        },
        PluginOutcome::Returned(text) => text,
    }
}

/// What a plugin's tool returns is answered as it is, and whatever went wrong with a call
/// is answered too: the error stands at the end, and the name of the tool in front of it
/// where the tool was looked for or ran.
pub proof fn plugins_are_answered_for(name: Seq<char>, text: String)
    ensures
        plugin_answer(name, PluginOutcome::Returned(text)) == text@,
        plugin_answer(name, PluginOutcome::NoRegistry(text)) == "Registry error: "@ + text@,
        plugin_answer(name, PluginOutcome::NoHandler(text)) == "No handler for '"@ + name + "': "@
            + text@,
        plugin_answer(name, PluginOutcome::BadArguments(text)) == "Args conversion error: "@
            + text@,
        plugin_answer(name, PluginOutcome::Failed(text)) == "Plugin '"@ + name + "' error: "@
            + text@,
{
}

/// The model is told of a plugin's tool what the script says of it.
pub proof fn plugin_tools_are_told_as_defined(tool: PluginTool)
    ensures
        plugin_definition(tool).tool_type == "function"@,
        plugin_definition(tool).name == tool.name@,
        plugin_definition(tool).description == tool.description@,
        plugin_definition(tool).parameters == tool.parameters,
{
}

/// The words about a fault name the directory, the script or the tool that it is about.
pub proof fn faults_name_what_they_are_about(text: String)
    ensures
        fault_words(PluginFault::Directory(text)) == "Cannot read '"@ + text@ + "': "@,
        fault_words(PluginFault::Script(text)) == "Error in "@ + text@ + ": "@,
        fault_words(PluginFault::Schema(text)) == "Invalid parameters for '"@ + text@ + "': "@,
{
}

/// Every tool that a plugin defines is found by its name, and no other name is.
pub proof fn plugin_tools_are_found_by_name(manager: PluginManager, name: Seq<char>)
    ensures
        forall|i: int|
            0 <= i < manager.tools().len() ==> manager.defines(
                (#[trigger] manager.tools()[i]).name,
            ),
        (forall|i: int|
            0 <= i < manager.tools().len() ==> (#[trigger] manager.tools()[i]).name != name)
            ==> !manager.defines(name),
{
}

/// Files with a name and the extension `lua` are plugins, and no others are.
pub proof fn plugins_have_their_extension(stem: Seq<char>, other: Seq<char>)
    ensures
        stem.len() > 0 <==> names_plugin(stem + ".lua"@),
        names_plugin(other) ==> exists|front: Seq<char>|
            front.len() > 0 && other == #[trigger] (front + ".lua"@),
{
    reveal_strlit(".lua");
    let whole = stem + ".lua"@;
    assert(whole.skip(whole.len() - 4) =~= ".lua"@);
    if names_plugin(other) {
        let front = other.take(other.len() - 4);
        assert(front + ".lua"@ =~= other);
    }
}

/// A report tells how many tools a file brought, or what was wrong with it.
pub proof fn loading_is_reported(path: Seq<char>, count: usize, error: String)
    ensures
        load_words(path, Ok(count)) == "[plugins] loaded "@ + decimal(count as nat)
            + " tool(s) from "@ + path,
        load_words(path, Err(error)) == "[plugins] error in "@ + path + ": "@ + error@,
{
}

} // verus!
