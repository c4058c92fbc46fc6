//! Which tools of which agent edit files, and which run a shell.

use vstd::prelude::*;

use crate::text::same_text;

verus! {

/// The agents whose tool calls are attributed.
#[derive(Debug, Clone, Copy, PartialEq, Eq, Structural)]
pub enum Agent {
    Claude,
    Gemini,
    ContinueCli,
    Droid,
    Amp,
    OpenCode,
}

/// What a tool does, as far as attribution is concerned.
#[derive(Debug, Clone, Copy, PartialEq, Eq, Structural)]
pub enum ToolClass {
    /// A known file-edit tool.
    FileEdit,
    /// A shell tool: its changes are found by comparing snapshots.
    Bash,
    /// Any other tool: no checkpoint.
    Skip,
}

/// The names of an agent's file-edit tools.
pub open spec fn edit_tools(agent: Agent) -> Set<Seq<char>> {
    match agent {
        Agent::Claude => set!["Write"@, "Edit"@, "MultiEdit"@],
        Agent::Gemini => set!["write_file"@, "replace"@],
        Agent::ContinueCli => set!["edit"@],
        Agent::Droid => set!["ApplyPatch"@, "Edit"@, "Write"@, "Create"@],
        Agent::Amp => set!["Write"@, "Edit"@],
        Agent::OpenCode => set!["edit"@, "write"@],
    }
}

/// The names of an agent's shell tools.
pub open spec fn shell_tools(agent: Agent) -> Set<Seq<char>> {
    match agent {
        Agent::Claude => set!["Bash"@],
        Agent::Gemini => set!["shell"@],
        Agent::ContinueCli => set!["terminal"@, "local_shell_call"@],
        Agent::Droid => set!["Bash"@],
        Agent::Amp => set!["Bash"@],
        Agent::OpenCode => set!["bash"@, "shell"@],
    }
}

/// No tool is both a file-edit tool and a shell tool of one agent.
pub proof fn edit_and_shell_tools_are_disjoint(agent: Agent)
    ensures
        edit_tools(agent).disjoint(shell_tools(agent)),
{
    reveal_strlit("Write");
    reveal_strlit("Edit");
    reveal_strlit("MultiEdit");
    reveal_strlit("write_file");
    reveal_strlit("replace");
    reveal_strlit("edit");
    reveal_strlit("ApplyPatch");
    reveal_strlit("Create");
    reveal_strlit("write");
    reveal_strlit("Bash");
    reveal_strlit("shell");
    reveal_strlit("terminal");
    reveal_strlit("local_shell_call");
    reveal_strlit("bash");
    assert("Edit"@[0] != "Bash"@[0]);
    assert("edit"@[0] != "bash"@[0]);
    assert("write"@[0] != "bash"@[0] && "write"@[0] != "shell"@[0]);
    assert("Write"@.len() != "Bash"@.len());
}

/// Classifies a tool of an agent by its name.
pub fn classify_tool(agent: Agent, tool_name: &str) -> (class: ToolClass)
    ensures
        class == ToolClass::FileEdit <==> edit_tools(agent).contains(tool_name@),
        class == ToolClass::Bash <==> shell_tools(agent).contains(tool_name@),
        class == ToolClass::Skip <==> !edit_tools(agent).contains(tool_name@) && !shell_tools(
            agent,
        ).contains(tool_name@),
{
    proof {
        edit_and_shell_tools_are_disjoint(agent);
    }
    let (edits, runs) = match agent {
        Agent::Claude => (
            same_text(tool_name, "Write") || same_text(tool_name, "Edit") || same_text(
                tool_name,
                "MultiEdit",
            ),
            same_text(tool_name, "Bash"),
        ),
        Agent::Gemini => (
            same_text(tool_name, "write_file") || same_text(tool_name, "replace"),
            same_text(tool_name, "shell"),
        ),
        Agent::ContinueCli => (
            same_text(tool_name, "edit"),
            same_text(tool_name, "terminal") || same_text(tool_name, "local_shell_call"),
        ),
        Agent::Droid => (
            same_text(tool_name, "ApplyPatch") || same_text(tool_name, "Edit") || same_text(
                tool_name,
                "Write",
            ) || same_text(tool_name, "Create"),
            same_text(tool_name, "Bash"),
        ),
        Agent::Amp => (
            same_text(tool_name, "Write") || same_text(tool_name, "Edit"),
            same_text(tool_name, "Bash"),
        ),
        Agent::OpenCode => (
            same_text(tool_name, "edit") || same_text(tool_name, "write"),
            same_text(tool_name, "bash") || same_text(tool_name, "shell"),
        ),
    };
    if edits {
        ToolClass::FileEdit
    } else if runs {
        ToolClass::Bash
    } else {
        ToolClass::Skip
    }
}

/// Which tools of each agent edit files, and which run a shell; every other tool does neither.
pub proof fn each_agent_has_its_tools(name: Seq<char>)
    ensures
        edit_tools(Agent::Claude).contains(name) <==> name == "Write"@ || name == "Edit"@ || name
            == "MultiEdit"@,
        shell_tools(Agent::Claude).contains(name) <==> name == "Bash"@,
        edit_tools(Agent::Gemini).contains(name) <==> name == "write_file"@ || name == "replace"@,
        shell_tools(Agent::Gemini).contains(name) <==> name == "shell"@,
        edit_tools(Agent::ContinueCli).contains(name) <==> name == "edit"@,
        shell_tools(Agent::ContinueCli).contains(name) <==> name == "terminal"@ || name
            == "local_shell_call"@,
        edit_tools(Agent::Droid).contains(name) <==> name == "ApplyPatch"@ || name == "Edit"@ || name
            == "Write"@ || name == "Create"@,
        shell_tools(Agent::Droid).contains(name) <==> name == "Bash"@,
        edit_tools(Agent::Amp).contains(name) <==> name == "Write"@ || name == "Edit"@,
        shell_tools(Agent::Amp).contains(name) <==> name == "Bash"@,
        edit_tools(Agent::OpenCode).contains(name) <==> name == "edit"@ || name == "write"@,
        shell_tools(Agent::OpenCode).contains(name) <==> name == "bash"@ || name == "shell"@,
{
}

} // verus!
