//! The agent loop's decisions. One loop serves one request: build the
//! prompt, hand it to the backend, take the answer back, detect at most
//! one tool call, and either run it and continue or terminate. The
//! backend call and the tool's side effects stay in the front end; the
//! state and every decision live here.

use vstd::prelude::*;

use crate::toolparse::spec_parse_tool_use;
use crate::tools::ToolCall;

verus! {

/// The fixed instruction put in front of every backend call: the tool
/// catalog, the one-call rule, and the completion token.
pub open spec fn system_instruction() -> Seq<char> {
    "You are an AI assistant with access to MCP tools.\nAvailable tools:\n- filesystem.read  - read file content. Example: <use_tool name=\"filesystem.read\" params={\"path\": \"src/main.rs\"} />\n- filesystem.write - write text into a file. Example: <use_tool name=\"filesystem.write\" params={\"path\": \"output.txt\", \"content\": \"Hello\"} />\n- shell.run - run shell commands. Example: <use_tool name=\"shell.run\" params={\"content\": \"mkdir Playground\"} />\nWhen using a tool, use EXACTLY this XML-style syntax.\nYou can use only one <use_tool> command per message. If you need to use multiple tools, call them one by one and wait for the tool's result before issuing the next <use_tool>.\nWhen you are done, end your final output with 'Done.'\n"@
}

/// The fixed instruction put in front of every backend call.
pub fn system_instruction_text() -> (r: &'static str)
    ensures
        r@ == system_instruction(),
{
    "You are an AI assistant with access to MCP tools.\nAvailable tools:\n- filesystem.read  - read file content. Example: <use_tool name=\"filesystem.read\" params={\"path\": \"src/main.rs\"} />\n- filesystem.write - write text into a file. Example: <use_tool name=\"filesystem.write\" params={\"path\": \"output.txt\", \"content\": \"Hello\"} />\n- shell.run - run shell commands. Example: <use_tool name=\"shell.run\" params={\"content\": \"mkdir Playground\"} />\nWhen using a tool, use EXACTLY this XML-style syntax.\nYou can use only one <use_tool> command per message. If you need to use multiple tools, call them one by one and wait for the tool's result before issuing the next <use_tool>.\nWhen you are done, end your final output with 'Done.'\n"
}

/// Whether the completion token stands at position `i`, in either case.
pub open spec fn is_done_token_at(s: Seq<char>, i: int) -> bool {
    &&& i + 5 <= s.len()
    &&& (s[i] == 'd' || s[i] == 'D')
    &&& (s[i + 1] == 'o' || s[i + 1] == 'O')
    &&& (s[i + 2] == 'n' || s[i + 2] == 'N')
    &&& (s[i + 3] == 'e' || s[i + 3] == 'E')
    &&& s[i + 4] == '.'
}

/// Whether a turn carries the completion token, case-insensitively.
pub open spec fn contains_done(s: Seq<char>) -> bool {
    exists|i: int| 0 <= i && is_done_token_at(s, i)
}

/// Whether a turn carries the completion token, case-insensitively.
pub fn has_done_token(s: &str) -> (r: bool)
    ensures
        r == contains_done(s@),
{
    let n = s.unicode_len();
    if n < 5 {
        proof {
            assert forall|i: int| !(0 <= i && is_done_token_at(s@, i)) by {}
        }
        return false;
    }
    let mut i: usize = 0;
    while i <= n - 5
        invariant
            n == s@.len(),
            5 <= n,
            i <= n - 4,
            forall|j: int| 0 <= j < i ==> !is_done_token_at(s@, j),
        decreases n - i,
    {
        let c0 = s.get_char(i);
        let c1 = s.get_char(i + 1);
        let c2 = s.get_char(i + 2);
        let c3 = s.get_char(i + 3);
        let c4 = s.get_char(i + 4);
        if (c0 == 'd' || c0 == 'D') && (c1 == 'o' || c1 == 'O') && (c2 == 'n' || c2 == 'N') && (c3
            == 'e' || c3 == 'E') && c4 == '.' {
            proof {
                assert(is_done_token_at(s@, i as int));
            }
            return true;
        }
        i += 1;
    }
    proof {
        assert forall|j: int| !(0 <= j && is_done_token_at(s@, j)) by {
            if 0 <= j < i {
            } else if 0 <= j {
                assert(j + 5 > s@.len());
            }
        }
    }
    false
}

/// The per-turn user content: the original prompt, the running history,
/// and the standing request to continue.
pub fn agent_user_content(user_prompt: &str, history: &str) -> (r: String)
    ensures
        r@ == "User initial prompt:\n"@ + user_prompt@ + "\n\nConversation so far:\n"@ + history@
            + "\n\nContinue reasoning or issue next tool call if needed."@,
{
    let mut out = String::from_str("User initial prompt:\n");
    out.append(user_prompt);
    out.append("\n\nConversation so far:\n");
    out.append(history);
    out.append("\n\nContinue reasoning or issue next tool call if needed.");
    proof {
        assert(out@ =~= "User initial prompt:\n"@ + user_prompt@ + "\n\nConversation so far:\n"@
            + history@ + "\n\nContinue reasoning or issue next tool call if needed."@);
    }
    out
}

/// The state of one agent loop: the original prompt, the private
/// history, and how many backend turns remain before the loop is cut
/// off.
pub struct AgentState {
    pub user_prompt: String,
    pub history: String,
    pub iterations_left: usize,
}

/// What the front end must do after one backend answer.
pub enum AgentDecision {
    /// Run this call, append its result, and loop again — unless this
    /// turn also finished the conversation.
    RunTool { call: ToolCall, finish_after: bool },
    /// The loop is over: no tool call was recognized.
    Finish,
}

impl AgentState {
    /// A fresh loop for one user prompt, with a turn budget.
    pub fn new(user_prompt: String, history: String, max_iterations: usize) -> (r: AgentState)
        ensures
            r.user_prompt@ == user_prompt@,
            r.history@ == history@,
            r.iterations_left == max_iterations,
    {
        AgentState { user_prompt, history, iterations_left: max_iterations }
    }

    /// Takes one backend answer: appends it to the history, spends one
    /// turn of the budget, and decides what happens next. The decision is
    /// to run a tool exactly when the answer's first tagged region is
    /// recognized; the loop finishes after the tool when the answer
    /// carries the completion token or the budget is spent.
    pub fn step(&mut self, answer: &str) -> (d: AgentDecision)
        ensures
            final(self).user_prompt == old(self).user_prompt,
            final(self).history@ == old(self).history@ + "\nAssistant: "@ + answer@,
            final(self).iterations_left == if old(self).iterations_left > 0 {
                (old(self).iterations_left - 1) as usize
            } else {
                0usize
            },
            match d {
                AgentDecision::RunTool { call, finish_after } => {
                    &&& spec_parse_tool_use(answer@) == Some(call@)
                    &&& finish_after == (contains_done(answer@) || final(self).iterations_left
                        == 0)
                },
                AgentDecision::Finish => spec_parse_tool_use(answer@) is None,
            },
    {
        self.history.append("\nAssistant: ");
        self.history.append(answer);
        if self.iterations_left > 0 {
            self.iterations_left = self.iterations_left - 1;
        }
        proof {
            assert(self.history@ =~= old(self).history@ + "\nAssistant: "@ + answer@);
        }
        match crate::toolparse::parse_tool_use(answer) {
            Some(call) => {
                let done = has_done_token(answer);
                let finish_after = done || self.iterations_left == 0;
                AgentDecision::RunTool { call, finish_after }
            },
            None => AgentDecision::Finish,
        }
    }

    /// Appends a tool's textual result to the history as a synthetic
    /// turn.
    pub fn note_tool_result(&mut self, result: &str)
        ensures
            final(self).user_prompt == old(self).user_prompt,
            final(self).iterations_left == old(self).iterations_left,
            final(self).history@ == old(self).history@ + "\nTool result: "@ + result@,
    {
        self.history.append("\nTool result: ");
        self.history.append(result);
        proof {
            assert(self.history@ =~= old(self).history@ + "\nTool result: "@ + result@);
        }
    }
}

/// The text a tool result shows as in the transcript.
pub fn tool_result_display(name: &str, result: &str) -> (r: String)
    ensures
        r@ == "\n[Tool: "@ + name@ + "]\nresult: "@ + result@ + "\n"@,
{
    let mut out = String::from_str("\n[Tool: ");
    out.append(name);
    out.append("]\nresult: ");
    out.append(result);
    out.append("\n");
    proof {
        assert(out@ =~= "\n[Tool: "@ + name@ + "]\nresult: "@ + result@ + "\n"@);
    }
    out
}

} // verus!
