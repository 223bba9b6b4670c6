//! The tool executor's decisions: which of the three local capabilities a
//! parsed call names, which parameters it needs, the unescaping applied
//! to written content, and the exact result texts. The file reads and
//! writes and the command interpreter itself stay in the front end, which
//! hands the raw outcome back to the formatting functions here.

use vstd::prelude::*;

use crate::strutil::{dec_digits, push_char, usize_to_string};
use vstd::string::StringSliceAdditionalSpecFns;

verus! {

/// A parsed tool invocation: a name and its optional parameters.
#[derive(Debug)]
pub struct ToolCall {
    pub name: String,
    pub path: Option<String>,
    pub content: Option<String>,
}

/// Mathematical model of a tool invocation.
pub struct ToolCallView {
    pub name: Seq<char>,
    pub path: Option<Seq<char>>,
    pub content: Option<Seq<char>>,
}

impl View for ToolCall {
    type V = ToolCallView;

    open spec fn view(&self) -> ToolCallView {
        ToolCallView {
            name: self.name@,
            path: match self.path {
                Some(p) => Some(p@),
                None => None,
            },
            content: match self.content {
                Some(c) => Some(c@),
                None => None,
            },
        }
    }
}

/// What the front end must do for one recognized tool call.
#[derive(Debug)]
pub enum ToolAction {
    /// Read the file at `path` and hand back its text.
    ReadFile { path: String },
    /// Overwrite the file at `path` with `data` (already unescaped).
    WriteFile { path: String, data: String },
    /// Run `command` through the host's interactive command interpreter.
    RunShell { command: String },
}

/// Why a tool call could not be executed.
#[derive(Clone, Copy, Debug, PartialEq, Eq, Structural)]
pub enum ToolError {
    /// The file to read does not exist.
    NotFound,
    /// Reading, writing or spawning failed.
    IOError,
    /// The call names none of the three known tools.
    UnknownTool,
    /// The call lacks a parameter its tool needs.
    MissingParameter,
}

/// Whether a character may follow a backslash as a simple escape.
pub open spec fn is_simple_escape(c: char) -> bool {
    c == 'n' || c == 't' || c == 'r' || c == '\\' || c == '"' || c == '\''
}

/// The character a simple escape stands for.
pub open spec fn escape_value(c: char) -> char {
    if c == 'n' {
        '\n'
    } else if c == 't' {
        '\t'
    } else if c == 'r' {
        '\r'
    } else {
        c
    }
}

/// The text with literal escape sequences decoded: `\n`, `\t`, `\r`,
/// `\\`, `\"` and `\'` become the characters they name; a lone backslash
/// is kept as it is.
pub open spec fn unescaped(s: Seq<char>) -> Seq<char>
    decreases s.len(),
{
    if s.len() == 0 {
        Seq::empty()
    } else if s[0] == '\\' && s.len() >= 2 && is_simple_escape(s[1]) {
        seq![escape_value(s[1])] + unescaped(s.skip(2))
    } else {
        seq![s[0]] + unescaped(s.skip(1))
    }
}

/// Decodes escaped model output: written content arrives JSON-escaped,
/// so literal escape sequences are converted to real characters.
pub fn normalize_escaped_content(s: &str) -> (r: String)
    ensures
        r@ == unescaped(s@),
{
    let n = s.unicode_len();
    let mut out = String::new();
    let mut i: usize = 0;
    proof {
        assert(s@.skip(0) =~= s@);
        assert(Seq::<char>::empty() + unescaped(s@) =~= unescaped(s@));
    }
    while i < n
        invariant
            i <= n,
            n == s@.len(),
            unescaped(s@) =~= out@ + unescaped(s@.skip(i as int)),
        decreases n - i,
    {
        let c = s.get_char(i);
        if c == '\\' && i + 1 < n && is_escape_char(s.get_char(i + 1)) {
            let v = escape_char_value(s.get_char(i + 1));
            push_char(&mut out, v);
            proof {
                let rest = s@.skip(i as int);
                assert(rest[0] == s@[i as int]);
                assert(rest[1] == s@[i as int + 1]);
                assert(rest.skip(2) =~= s@.skip(i as int + 2));
                assert(unescaped(rest) == seq![escape_value(rest[1])] + unescaped(rest.skip(2)));
                assert(out@ + unescaped(s@.skip(i as int + 2)) =~= (out@.drop_last() + (seq![
                    escape_value(rest[1]),
                ] + unescaped(rest.skip(2)))));
            }
            i += 2;
        } else {
            push_char(&mut out, c);
            proof {
                let rest = s@.skip(i as int);
                assert(rest[0] == s@[i as int]);
                assert(rest.skip(1) =~= s@.skip(i as int + 1));
                if rest[0] == '\\' && rest.len() >= 2 && is_simple_escape(rest[1]) {
                    assert(i + 1 < n && is_simple_escape(s@[i as int + 1]));
                }
                assert(unescaped(rest) == seq![rest[0]] + unescaped(rest.skip(1)));
                assert(out@ + unescaped(s@.skip(i as int + 1)) =~= (out@.drop_last() + (seq![
                    rest[0],
                ] + unescaped(rest.skip(1)))));
            }
            i += 1;
        }
    }
    proof {
        assert(s@.skip(n as int) =~= Seq::<char>::empty());
        assert(out@ + Seq::<char>::empty() =~= out@);
    }
    out
}

/// Whether a character may follow a backslash as a simple escape.
fn is_escape_char(c: char) -> (r: bool)
    ensures
        r == is_simple_escape(c),
{
    c == 'n' || c == 't' || c == 'r' || c == '\\' || c == '"' || c == '\''
}

/// The character a simple escape stands for.
fn escape_char_value(c: char) -> (r: char)
    ensures
        r == escape_value(c),
{
    match c {
        'n' => '\n',
        't' => '\t',
        'r' => '\r',
        _ => c,
    }
}

/// Decides what a tool call asks for: the three known names map to their
/// actions, a missing parameter or an unknown name to the matching error.
pub fn plan_tool_action(call: &ToolCall) -> (r: Result<ToolAction, ToolError>)
    ensures
        ({
            let nm = call.name@;
            if nm == "filesystem.read"@ {
                match call.path {
                    Some(p) => r matches Ok(ToolAction::ReadFile { path }) && path@ == p@,
                    None => r == Err::<ToolAction, ToolError>(ToolError::MissingParameter),
                }
            } else if nm == "filesystem.write"@ {
                match (call.path, call.content) {
                    (Some(p), Some(c)) => r matches Ok(ToolAction::WriteFile { path, data })
                        && path@ == p@ && data@ == unescaped(c@),
                    _ => r == Err::<ToolAction, ToolError>(ToolError::MissingParameter),
                }
            } else if nm == "shell.run"@ {
                match call.content {
                    Some(c) => r matches Ok(ToolAction::RunShell { command }) && command@ == c@,
                    None => r == Err::<ToolAction, ToolError>(ToolError::MissingParameter),
                }
            } else {
                r == Err::<ToolAction, ToolError>(ToolError::UnknownTool)
            }
        }),
{
    if crate::strutil::str_eq(call.name.as_str(), "filesystem.read") {
        match &call.path {
            Some(p) => Ok(ToolAction::ReadFile { path: p.clone() }),
            None => Err(ToolError::MissingParameter),
        }
    } else if crate::strutil::str_eq(call.name.as_str(), "filesystem.write") {
        match (&call.path, &call.content) {
            (Some(p), Some(c)) => Ok(
                ToolAction::WriteFile {
                    path: p.clone(),
                    data: normalize_escaped_content(c.as_str()),
                },
            ),
            _ => Err(ToolError::MissingParameter),
        }
    } else if crate::strutil::str_eq(call.name.as_str(), "shell.run") {
        match &call.content {
            Some(c) => Ok(ToolAction::RunShell { command: c.clone() }),
            None => Err(ToolError::MissingParameter),
        }
    } else {
        Err(ToolError::UnknownTool)
    }
}

/// The result text for a successful read.
pub fn format_read_result(path: &str, content: &str) -> (r: String)
    requires
        content.spec_bytes().len() <= usize::MAX,
    ensures
        r@ == "Read file '"@ + path@ + "' ("@ + dec_digits(content.spec_bytes().len() as nat)
            + " bytes). Content:\n"@ + content@,
{
    let mut out = String::from_str("Read file '");
    out.append(path);
    out.append("' (");
    let num = usize_to_string(content.len());
    out.append(num.as_str());
    out.append(" bytes). Content:\n");
    out.append(content);
    proof {
        assert(out@ =~= "Read file '"@ + path@ + "' ("@ + dec_digits(
            content.spec_bytes().len() as nat,
        ) + " bytes). Content:\n"@ + content@);
    }
    out
}

/// The result text for a successful write.
pub fn format_write_result(path: &str, written: usize) -> (r: String)
    ensures
        r@ == "Wrote "@ + dec_digits(written as nat) + " bytes to '"@ + path@ + "'."@,
{
    let mut out = String::from_str("Wrote ");
    let num = usize_to_string(written);
    out.append(num.as_str());
    out.append(" bytes to '");
    out.append(path);
    out.append("'.");
    proof {
        assert(out@ =~= "Wrote "@ + dec_digits(written as nat) + " bytes to '"@ + path@ + "'."@);
    }
    out
}

/// The result text for a shell command, whatever its exit status: the
/// captured standard output and error streams, labelled.
pub fn format_shell_result(command: &str, stdout: &str, stderr: &str) -> (r: String)
    ensures
        r@ == "Command `"@ + command@ + "` executed.\nSTDOUT:\n"@ + stdout@ + "\nSTDERR:\n"@
            + stderr@,
{
    let mut out = String::from_str("Command `");
    out.append(command);
    out.append("` executed.\nSTDOUT:\n");
    out.append(stdout);
    out.append("\nSTDERR:\n");
    out.append(stderr);
    proof {
        assert(out@ =~= "Command `"@ + command@ + "` executed.\nSTDOUT:\n"@ + stdout@
            + "\nSTDERR:\n"@ + stderr@);
    }
    out
}

} // verus!
