//! The slash commands a user types at the prompt: tokenizing the line
//! and reading the branch and session command verbs. The front end only
//! executes the parsed command.

use vstd::prelude::*;

use crate::strutil::{push_char, str_eq};
use crate::toolparse::{is_space, space_end};

verus! {

/// The end of the non-whitespace run starting at `i`.
pub open spec fn nonspace_end(s: Seq<char>, i: int) -> int
    decreases s.len() - i,
    when 0 <= i <= s.len()
{
    if i < s.len() && !is_space(s[i]) {
        nonspace_end(s, i + 1)
    } else {
        i
    }
}

/// The non-whitespace run ends within bounds.
proof fn lemma_nonspace_end_bounds(s: Seq<char>, i: int)
    requires
        0 <= i <= s.len(),
    ensures
        i <= nonspace_end(s, i) <= s.len(),
    decreases s.len() - i,
{
    if i < s.len() && !is_space(s[i]) {
        lemma_nonspace_end_bounds(s, i + 1);
    }
}

/// The whitespace-separated words of a line, from position `i` on.
pub open spec fn words_from(s: Seq<char>, i: int) -> Seq<Seq<char>>
    decreases s.len() - i,
    when 0 <= i <= s.len()
    via words_from_dec
{
    let j = space_end(s, i);
    if j >= s.len() {
        Seq::empty()
    } else {
        let k = nonspace_end(s, j);
        seq![s.subrange(j, k)] + words_from(s, k)
    }
}

/// The whitespace run stops at the end or at a non-space character.
proof fn lemma_space_end_stops(s: Seq<char>, i: int)
    requires
        0 <= i <= s.len(),
    ensures
        i <= space_end(s, i) <= s.len(),
        space_end(s, i) == s.len() || !is_space(s[space_end(s, i)]),
    decreases s.len() - i,
{
    if i < s.len() && is_space(s[i]) {
        lemma_space_end_stops(s, i + 1);
    }
}

#[via_fn]
proof fn words_from_dec(s: Seq<char>, i: int) {
    lemma_space_end_stops(s, i);
    let j = space_end(s, i);
    if j < s.len() {
        lemma_nonspace_end_bounds(s, j + 1);
        assert(nonspace_end(s, j) == nonspace_end(s, j + 1));
    }
}

/// The whitespace-separated words of a line.
pub open spec fn words_of(s: Seq<char>) -> Seq<Seq<char>> {
    words_from(s, 0)
}

/// The views of a word list.
pub open spec fn words_view(v: Seq<String>) -> Seq<Seq<char>> {
    v.map_values(|x: String| x@)
}

/// Splits a line into its whitespace-separated words.
pub fn split_words(s: &str) -> (r: Vec<String>)
    ensures
        words_view(r@) == words_of(s@),
{
    let n = s.unicode_len();
    let mut out: Vec<String> = Vec::new();
    let mut i: usize = 0;
    proof {
        assert(words_view(out@) + words_from(s@, 0) =~= words_from(s@, 0));
    }
    while i < n
        invariant
            i <= n,
            n == s@.len(),
            words_of(s@) =~= words_view(out@) + words_from(s@, i as int),
        decreases n - i,
    {
        if is_space_char(s.get_char(i)) {
            proof {
                assert(space_end(s@, i as int) == space_end(s@, i as int + 1));
            }
            i += 1;
            continue;
        }
        proof {
            assert(space_end(s@, i as int) == i);
        }
        let start = i;
        let mut tok = String::new();
        while i < n && !is_space_char(s.get_char(i))
            invariant
                start <= i <= n,
                n == s@.len(),
                tok@ =~= s@.subrange(start as int, i as int),
                nonspace_end(s@, start as int) == nonspace_end(s@, i as int),
            decreases n - i,
        {
            push_char(&mut tok, s.get_char(i));
            proof {
                assert(tok@ =~= s@.subrange(start as int, i as int + 1));
            }
            i += 1;
        }
        proof {
            assert(nonspace_end(s@, start as int) == i);
        }
        let ghost prev = out@;
        let ghost tv = tok@;
        out.push(tok);
        proof {
            assert forall|k: int| 0 <= k < out@.len() implies words_view(out@)[k] == words_view(
                prev,
            ).push(tv)[k] by {
                if k < prev.len() {
                    assert(out@[k] == prev[k]);
                } else {
                    assert(out@[k]@ == tv);
                }
            }
            assert(words_view(out@) =~= words_view(prev).push(tv));
            assert(words_of(s@) =~= words_view(out@) + words_from(s@, i as int));
        }
    }
    proof {
        assert(space_end(s@, i as int) == i);
        assert(words_from(s@, i as int) =~= Seq::<Seq<char>>::empty());
        assert(words_view(out@) + words_from(s@, i as int) =~= words_view(out@));
    }
    out
}

/// Whitespace accepted by the tokenizer.
fn is_space_char(c: char) -> (r: bool)
    ensures
        r == is_space(c),
{
    c == ' ' || c == '\t' || c == '\n' || c == '\r'
}

/// A parsed branch command.
#[derive(Debug)]
pub enum BranchCommand {
    New { name: String },
    Switch { name: String },
    List,
    Current,
    Delete { name: String },
    Rename { old_name: String, new_name: String },
    Clear,
    Usage,
}

/// A parsed session command.
#[derive(Debug)]
pub enum SessionCommand {
    List,
    Current,
    Delete { id: String },
    Clear,
    Usage,
}

/// The word at `i`, or the empty word when the line is shorter — a
/// missing argument is reported by the command's own handler.
pub open spec fn word_or_empty(ws: Seq<Seq<char>>, i: int) -> Seq<char> {
    if 0 <= i < ws.len() {
        ws[i]
    } else {
        Seq::empty()
    }
}

/// What a `/branch ...` line asks for.
pub open spec fn spec_branch_command(ws: Seq<Seq<char>>) -> BranchCommandView {
    let verb = word_or_empty(ws, 1);
    if verb == "new"@ {
        BranchCommandView::New { name: word_or_empty(ws, 2) }
    } else if verb == "switch"@ {
        BranchCommandView::Switch { name: word_or_empty(ws, 2) }
    } else if verb == "list"@ {
        BranchCommandView::List
    } else if verb == "current"@ {
        BranchCommandView::Current
    } else if verb == "delete"@ {
        BranchCommandView::Delete { name: word_or_empty(ws, 2) }
    } else if verb == "rename"@ {
        BranchCommandView::Rename {
            old_name: word_or_empty(ws, 2),
            new_name: word_or_empty(ws, 3),
        }
    } else if verb == "clear"@ {
        BranchCommandView::Clear
    } else {
        BranchCommandView::Usage
    }
}

/// Mathematical model of a parsed branch command.
pub enum BranchCommandView {
    New { name: Seq<char> },
    Switch { name: Seq<char> },
    List,
    Current,
    Delete { name: Seq<char> },
    Rename { old_name: Seq<char>, new_name: Seq<char> },
    Clear,
    Usage,
}

impl View for BranchCommand {
    type V = BranchCommandView;

    open spec fn view(&self) -> BranchCommandView {
        match self {
            BranchCommand::New { name } => BranchCommandView::New { name: name@ },
            BranchCommand::Switch { name } => BranchCommandView::Switch { name: name@ },
            BranchCommand::List => BranchCommandView::List,
            BranchCommand::Current => BranchCommandView::Current,
            BranchCommand::Delete { name } => BranchCommandView::Delete { name: name@ },
            BranchCommand::Rename { old_name, new_name } => BranchCommandView::Rename {
                old_name: old_name@,
                new_name: new_name@,
            },
            BranchCommand::Clear => BranchCommandView::Clear,
            BranchCommand::Usage => BranchCommandView::Usage,
        }
    }
}

/// What a `/session ...` line asks for.
pub open spec fn spec_session_command(ws: Seq<Seq<char>>) -> SessionCommandView {
    let verb = word_or_empty(ws, 1);
    if verb == "list"@ {
        SessionCommandView::List
    } else if verb == "current"@ {
        SessionCommandView::Current
    } else if verb == "delete"@ {
        SessionCommandView::Delete { id: word_or_empty(ws, 2) }
    } else if verb == "clear"@ {
        SessionCommandView::Clear
    } else {
        SessionCommandView::Usage
    }
}

/// Mathematical model of a parsed session command.
pub enum SessionCommandView {
    List,
    Current,
    Delete { id: Seq<char> },
    Clear,
    Usage,
}

impl View for SessionCommand {
    type V = SessionCommandView;

    open spec fn view(&self) -> SessionCommandView {
        match self {
            SessionCommand::List => SessionCommandView::List,
            SessionCommand::Current => SessionCommandView::Current,
            SessionCommand::Delete { id } => SessionCommandView::Delete { id: id@ },
            SessionCommand::Clear => SessionCommandView::Clear,
            SessionCommand::Usage => SessionCommandView::Usage,
        }
    }
}

/// The word at `i`, or the empty word when the line is shorter.
fn word_at(ws: &Vec<String>, i: usize) -> (r: String)
    ensures
        r@ == word_or_empty(words_view(ws@), i as int),
{
    if i < ws.len() {
        ws[i].clone()
    } else {
        String::new()
    }
}

/// Reads a `/branch ...` line.
pub fn parse_branch_command(input: &str) -> (r: BranchCommand)
    ensures
        r@ == spec_branch_command(words_of(input@)),
{
    let ws = split_words(input);
    let verb = word_at(&ws, 1);
    if str_eq(verb.as_str(), "new") {
        BranchCommand::New { name: word_at(&ws, 2) }
    } else if str_eq(verb.as_str(), "switch") {
        BranchCommand::Switch { name: word_at(&ws, 2) }
    } else if str_eq(verb.as_str(), "list") {
        BranchCommand::List
    } else if str_eq(verb.as_str(), "current") {
        BranchCommand::Current
    } else if str_eq(verb.as_str(), "delete") {
        BranchCommand::Delete { name: word_at(&ws, 2) }
    } else if str_eq(verb.as_str(), "rename") {
        BranchCommand::Rename { old_name: word_at(&ws, 2), new_name: word_at(&ws, 3) }
    } else if str_eq(verb.as_str(), "clear") {
        BranchCommand::Clear
    } else {
        BranchCommand::Usage
    }
}

/// Reads a `/session ...` line.
pub fn parse_session_command(input: &str) -> (r: SessionCommand)
    ensures
        r@ == spec_session_command(words_of(input@)),
{
    let ws = split_words(input);
    let verb = word_at(&ws, 1);
    if str_eq(verb.as_str(), "list") {
        SessionCommand::List
    } else if str_eq(verb.as_str(), "current") {
        SessionCommand::Current
    } else if str_eq(verb.as_str(), "delete") {
        SessionCommand::Delete { id: word_at(&ws, 2) }
    } else if str_eq(verb.as_str(), "clear") {
        SessionCommand::Clear
    } else {
        SessionCommand::Usage
    }
}

} // verus!
