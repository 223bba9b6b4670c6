//! The agent loop's private textual history: a message list separate
//! from the persisted branches, used only to build the next prompt for
//! one loop's lifetime.

use vstd::prelude::*;

use crate::host::now_timestamp;

verus! {

/// Who produced a turn of the private history.
#[derive(Debug, Clone, Copy, PartialEq, Eq, Structural)]
pub enum Role {
    User,
    Assistant,
}

/// The label under which a role appears in prompt text.
pub open spec fn role_text(r: Role) -> Seq<char> {
    match r {
        Role::User => "User"@,
        Role::Assistant => "Assistant"@,
    }
}

impl Role {
    /// The label under which the role appears in prompt text.
    pub fn as_str(&self) -> (r: &'static str)
        ensures
            r@ == role_text(*self),
    {
        match self {
            Role::User => "User",
            Role::Assistant => "Assistant",
        }
    }
}

/// One turn of the private history, stamped with the time it was added.
#[derive(Debug)]
pub struct Message {
    pub role: Role,
    pub content: String,
    pub timestamp: i64,
}

/// Mathematical model of a turn.
pub struct MemoryMessageView {
    pub role: Role,
    pub content: Seq<char>,
    pub timestamp: i64,
}

impl View for Message {
    type V = MemoryMessageView;

    open spec fn view(&self) -> MemoryMessageView {
        MemoryMessageView { role: self.role, content: self.content@, timestamp: self.timestamp }
    }
}

/// The private history of one agent loop.
#[derive(Debug)]
pub struct MemorySession {
    pub messages: Vec<Message>,
}

/// The views of the turns.
pub open spec fn turns_view(s: Seq<Message>) -> Seq<MemoryMessageView> {
    s.map_values(|m: Message| m@)
}

/// One rendered turn, newline-terminated.
pub open spec fn turn_line(m: MemoryMessageView) -> Seq<char> {
    role_text(m.role) + ": "@ + m.content + "\n"@
}

/// All turns rendered in order, each newline-terminated.
pub open spec fn prompt_lines(msgs: Seq<MemoryMessageView>) -> Seq<char>
    decreases msgs.len(),
{
    if msgs.len() == 0 {
        Seq::empty()
    } else {
        prompt_lines(msgs.drop_last()) + turn_line(msgs.last())
    }
}

/// All turns rendered in order, newline-separated.
pub open spec fn memory_history(msgs: Seq<MemoryMessageView>) -> Seq<char>
    decreases msgs.len(),
{
    if msgs.len() == 0 {
        Seq::empty()
    } else if msgs.len() == 1 {
        role_text(msgs[0].role) + ": "@ + msgs[0].content
    } else {
        memory_history(msgs.drop_last()) + "\n"@ + role_text(msgs.last().role) + ": "@
            + msgs.last().content
    }
}

impl Default for MemorySession {
    /// An empty history.
    fn default() -> (r: MemorySession)
        ensures
            r.messages@.len() == 0,
    {
        MemorySession { messages: Vec::new() }
    }
}

impl MemorySession {
    /// An empty history.
    pub fn new() -> (r: MemorySession)
        ensures
            r.messages@.len() == 0,
    {
        MemorySession { messages: Vec::new() }
    }

    /// Appends one turn, stamped with the current time. Nothing is
    /// assumed about the stamp itself.
    pub fn add(&mut self, role: Role, content: String)
        ensures
            final(self).messages@.len() == old(self).messages@.len() + 1,
            ({
                let last = final(self).messages@.last();
                last.role == role && last@.content == content@
            }),
            forall|i: int|
                0 <= i < old(self).messages@.len() ==> final(self).messages@[i] == old(
                    self,
                ).messages@[i],
    {
        let ts = now_timestamp();
        self.messages.push(Message { role, content, timestamp: ts });
    }

    /// The whole history as the next prompt, ending with the assistant
    /// label the model is to continue.
    pub fn build_prompt(&self) -> (r: String)
        ensures
            r@ == prompt_lines(turns_view(self.messages@)) + "Assistant:"@,
    {
        let ghost mv = turns_view(self.messages@);
        let mut s = String::new();
        let n = self.messages.len();
        let mut i: usize = 0;
        while i < n
            invariant
                i <= n,
                n == self.messages@.len(),
                mv == turns_view(self.messages@),
                s@ == prompt_lines(mv.subrange(0, i as int)),
            decreases n - i,
        {
            let m = &self.messages[i];
            s.append(m.role.as_str());
            s.append(": ");
            s.append(m.content.as_str());
            s.append("\n");
            proof {
                assert(mv.subrange(0, i + 1 as int).drop_last() =~= mv.subrange(0, i as int));
                assert(mv.subrange(0, i + 1 as int).last() == mv[i as int]);
                assert(s@ =~= prompt_lines(mv.subrange(0, i + 1 as int)));
            }
            i += 1;
        }
        s.append("Assistant:");
        proof {
            assert(mv.subrange(0, n as int) =~= mv);
        }
        s
    }

    /// The whole history as one newline-separated text.
    pub fn history_text(&self) -> (r: String)
        ensures
            r@ == memory_history(turns_view(self.messages@)),
    {
        let ghost mv = turns_view(self.messages@);
        let mut s = String::new();
        let n = self.messages.len();
        let mut i: usize = 0;
        while i < n
            invariant
                i <= n,
                n == self.messages@.len(),
                mv == turns_view(self.messages@),
                s@ == memory_history(mv.subrange(0, i as int)),
            decreases n - i,
        {
            if i > 0 {
                s.append("\n");
            }
            let m = &self.messages[i];
            s.append(m.role.as_str());
            s.append(": ");
            s.append(m.content.as_str());
            proof {
                assert(mv.subrange(0, i + 1 as int).drop_last() =~= mv.subrange(0, i as int));
                assert(mv.subrange(0, i + 1 as int).last() == mv[i as int]);
                assert(s@ =~= memory_history(mv.subrange(0, i + 1 as int)));
            }
            i += 1;
        }
        proof {
            assert(mv.subrange(0, n as int) =~= mv);
        }
        s
    }
}

} // verus!
