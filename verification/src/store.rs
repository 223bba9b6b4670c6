//! The conversation store: sessions, branches, messages, and the single
//! streaming cursor. The store is owned by one writer (the UI loop); all
//! mutation goes through the methods here, whose contracts pin down what
//! changes and, just as importantly, what stays untouched.

use vstd::prelude::*;

use crate::host::fresh_session_id;
use crate::strutil::{dec_digits, usize_to_string};

verus! {

/// Who produced a message.
#[derive(Clone, Copy, Debug, PartialEq, Eq, Structural)]
pub enum MessageFrom {
    User,
    Assistant,
    System,
}

/// A single message in a branch.
#[derive(Debug)]
pub struct Message {
    pub from: MessageFrom,
    pub content: String,
}

/// One conversation branch: a linearly ordered message history.
#[derive(Debug)]
pub struct Branch {
    pub id: usize,
    pub name: String,
    pub messages: Vec<Message>,
}

/// One chat session: its branches and the index of the active one.
#[derive(Debug)]
pub struct Session {
    pub id: String,
    pub title: String,
    pub branches: Vec<Branch>,
    pub active_branch: usize,
}

/// Current input mode of the front end (vim-like).
#[derive(Clone, Copy, Debug, PartialEq, Eq, Structural)]
pub enum InputMode {
    Normal,
    Insert,
}

/// Events sent by a background streaming worker to the single consumer.
#[derive(Debug)]
pub enum BackendEvent {
    AssistantChunk { session_idx: usize, branch_idx: usize, chunk: String },
    AssistantDone { session_idx: usize, branch_idx: usize },
}

/// Where an edit of an old user message forks from.
#[derive(Clone, Copy, Debug, PartialEq, Eq, Structural)]
pub struct EditContext {
    pub session_idx: usize,
    pub branch_idx: usize,
    pub message_idx: usize,
}

/// Mathematical model of a message.
pub struct MessageView {
    pub from: MessageFrom,
    pub content: Seq<char>,
}

/// Mathematical model of a branch.
pub struct BranchView {
    pub id: usize,
    pub name: Seq<char>,
    pub messages: Seq<MessageView>,
}

/// Mathematical model of a session.
pub struct SessionView {
    pub id: Seq<char>,
    pub title: Seq<char>,
    pub branches: Seq<BranchView>,
    pub active_branch: usize,
}

/// The views of a message sequence.
pub open spec fn msgs_view(s: Seq<Message>) -> Seq<MessageView> {
    s.map_values(|m: Message| m@)
}

/// The views of a branch sequence.
pub open spec fn branches_view(s: Seq<Branch>) -> Seq<BranchView> {
    s.map_values(|b: Branch| b@)
}

/// The views of a session sequence.
pub open spec fn sessions_view(s: Seq<Session>) -> Seq<SessionView> {
    s.map_values(|x: Session| x@)
}

impl View for Message {
    type V = MessageView;

    open spec fn view(&self) -> MessageView {
        MessageView { from: self.from, content: self.content@ }
    }
}

impl View for Branch {
    type V = BranchView;

    open spec fn view(&self) -> BranchView {
        BranchView {
            id: self.id,
            name: self.name@,
            messages: msgs_view(self.messages@),
        }
    }
}

impl View for Session {
    type V = SessionView;

    open spec fn view(&self) -> SessionView {
        SessionView {
            id: self.id@,
            title: self.title@,
            branches: branches_view(self.branches@),
            active_branch: self.active_branch,
        }
    }
}

/// A session is well formed when it has at least one branch and its
/// active-branch index points at one of them.
pub open spec fn session_wf(s: SessionView) -> bool {
    &&& s.branches.len() >= 1
    &&& s.active_branch < s.branches.len()
}

impl Message {
    /// An independent copy.
    pub fn duplicate(&self) -> (r: Message)
        ensures
            r@ == self@,
    {
        Message { from: self.from, content: self.content.clone() }
    }
}

/// The single-writer owner of all conversation state.
pub struct App {
    /// All sessions shown to the user.
    pub sessions: Vec<Session>,
    /// Index of the currently active session.
    pub active_idx: usize,
    /// Current text in the input box.
    pub input: String,
    /// Current input mode.
    pub input_mode: InputMode,
    /// Whether the "new session" button is focused.
    pub new_button_selected: bool,
    /// Vertical scroll offset of the message area.
    pub msg_scroll: usize,
    /// The streaming cursor: (session, branch, message) of the one
    /// message currently receiving chunks.
    pub streaming_assistant: Option<(usize, usize, usize)>,
    /// Whether the session sidebar is collapsed.
    pub sidebar_collapsed: bool,
    /// Editing context (`None` when not editing).
    pub edit_ctx: Option<EditContext>,
    /// Which user message is hovered, if any.
    pub hovered_user_msg: Option<usize>,
    /// Vertical scroll offset of the input box.
    pub input_scroll: usize,
}

/// Mathematical model of the store.
pub struct AppView {
    pub sessions: Seq<SessionView>,
    pub active_idx: usize,
    pub input: Seq<char>,
    pub input_mode: InputMode,
    pub new_button_selected: bool,
    pub msg_scroll: usize,
    pub streaming_assistant: Option<(usize, usize, usize)>,
    pub sidebar_collapsed: bool,
    pub edit_ctx: Option<EditContext>,
    pub hovered_user_msg: Option<usize>,
    pub input_scroll: usize,
}

impl View for App {
    type V = AppView;

    open spec fn view(&self) -> AppView {
        AppView {
            sessions: sessions_view(self.sessions@),
            active_idx: self.active_idx,
            input: self.input@,
            input_mode: self.input_mode,
            new_button_selected: self.new_button_selected,
            msg_scroll: self.msg_scroll,
            streaming_assistant: self.streaming_assistant,
            sidebar_collapsed: self.sidebar_collapsed,
            edit_ctx: self.edit_ctx,
            hovered_user_msg: self.hovered_user_msg,
            input_scroll: self.input_scroll,
        }
    }
}

/// The cursor, when set, points at an existing message.
pub open spec fn cursor_wf(a: AppView) -> bool {
    match a.streaming_assistant {
        Some((s, b, m)) => {
            &&& s < a.sessions.len()
            &&& b < a.sessions[s as int].branches.len()
            &&& m < a.sessions[s as int].branches[b as int].messages.len()
        },
        None => true,
    }
}

/// Store invariant: a session is selected, every session is well formed,
/// and the cursor (if live) points at an existing message.
pub open spec fn app_wf(a: AppView) -> bool {
    &&& a.sessions.len() >= 1
    &&& a.active_idx < a.sessions.len()
    &&& forall|i: int| 0 <= i < a.sessions.len() ==> session_wf(#[trigger] a.sessions[i])
    &&& cursor_wf(a)
}

/// A freshly created session: one empty "main" branch, a
/// "Session <n>" title, nothing streaming.
pub open spec fn fresh_session(s: SessionView, n: nat) -> bool {
    &&& s.title == "Session "@ + dec_digits(n)
    &&& s.branches.len() == 1
    &&& s.branches[0].id == 0
    &&& s.branches[0].name == "main"@
    &&& s.branches[0].messages.len() == 0
    &&& s.active_branch == 0
}

/// Inside one store, nothing changed outside branch `bi` of session
/// `si`: every other session is equal, and inside session `si` every
/// other branch is equal, as are its identity and selection fields.
pub open spec fn only_branch_changed(a: AppView, f: AppView, si: int, bi: int) -> bool {
    &&& f.sessions.len() == a.sessions.len()
    &&& forall|i: int| 0 <= i < a.sessions.len() && i != si ==> f.sessions[i] == a.sessions[i]
    &&& f.sessions[si].id == a.sessions[si].id
    &&& f.sessions[si].title == a.sessions[si].title
    &&& f.sessions[si].active_branch == a.sessions[si].active_branch
    &&& f.sessions[si].branches.len() == a.sessions[si].branches.len()
    &&& forall|j: int|
        0 <= j < a.sessions[si].branches.len() && j != bi ==> f.sessions[si].branches[j]
            == a.sessions[si].branches[j]
    &&& f.active_idx == a.active_idx
    &&& f.msg_scroll == a.msg_scroll
    &&& same_ui_state(a, f)
}

/// Branch `nb` is `ob` with the content of message `m` extended by
/// `chunk` and nothing else touched.
pub open spec fn branch_extended_at(ob: BranchView, nb: BranchView, m: int, chunk: Seq<char>) -> bool {
    &&& nb.id == ob.id
    &&& nb.name == ob.name
    &&& nb.messages.len() == ob.messages.len()
    &&& forall|j: int| 0 <= j < ob.messages.len() && j != m ==> nb.messages[j] == ob.messages[j]
    &&& nb.messages[m].from == ob.messages[m].from
    &&& nb.messages[m].content == ob.messages[m].content + chunk
}

/// All fields of the store other than the session tree, the active
/// session index, the cursor and the scroll offsets are equal.
pub open spec fn same_ui_state(a: AppView, b: AppView) -> bool {
    &&& a.input == b.input
    &&& a.input_mode == b.input_mode
    &&& a.new_button_selected == b.new_button_selected
    &&& a.sidebar_collapsed == b.sidebar_collapsed
    &&& a.edit_ctx == b.edit_ctx
    &&& a.hovered_user_msg == b.hovered_user_msg
    &&& a.input_scroll == b.input_scroll
}

/// Well-formedness of every session survives a change confined to
/// session `si`, provided that one stays well formed.
pub proof fn lemma_sessions_wf_frame(a: AppView, f: AppView, si: int)
    requires
        forall|i: int| 0 <= i < a.sessions.len() ==> session_wf(#[trigger] a.sessions[i]),
        f.sessions.len() == a.sessions.len(),
        forall|i: int| 0 <= i < a.sessions.len() && i != si ==> f.sessions[i] == a.sessions[i],
        0 <= si < a.sessions.len() ==> session_wf(f.sessions[si]),
    ensures
        forall|i: int| 0 <= i < f.sessions.len() ==> session_wf(#[trigger] f.sessions[i]),
{
    assert forall|i: int| 0 <= i < f.sessions.len() implies session_wf(#[trigger] f.sessions[i]) by {
        if i != si {
            assert(f.sessions[i] == a.sessions[i]);
            assert(session_wf(a.sessions[i]));
        }
    }
}

/// An unchanged cursor stays valid when the only change is confined to
/// branch `bi` of session `si` and did not shorten its messages.
pub proof fn lemma_cursor_wf_frame(a: AppView, f: AppView, si: int, bi: int)
    requires
        cursor_wf(a),
        f.streaming_assistant == a.streaming_assistant,
        f.sessions.len() == a.sessions.len(),
        forall|i: int| 0 <= i < a.sessions.len() && i != si ==> f.sessions[i] == a.sessions[i],
        0 <= si < a.sessions.len(),
        f.sessions[si].branches.len() == a.sessions[si].branches.len(),
        forall|j: int|
            0 <= j < a.sessions[si].branches.len() && j != bi ==> f.sessions[si].branches[j]
                == a.sessions[si].branches[j],
        0 <= bi < a.sessions[si].branches.len() ==> f.sessions[si].branches[bi].messages.len()
            >= a.sessions[si].branches[bi].messages.len(),
    ensures
        cursor_wf(f),
{
    match a.streaming_assistant {
        Some((cs, cb, cm)) => {
            if cs as int != si {
                assert(f.sessions[cs as int] == a.sessions[cs as int]);
            } else if cb as int != bi {
                assert(f.sessions[si].branches[cb as int] == a.sessions[si].branches[cb as int]);
            }
        },
        None => {},
    }
}

pub(crate) fn make_fresh_session(n: usize) -> (s: Session)
    requires
        n >= 1,
    ensures
        fresh_session(s@, n as nat),
        session_wf(s@),
{
    let mut title = String::from_str("Session ");
    let num = usize_to_string(n);
    title.append(num.as_str());
    let main = Branch { id: 0, name: String::from_str("main"), messages: Vec::new() };
    let mut branches: Vec<Branch> = Vec::new();
    branches.push(main);
    let s = Session { id: fresh_session_id(), title, branches, active_branch: 0 };
    proof {
        assert(s@.branches =~= seq![s.branches@[0]@]);
    }
    s
}

impl App {
    /// Builds the store from the sessions recovered from disk; when none
    /// were found, starts with one fresh session. The last session is
    /// selected, as the most recently available one.
    pub fn new(sessions: Vec<Session>) -> (app: App)
        ensures
            (forall|i: int| 0 <= i < sessions@.len() ==> session_wf(#[trigger] sessions@[i]@))
                ==> app_wf(app@),
            sessions@.len() > 0 ==> app@.sessions == sessions_view(sessions@) && app@.active_idx
                == sessions@.len() - 1,
            sessions@.len() == 0 ==> app@.sessions.len() == 1 && app@.active_idx == 0
                && fresh_session(app@.sessions[0], 1) && app_wf(app@),
            app@.streaming_assistant is None,
            app@.input.len() == 0,
            app@.input_mode == InputMode::Normal,
            app@.edit_ctx is None,
    {
        let mut sessions = sessions;
        if sessions.is_empty() {
            sessions.push(make_fresh_session(1));
        }
        let active_idx = sessions.len() - 1;
        App {
            sessions,
            active_idx,
            input: String::new(),
            input_mode: InputMode::Normal,
            new_button_selected: false,
            msg_scroll: 0,
            streaming_assistant: None,
            sidebar_collapsed: false,
            edit_ctx: None,
            hovered_user_msg: None,
            input_scroll: 0,
        }
    }

    /// Creates a new empty session and switches to it.
    pub fn new_session(&mut self)
        requires
            app_wf(old(self)@),
            old(self)@.sessions.len() < usize::MAX,
        ensures
            app_wf(final(self)@),
            final(self)@.sessions.len() == old(self)@.sessions.len() + 1,
            final(self)@.sessions.subrange(0, old(self)@.sessions.len() as int) == old(self)@.sessions,
            fresh_session(final(self)@.sessions.last(), old(self)@.sessions.len() + 1),
            final(self)@.active_idx == old(self)@.sessions.len(),
            final(self)@.msg_scroll == 0,
            final(self)@.streaming_assistant == old(self)@.streaming_assistant,
            same_ui_state(final(self)@, old(self)@),
    {
        let n = self.sessions.len() + 1;
        let s = make_fresh_session(n);
        let ghost sv = s@;
        self.sessions.push(s);
        self.active_idx = self.sessions.len() - 1;
        self.msg_scroll = 0;
        proof {
            let old_len = old(self)@.sessions.len() as int;
            assert(self@.sessions.subrange(0, old_len) =~= old(self)@.sessions);
            assert forall|i: int| 0 <= i < self@.sessions.len() implies session_wf(
                #[trigger] self@.sessions[i],
            ) by {
                if i < old_len {
                    assert(self@.sessions[i] == old(self)@.sessions[i]);
                } else {
                    assert(self@.sessions[i] == sv);
                }
            }
        }
    }

    /// The active session.
    pub fn active_session(&self) -> (s: &Session)
        requires
            app_wf(self@),
        ensures
            s@ == self@.sessions[self@.active_idx as int],
    {
        &self.sessions[self.active_idx]
    }

    /// Moves the selection to the previous session, if any.
    pub fn prev_session(&mut self)
        requires
            app_wf(old(self)@),
        ensures
            app_wf(final(self)@),
            final(self)@.sessions == old(self)@.sessions,
            final(self)@.active_idx == if old(self)@.active_idx > 0 {
                (old(self)@.active_idx - 1) as usize
            } else {
                0usize
            },
            final(self)@.msg_scroll == 0,
            final(self)@.streaming_assistant == old(self)@.streaming_assistant,
            same_ui_state(final(self)@, old(self)@),
    {
        if self.sessions.is_empty() {
            return;
        }
        if self.active_idx > 0 {
            self.active_idx -= 1;
        }
        self.msg_scroll = 0;
    }

    /// Moves the selection to the next session, if any.
    pub fn next_session(&mut self)
        requires
            app_wf(old(self)@),
        ensures
            app_wf(final(self)@),
            final(self)@.sessions == old(self)@.sessions,
            final(self)@.active_idx == if old(self)@.active_idx + 1 < old(self)@.sessions.len() {
                (old(self)@.active_idx + 1) as usize
            } else {
                old(self)@.active_idx
            },
            final(self)@.msg_scroll == 0,
            final(self)@.streaming_assistant == old(self)@.streaming_assistant,
            same_ui_state(final(self)@, old(self)@),
    {
        if self.sessions.is_empty() {
            return;
        }
        if self.active_idx < self.sessions.len() - 1 {
            self.active_idx += 1;
        }
        self.msg_scroll = 0;
    }

    /// Pushes a message onto a branch and returns its index.
    pub fn append_message(
        &mut self,
        session_idx: usize,
        branch_idx: usize,
        from: MessageFrom,
        content: String,
    ) -> (idx: usize)
        requires
            app_wf(old(self)@),
            session_idx < old(self)@.sessions.len(),
            branch_idx < old(self)@.sessions[session_idx as int].branches.len(),
        ensures
            app_wf(final(self)@),
            only_branch_changed(old(self)@, final(self)@, session_idx as int, branch_idx as int),
            ({
                let ob = old(self)@.sessions[session_idx as int].branches[branch_idx as int];
                let nb = final(self)@.sessions[session_idx as int].branches[branch_idx as int];
                &&& nb.id == ob.id
                &&& nb.name == ob.name
                &&& nb.messages == ob.messages.push(
                    (MessageView { from, content: content@ }),
                )
                &&& idx == ob.messages.len()
            }),
            final(self)@.streaming_assistant == old(self)@.streaming_assistant,
    {
        let ghost a = self@;
        let ghost cv = content@;
        let session = &mut self.sessions[session_idx];
        let branch = &mut session.branches[branch_idx];
        let idx = branch.messages.len();
        branch.messages.push(Message { from, content });
        proof {
            let si = session_idx as int;
            let bi = branch_idx as int;
            let ob = a.sessions[si].branches[bi];
            let nb = self@.sessions[si].branches[bi];
            assert(nb.messages =~= ob.messages.push(MessageView { from, content: cv }));
            lemma_sessions_wf_frame(a, self@, si);
            lemma_cursor_wf_frame(a, self@, si, bi);
        }
        idx
    }

    /// Starts streaming: pushes an empty assistant message onto the given
    /// branch and points the cursor at it.
    pub fn start_streaming_assistant(&mut self, session_idx: usize, branch_idx: usize)
        requires
            app_wf(old(self)@),
            session_idx < old(self)@.sessions.len(),
            branch_idx < old(self)@.sessions[session_idx as int].branches.len(),
        ensures
            app_wf(final(self)@),
            only_branch_changed(old(self)@, final(self)@, session_idx as int, branch_idx as int),
            ({
                let ob = old(self)@.sessions[session_idx as int].branches[branch_idx as int];
                let nb = final(self)@.sessions[session_idx as int].branches[branch_idx as int];
                &&& nb.id == ob.id
                &&& nb.name == ob.name
                &&& nb.messages == ob.messages.push(
                    (MessageView { from: MessageFrom::Assistant, content: Seq::<char>::empty() }),
                )
                &&& final(self)@.streaming_assistant == Some(
                    (session_idx, branch_idx, ob.messages.len() as usize),
                )
            }),
    {
        let ghost a = self@;
        let session = &mut self.sessions[session_idx];
        let branch = &mut session.branches[branch_idx];
        let msg_idx = branch.messages.len();
        branch.messages.push(Message { from: MessageFrom::Assistant, content: String::new() });
        self.streaming_assistant = Some((session_idx, branch_idx, msg_idx));
        proof {
            let si = session_idx as int;
            let bi = branch_idx as int;
            let ob = a.sessions[si].branches[bi];
            let nb = self@.sessions[si].branches[bi];
            assert(nb.messages =~= ob.messages.push(
                MessageView { from: MessageFrom::Assistant, content: Seq::<char>::empty() },
            ));
            lemma_sessions_wf_frame(a, self@, si);
            assert(cursor_wf(self@));
        }
    }

    /// Appends a chunk to the message under the live cursor; a chunk
    /// whose (session, branch) tag does not match the cursor is stale and
    /// changes nothing at all.
    pub fn append_assistant_chunk(&mut self, session_idx: usize, branch_idx: usize, chunk: String)
        requires
            app_wf(old(self)@),
        ensures
            app_wf(final(self)@),
            ({
                let a = old(self)@;
                let f = final(self)@;
                match a.streaming_assistant {
                    Some((s, b, m)) => if s == session_idx && b == branch_idx {
                        &&& only_branch_changed(a, f, s as int, b as int)
                        &&& branch_extended_at(
                            a.sessions[s as int].branches[b as int],
                            f.sessions[s as int].branches[b as int],
                            m as int,
                            chunk@,
                        )
                        &&& f.streaming_assistant == a.streaming_assistant
                    } else {
                        f == a
                    },
                    None => f == a,
                }
            }),
    {
        let ghost a = self@;
        if let Some((s, b, m)) = self.streaming_assistant {
            if s == session_idx && b == branch_idx {
                let session = &mut self.sessions[s];
                let branch = &mut session.branches[b];
                let msg = &mut branch.messages[m];
                msg.content.append(chunk.as_str());
                proof {
                    lemma_sessions_wf_frame(a, self@, s as int);
                    lemma_cursor_wf_frame(a, self@, s as int, b as int);
                }
            }
        }
    }

    /// Clears the cursor, but only when the finishing worker's tag still
    /// matches it; a stale completion changes nothing.
    pub fn finish_streaming(&mut self, session_idx: usize, branch_idx: usize)
        requires
            app_wf(old(self)@),
        ensures
            app_wf(final(self)@),
            final(self)@ == match old(self)@.streaming_assistant {
                Some((s, b, _)) => if s == session_idx && b == branch_idx {
                    (AppView { streaming_assistant: None, ..old(self)@ })
                } else {
                    old(self)@
                },
                None => old(self)@,
            },
    {
        if let Some((s, b, _m)) = self.streaming_assistant {
            if s == session_idx && b == branch_idx {
                self.streaming_assistant = None;
            }
        }
    }

    /// Switches the active session to the previous branch, if any.
    pub fn prev_branch(&mut self)
        requires
            app_wf(old(self)@),
        ensures
            app_wf(final(self)@),
            same_sessions_but_selection(
                old(self)@,
                final(self)@,
                old(self)@.active_idx as int,
                if old(self)@.sessions[old(self)@.active_idx as int].active_branch > 0 {
                    (old(self)@.sessions[old(self)@.active_idx as int].active_branch - 1) as usize
                } else {
                    0usize
                },
            ),
    {
        let ai = self.active_idx;
        let session = &mut self.sessions[ai];
        if session.branches.is_empty() {
            self.msg_scroll = 0;
            proof {
                let si = old(self)@.active_idx as int;
                assert(self@.sessions[si].branches == old(self)@.sessions[si].branches);
                assert(session_wf(old(self)@.sessions[si]));
                lemma_sessions_wf_frame(old(self)@, self@, si);
                lemma_cursor_wf_frame(old(self)@, self@, si, -1);
            }
            return;
        }
        let old_ab = session.active_branch;
        if session.active_branch > 0 {
            session.active_branch -= 1;
        }
        let new_ab = self.sessions[ai].active_branch;
        self.msg_scroll = 0;
        if new_ab != old_ab {
            if let Some((cs, cb, _cm)) = self.streaming_assistant {
                if cs == ai && cb == old_ab {
                    self.streaming_assistant = None;
                }
            }
        }
        proof {
            let si = old(self)@.active_idx as int;
            assert(self@.sessions[si].branches == old(self)@.sessions[si].branches);
            assert(self@.sessions[si].active_branch < self@.sessions[si].branches.len());
            lemma_sessions_wf_frame(old(self)@, self@, si);
            match self@.streaming_assistant {
                Some((cs, cb, cm)) => {
                    assert(self@.streaming_assistant == old(self)@.streaming_assistant);
                    lemma_cursor_wf_frame(old(self)@, self@, si, -1);
                },
                None => {},
            }
        }
    }

    /// Switches the active session to the next branch, if any.
    pub fn next_branch(&mut self)
        requires
            app_wf(old(self)@),
        ensures
            app_wf(final(self)@),
            same_sessions_but_selection(
                old(self)@,
                final(self)@,
                old(self)@.active_idx as int,
                ({
                    let ab = old(self)@.sessions[old(self)@.active_idx as int].active_branch;
                    let n = old(self)@.sessions[old(self)@.active_idx as int].branches.len();
                    if ab + 1 < n {
                        (ab + 1) as usize
                    } else {
                        ab
                    }
                }),
            ),
    {
        let ai = self.active_idx;
        let session = &mut self.sessions[ai];
        if session.branches.is_empty() {
            self.msg_scroll = 0;
            proof {
                let si = old(self)@.active_idx as int;
                assert(self@.sessions[si].branches == old(self)@.sessions[si].branches);
                assert(session_wf(old(self)@.sessions[si]));
                lemma_sessions_wf_frame(old(self)@, self@, si);
                lemma_cursor_wf_frame(old(self)@, self@, si, -1);
            }
            return;
        }
        let old_ab = session.active_branch;
        if session.active_branch < session.branches.len() - 1 {
            session.active_branch += 1;
        }
        let new_ab = self.sessions[ai].active_branch;
        self.msg_scroll = 0;
        if new_ab != old_ab {
            if let Some((cs, cb, _cm)) = self.streaming_assistant {
                if cs == ai && cb == old_ab {
                    self.streaming_assistant = None;
                }
            }
        }
        proof {
            let si = old(self)@.active_idx as int;
            assert(self@.sessions[si].branches == old(self)@.sessions[si].branches);
            assert(self@.sessions[si].active_branch < self@.sessions[si].branches.len());
            lemma_sessions_wf_frame(old(self)@, self@, si);
            match self@.streaming_assistant {
                Some((cs, cb, cm)) => {
                    assert(self@.streaming_assistant == old(self)@.streaming_assistant);
                    lemma_cursor_wf_frame(old(self)@, self@, si, -1);
                },
                None => {},
            }
        }
    }

    /// Forks a new branch at an edited message: the new branch carries
    /// the source branch's messages up to the edit point, with the edited
    /// message rewritten to `text`, and becomes the active branch. The
    /// source branch is left untouched.
    pub fn fork_from_edit(&mut self, ctx: EditContext, text: String) -> (new_idx: usize)
        requires
            app_wf(old(self)@),
            ctx.session_idx < old(self)@.sessions.len(),
            ctx.branch_idx < old(self)@.sessions[ctx.session_idx as int].branches.len(),
            ctx.message_idx < old(self)@.sessions[ctx.session_idx as int].branches[ctx.branch_idx as int].messages.len(),
            old(self)@.sessions[ctx.session_idx as int].branches.len() < usize::MAX,
        ensures
            app_wf(final(self)@),
            new_idx == old(self)@.sessions[ctx.session_idx as int].branches.len(),
            ({
                let a = old(self)@;
                let f = final(self)@;
                let si = ctx.session_idx as int;
                let source = a.sessions[si].branches[ctx.branch_idx as int];
                let nb = f.sessions[si].branches[new_idx as int];
                &&& f.sessions.len() == a.sessions.len()
                &&& forall|i: int|
                    0 <= i < a.sessions.len() && i != si ==> f.sessions[i] == a.sessions[i]
                &&& f.sessions[si].id == a.sessions[si].id
                &&& f.sessions[si].title == a.sessions[si].title
                &&& f.sessions[si].branches == a.sessions[si].branches.push(nb)
                &&& f.sessions[si].active_branch == new_idx
                &&& nb.id == new_idx
                &&& nb.name == "branch-"@ + dec_digits(new_idx as nat)
                &&& nb.messages.len() == ctx.message_idx + 1
                &&& forall|j: int|
                    0 <= j < ctx.message_idx ==> nb.messages[j] == source.messages[j]
                &&& nb.messages[ctx.message_idx as int].from == source.messages[ctx.message_idx as int].from
                &&& nb.messages[ctx.message_idx as int].content == text@
                &&& f.streaming_assistant == a.streaming_assistant
                &&& f.active_idx == a.active_idx
                &&& f.msg_scroll == a.msg_scroll
                &&& same_ui_state(a, f)
            }),
    {
        let si = ctx.session_idx;
        let bi = ctx.branch_idx;
        let mi = ctx.message_idx;
        let ghost source = self@.sessions[si as int].branches[bi as int];
        let mut new_messages: Vec<Message> = Vec::new();
        let mut j: usize = 0;
        while j < mi
            invariant
                j <= mi,
                *self == *old(self),
                app_wf(self@),
                si < self@.sessions.len(),
                bi < self@.sessions[si as int].branches.len(),
                mi < self@.sessions[si as int].branches[bi as int].messages.len(),
                source == self@.sessions[si as int].branches[bi as int],
                msgs_view(new_messages@) =~= source.messages.subrange(0, j as int),
            decreases mi - j,
        {
            proof {
                assert(msgs_view(new_messages@).len() == j as int);
                assert(new_messages@.len() == j);
            }
            let m = self.sessions[si].branches[bi].messages[j].duplicate();
            let ghost mview = m@;
            let ghost prev = new_messages@;
            new_messages.push(m);
            proof {
                assert(prev.len() == j);
                assert(new_messages@ =~= prev.push(new_messages@[j as int]));
                let mapped = msgs_view(new_messages@);
                let want = source.messages.subrange(0, j as int + 1);
                assert forall|k: int| 0 <= k < mapped.len() implies mapped[k] == want[k] by {
                    if k < j {
                        assert(new_messages@[k] == prev[k]);
                        assert(msgs_view(prev)[k] == source.messages.subrange(0, j as int)[k]);
                    } else {
                        assert(new_messages@[k]@ == mview);
                    }
                }
                assert(mapped =~= want);
            }
            j += 1;
        }
        let from = self.sessions[si].branches[bi].messages[mi].from;
        let ghost tv = text@;
        let ghost prev2 = new_messages@;
        new_messages.push(Message { from, content: text });
        proof {
            let mv2 = MessageView { from, content: tv };
            assert forall|k: int| 0 <= k < new_messages@.len() implies msgs_view(new_messages@)[k]
                == msgs_view(prev2).push(mv2)[k] by {
                if k < prev2.len() {
                    assert(new_messages@[k] == prev2[k]);
                } else {
                    assert(new_messages@[k]@ == mv2);
                }
            }
            assert(msgs_view(new_messages@) =~= msgs_view(prev2).push(mv2));
        }
        let new_idx = self.sessions[si].branches.len();
        let mut name = String::from_str("branch-");
        let num = usize_to_string(new_idx);
        name.append(num.as_str());
        let ghost nm = msgs_view(new_messages@);
        let session = &mut self.sessions[si];
        session.branches.push(Branch { id: new_idx, name, messages: new_messages });
        session.active_branch = new_idx;
        proof {
            let a = old(self)@;
            let f = self@;
            let sii = si as int;
            let nb = f.sessions[sii].branches[new_idx as int];
            assert(nb.messages =~= nm);
            assert(f.sessions[sii].branches =~= a.sessions[sii].branches.push(nb));
            lemma_sessions_wf_frame(a, f, sii);
            match a.streaming_assistant {
                Some((cs, cb, cm)) => {
                    if cs as int != sii {
                        assert(f.sessions[cs as int] == a.sessions[cs as int]);
                    } else {
                        assert(f.sessions[sii].branches[cb as int] == a.sessions[sii].branches[cb as int]);
                    }
                },
                None => {},
            }
        }
        new_idx
    }

    /// Current width of the sidebar in columns.
    pub fn sidebar_width(&self) -> (w: u16)
        ensures
            w == if self@.sidebar_collapsed {
                3u16
            } else {
                25u16
            },
    {
        if self.sidebar_collapsed {
            3
        } else {
            25
        }
    }

    /// Collapses or expands the sidebar.
    pub fn toggle_sidebar(&mut self)
        requires
            app_wf(old(self)@),
        ensures
            app_wf(final(self)@),
            final(self)@ == (AppView {
                sidebar_collapsed: !old(self)@.sidebar_collapsed,
                msg_scroll: 0usize,
                ..old(self)@
            }),
    {
        self.sidebar_collapsed = !self.sidebar_collapsed;
        self.msg_scroll = 0;
    }
}

/// A branch is never retroactively mutated by edits on its siblings:
/// any store step that changes only branch `bi` of session `si` — a
/// chunk append, a new message, a started stream — leaves every other
/// branch of every session byte-identical. In particular a fork's source
/// branch, and the prefix the fork copied from it, stay exactly as they
/// were at fork time.
pub proof fn lemma_sibling_branches_untouched(
    a: AppView,
    f: AppView,
    si: int,
    bi: int,
    s2: int,
    b2: int,
)
    requires
        only_branch_changed(a, f, si, bi),
        0 <= si < a.sessions.len(),
        0 <= s2 < a.sessions.len(),
        0 <= b2 < a.sessions[s2].branches.len(),
        s2 != si || b2 != bi,
    ensures
        f.sessions[s2].branches[b2] == a.sessions[s2].branches[b2],
{
    if s2 != si {
        assert(f.sessions[s2] == a.sessions[s2]);
    }
}

/// The label under which a role appears in prompt text.
pub open spec fn role_label(from: MessageFrom) -> Seq<char> {
    match from {
        MessageFrom::User => "User"@,
        MessageFrom::Assistant => "Assistant"@,
        MessageFrom::System => "System"@,
    }
}

/// One line of rendered history: "<label>: <content>".
pub open spec fn message_line(m: MessageView) -> Seq<char> {
    role_label(m.from) + ": "@ + m.content
}

/// A whole message list rendered as prompt history, newline-separated.
pub open spec fn history_text(msgs: Seq<MessageView>) -> Seq<char>
    decreases msgs.len(),
{
    if msgs.len() == 0 {
        Seq::empty()
    } else if msgs.len() == 1 {
        message_line(msgs[0])
    } else {
        history_text(msgs.drop_last()) + "\n"@ + message_line(msgs.last())
    }
}

/// The label under which a role appears in prompt text.
pub fn role_label_str(from: MessageFrom) -> (r: &'static str)
    ensures
        r@ == role_label(from),
{
    match from {
        MessageFrom::User => "User",
        MessageFrom::Assistant => "Assistant",
        MessageFrom::System => "System",
    }
}

/// Renders a message list as prompt history.
pub fn history_of_messages(msgs: &Vec<Message>) -> (r: String)
    ensures
        r@ == history_text(msgs_view(msgs@)),
{
    let ghost mv = msgs_view(msgs@);
    let mut out = String::new();
    let n = msgs.len();
    let mut i: usize = 0;
    while i < n
        invariant
            i <= n,
            n == msgs@.len(),
            out@ == history_text(mv.subrange(0, i as int)),
            mv == msgs_view(msgs@),
        decreases n - i,
    {
        if i > 0 {
            out.append("\n");
        }
        out.append(role_label_str(msgs[i].from));
        out.append(": ");
        out.append(msgs[i].content.as_str());
        proof {
            assert(mv.subrange(0, i + 1 as int).drop_last() =~= mv.subrange(0, i as int));
            assert(mv.subrange(0, i + 1 as int).last() == mv[i as int]);
            assert(out@ =~= history_text(mv.subrange(0, i + 1 as int)));
        }
        i += 1;
    }
    proof {
        assert(mv.subrange(0, n as int) =~= mv);
    }
    out
}

impl App {
    /// The active branch's history as one prompt string.
    pub fn history_string(&self) -> (r: String)
        requires
            app_wf(self@),
        ensures
            ({
                let s = self@.sessions[self@.active_idx as int];
                r@ == history_text(s.branches[s.active_branch as int].messages)
            }),
    {
        let session = &self.sessions[self.active_idx];
        proof {
            assert(session_wf(self@.sessions[self@.active_idx as int]));
        }
        let branch = &session.branches[session.active_branch];
        history_of_messages(&branch.messages)
    }
}

/// A live cursor survives a branch switch unless it targets the branch
/// being left: switching away invalidates the in-flight worker's future
/// events, which the cursor check will now drop.
pub open spec fn cursor_after_switch(a: AppView, si: int, new_ab: usize) -> Option<
    (usize, usize, usize),
> {
    match a.streaming_assistant {
        Some((cs, cb, cm)) => if cs as int == si && cb == a.sessions[si].active_branch && new_ab
            != cb {
            None
        } else {
            Some((cs, cb, cm))
        },
        None => None,
    }
}

/// The selection (active branch) of session `si` may change, and the
/// message scroll resets; a cursor on the branch being left is dropped;
/// everything else is equal.
pub open spec fn same_sessions_but_selection(a: AppView, f: AppView, si: int, new_ab: usize) -> bool {
    &&& f.sessions.len() == a.sessions.len()
    &&& forall|i: int| 0 <= i < a.sessions.len() && i != si ==> f.sessions[i] == a.sessions[i]
    &&& f.sessions[si] == (SessionView { active_branch: new_ab, ..a.sessions[si] })
    &&& f.active_idx == a.active_idx
    &&& f.msg_scroll == 0
    &&& f.streaming_assistant == cursor_after_switch(a, si, new_ab)
    &&& same_ui_state(a, f)
}

} // verus!
