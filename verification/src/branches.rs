//! Branch and session commands addressed by name: create, switch,
//! delete, rename, prune. The rules live here: "main" can never be
//! deleted or renamed, deleting the active branch falls back to "main",
//! and the streaming cursor is retargeted or dropped when indices move.

use vstd::prelude::*;

use crate::store::{
    app_wf, cursor_wf, msgs_view, session_wf, App, Branch, BranchView, Message, Session,
    SessionView,
};
use crate::strutil::str_eq;

verus! {

/// Outcome of a branch or session command.
#[derive(Clone, Copy, Debug, PartialEq, Eq, Structural)]
pub enum OpOutcome {
    /// The command was applied.
    Done,
    /// A required name argument was empty.
    MissingName,
    /// The target name is already taken.
    AlreadyExists,
    /// No branch or session has the given name.
    NotFound,
    /// The "main" branch cannot be deleted or renamed.
    RefusedMain,
    /// A session cannot lose its last branch.
    RefusedLast,
}

/// The first index at or after `i` whose branch has the given name.
pub open spec fn first_branch_from(branches: Seq<BranchView>, name: Seq<char>, i: int) -> Option<
    int,
>
    decreases branches.len() - i,
    when 0 <= i <= branches.len()
{
    if i >= branches.len() {
        None
    } else if branches[i].name == name {
        Some(i)
    } else {
        first_branch_from(branches, name, i + 1)
    }
}

/// The first branch of a session with the given name.
pub open spec fn find_branch_named(s: SessionView, name: Seq<char>) -> Option<int> {
    first_branch_from(s.branches, name, 0)
}

/// The first index at or after `i` whose session has the given id.
pub open spec fn first_session_from(sessions: Seq<SessionView>, id: Seq<char>, i: int) -> Option<
    int,
>
    decreases sessions.len() - i,
    when 0 <= i <= sessions.len()
{
    if i >= sessions.len() {
        None
    } else if sessions[i].id == id {
        Some(i)
    } else {
        first_session_from(sessions, id, i + 1)
    }
}

impl Session {
    /// The first branch with the given name, if any.
    pub fn find_branch(&self, name: &str) -> (r: Option<usize>)
        ensures
            match r {
                Some(i) => i < self@.branches.len() && find_branch_named(self@, name@) == Some(
                    i as int,
                ),
                None => find_branch_named(self@, name@) is None,
            },
    {
        let n = self.branches.len();
        let mut i: usize = 0;
        while i < n
            invariant
                i <= n,
                n == self@.branches.len(),
                first_branch_from(self@.branches, name@, 0) == first_branch_from(
                    self@.branches,
                    name@,
                    i as int,
                ),
            decreases n - i,
        {
            if str_eq(self.branches[i].name.as_str(), name) {
                return Some(i);
            }
            i += 1;
        }
        None
    }
}

impl Branch {
    /// Independent copies of all messages.
    pub fn duplicate_messages(&self) -> (r: Vec<Message>)
        ensures
            msgs_view(r@) == self@.messages,
    {
        let n = self.messages.len();
        let mut out: Vec<Message> = Vec::new();
        let mut i: usize = 0;
        while i < n
            invariant
                i <= n,
                n == self.messages@.len(),
                msgs_view(out@) =~= self@.messages.subrange(0, i as int),
            decreases n - i,
        {
            proof {
                assert(msgs_view(out@).len() == i as int);
                assert(out@.len() == i);
            }
            let ghost prev = out@;
            let m = self.messages[i].duplicate();
            let ghost mview = m@;
            out.push(m);
            proof {
                assert(out@.len() == i + 1);
                let mapped = msgs_view(out@);
                let want = self@.messages.subrange(0, i as int + 1);
                assert forall|k: int| 0 <= k < mapped.len() implies mapped[k] == want[k] by {
                    if k < i {
                        assert(out@[k] == prev[k]);
                        assert(msgs_view(prev)[k] == self@.messages.subrange(0, i as int)[k]);
                    } else {
                        assert(out@[k]@ == mview);
                    }
                }
                assert(mapped =~= want);
            }
            i += 1;
        }
        proof {
            assert(self@.messages.subrange(0, n as int) =~= self@.messages);
        }
        out
    }
}

impl App {
    /// Creates a branch named `name` carrying a copy of the active
    /// branch's history, and switches to it.
    pub fn branch_new(&mut self, name: &str) -> (r: OpOutcome)
        requires
            app_wf(old(self)@),
            old(self)@.sessions[old(self)@.active_idx as int].branches.len() < usize::MAX,
        ensures
            app_wf(final(self)@),
            ({
                let a = old(self)@;
                let f = final(self)@;
                let si = a.active_idx as int;
                let s = a.sessions[si];
                let cur = s.branches[s.active_branch as int];
                if name@.len() == 0 {
                    r == OpOutcome::MissingName && f == a
                } else if find_branch_named(s, name@) is Some {
                    r == OpOutcome::AlreadyExists && f == a
                } else {
                    let nb = f.sessions[si].branches.last();
                    &&& r == OpOutcome::Done
                    &&& f.sessions.len() == a.sessions.len()
                    &&& forall|i: int|
                        0 <= i < a.sessions.len() && i != si ==> f.sessions[i] == a.sessions[i]
                    &&& f.sessions[si].id == s.id
                    &&& f.sessions[si].title == s.title
                    &&& f.sessions[si].branches == s.branches.push(nb)
                    &&& nb.name == name@
                    &&& nb.id == s.branches.len()
                    &&& nb.messages == cur.messages
                    &&& f.sessions[si].active_branch == s.branches.len()
                    &&& f.streaming_assistant == a.streaming_assistant
                    &&& f.active_idx == a.active_idx
                    &&& f.msg_scroll == a.msg_scroll
                    &&& crate::store::same_ui_state(a, f)
                }
            }),
    {
        let ghost a = self@;
        if name.is_empty() {
            return OpOutcome::MissingName;
        }
        let ai = self.active_idx;
        proof {
            assert(session_wf(a.sessions[ai as int]));
        }
        if self.sessions[ai].find_branch(name).is_some() {
            return OpOutcome::AlreadyExists;
        }
        let new_idx = self.sessions[ai].branches.len();
        let cur_idx = self.sessions[ai].active_branch;
        let messages = self.sessions[ai].branches[cur_idx].duplicate_messages();
        let nb = Branch { id: new_idx, name: String::from_str(name), messages };
        let ghost nbv = nb@;
        let session = &mut self.sessions[ai];
        session.branches.push(nb);
        session.active_branch = new_idx;
        proof {
            let si = ai as int;
            let f = self@;
            assert(f.sessions[si].branches =~= a.sessions[si].branches.push(nbv));
            crate::store::lemma_sessions_wf_frame(a, f, si);
            match a.streaming_assistant {
                Some((cs, cb, cm)) => {
                    if cs as int != si {
                        assert(f.sessions[cs as int] == a.sessions[cs as int]);
                    } else {
                        assert(f.sessions[si].branches[cb as int] == a.sessions[si].branches[cb as int]);
                    }
                },
                None => {},
            }
        }
        OpOutcome::Done
    }

    /// Switches the active session to the branch with the given name.
    pub fn branch_switch(&mut self, name: &str) -> (r: OpOutcome)
        requires
            app_wf(old(self)@),
        ensures
            app_wf(final(self)@),
            ({
                let a = old(self)@;
                let f = final(self)@;
                let si = a.active_idx as int;
                let s = a.sessions[si];
                if name@.len() == 0 {
                    r == OpOutcome::MissingName && f == a
                } else {
                    match find_branch_named(s, name@) {
                        Some(bi) => {
                            &&& r == OpOutcome::Done
                            &&& f.sessions.len() == a.sessions.len()
                            &&& forall|i: int|
                                0 <= i < a.sessions.len() && i != si ==> f.sessions[i]
                                    == a.sessions[i]
                            &&& f.sessions[si] == (SessionView {
                                active_branch: bi as usize,
                                ..s
                            })
                            &&& f.streaming_assistant == crate::store::cursor_after_switch(
                                a,
                                si,
                                bi as usize,
                            )
                            &&& f.active_idx == a.active_idx
                            &&& f.msg_scroll == a.msg_scroll
                            &&& crate::store::same_ui_state(a, f)
                        },
                        None => r == OpOutcome::NotFound && f == a,
                    }
                }
            }),
    {
        let ghost a = self@;
        if name.is_empty() {
            return OpOutcome::MissingName;
        }
        let ai = self.active_idx;
        let found = self.sessions[ai].find_branch(name);
        match found {
            Some(bi) => {
                let old_ab = self.sessions[ai].active_branch;
                let session = &mut self.sessions[ai];
                session.active_branch = bi;
                if bi != old_ab {
                    if let Some((cs, cb, _cm)) = self.streaming_assistant {
                        if cs == ai && cb == old_ab {
                            self.streaming_assistant = None;
                        }
                    }
                }
                proof {
                    let si = ai as int;
                    crate::store::lemma_sessions_wf_frame(a, self@, si);
                    match self@.streaming_assistant {
                        Some((cs, cb, cm)) => {
                            assert(self@.streaming_assistant == a.streaming_assistant);
                            crate::store::lemma_cursor_wf_frame(a, self@, si, -1);
                        },
                        None => {},
                    }
                }
                OpOutcome::Done
            },
            None => OpOutcome::NotFound,
        }
    }

    /// Deletes the named branch from the active session. Deleting "main"
    /// is rejected for any session state, as is deleting the last branch;
    /// deleting the active branch falls back to "main". A cursor into the
    /// deleted branch is dropped; one into a later branch is retargeted.
    pub fn branch_delete(&mut self, name: &str) -> (r: OpOutcome)
        requires
            app_wf(old(self)@),
        ensures
            app_wf(final(self)@),
            ({
                let a = old(self)@;
                let f = final(self)@;
                let si = a.active_idx as int;
                let s = a.sessions[si];
                if name@ == "main"@ {
                    r == OpOutcome::RefusedMain && f == a
                } else {
                    match find_branch_named(s, name@) {
                        None => r == OpOutcome::NotFound && f == a,
                        Some(bi) => if s.branches.len() == 1 {
                            r == OpOutcome::RefusedLast && f == a
                        } else {
                            let nb = s.branches.remove(bi);
                            &&& r == OpOutcome::Done
                            &&& f.sessions.len() == a.sessions.len()
                            &&& forall|i: int|
                                0 <= i < a.sessions.len() && i != si ==> f.sessions[i]
                                    == a.sessions[i]
                            &&& f.sessions[si].id == s.id
                            &&& f.sessions[si].title == s.title
                            &&& f.sessions[si].branches == nb
                            &&& f.sessions[si].active_branch == if s.active_branch == bi {
                                match first_branch_from(nb, "main"@, 0) {
                                    Some(k) => k as usize,
                                    None => 0usize,
                                }
                            } else if s.active_branch > bi {
                                (s.active_branch - 1) as usize
                            } else {
                                s.active_branch
                            }
                            &&& f.streaming_assistant == match a.streaming_assistant {
                                Some((cs, cb, cm)) => if cs == a.active_idx {
                                    if cb == bi {
                                        None
                                    } else if cb > bi {
                                        Some((cs, (cb - 1) as usize, cm))
                                    } else {
                                        Some((cs, cb, cm))
                                    }
                                } else {
                                    Some((cs, cb, cm))
                                },
                                None => None,
                            }
                            &&& f.active_idx == a.active_idx
                            &&& f.msg_scroll == a.msg_scroll
                            &&& crate::store::same_ui_state(a, f)
                        },
                    }
                }
            }),
    {
        let ghost a = self@;
        if str_eq(name, "main") {
            return OpOutcome::RefusedMain;
        }
        let ai = self.active_idx;
        proof {
            assert(session_wf(a.sessions[ai as int]));
        }
        let found = self.sessions[ai].find_branch(name);
        let bi = match found {
            Some(b) => b,
            None => {
                return OpOutcome::NotFound;
            },
        };
        if self.sessions[ai].branches.len() == 1 {
            return OpOutcome::RefusedLast;
        }
        let old_ab = self.sessions[ai].active_branch;
        {
            let session = &mut self.sessions[ai];
            session.branches.remove(bi);
        }
        proof {
            let si = ai as int;
            assert(self@.sessions[si].branches =~= a.sessions[si].branches.remove(bi as int));
        }
        if old_ab == bi {
            let main_found = self.sessions[ai].find_branch("main");
            let new_ab = match main_found {
                Some(k) => k,
                None => 0usize,
            };
            let session = &mut self.sessions[ai];
            session.active_branch = new_ab;
        } else if old_ab > bi {
            let session = &mut self.sessions[ai];
            session.active_branch = old_ab - 1;
        }
        if let Some((cs, cb, cm)) = self.streaming_assistant {
            if cs == ai {
                if cb == bi {
                    self.streaming_assistant = None;
                } else if cb > bi {
                    self.streaming_assistant = Some((cs, cb - 1, cm));
                }
            }
        }
        proof {
            let si = ai as int;
            let f = self@;
            let nb = a.sessions[si].branches.remove(bi as int);
            assert(f.sessions[si].branches =~= nb);
            assert(session_wf(f.sessions[si]));
            crate::store::lemma_sessions_wf_frame(a, f, si);
            match f.streaming_assistant {
                Some((cs, cb, cm)) => {
                    if cs as int != si {
                        assert(f.sessions[cs as int] == a.sessions[cs as int]);
                        assert(cursor_wf(f));
                    } else {
                        if cb < bi {
                            assert(nb[cb as int] == a.sessions[si].branches[cb as int]);
                        } else {
                            assert(nb[cb as int] == a.sessions[si].branches[cb as int + 1]);
                        }
                    }
                },
                None => {},
            }
        }
        OpOutcome::Done
    }

    /// Renames a branch of the active session; "main" cannot be renamed
    /// and the new name must be free.
    pub fn branch_rename(&mut self, old_name: &str, new_name: &str) -> (r: OpOutcome)
        requires
            app_wf(old(self)@),
        ensures
            app_wf(final(self)@),
            ({
                let a = old(self)@;
                let f = final(self)@;
                let si = a.active_idx as int;
                let s = a.sessions[si];
                if old_name@.len() == 0 || new_name@.len() == 0 {
                    r == OpOutcome::MissingName && f == a
                } else if old_name@ == "main"@ {
                    r == OpOutcome::RefusedMain && f == a
                } else {
                    match find_branch_named(s, old_name@) {
                        None => r == OpOutcome::NotFound && f == a,
                        Some(bi) => if find_branch_named(s, new_name@) is Some {
                            r == OpOutcome::AlreadyExists && f == a
                        } else {
                            &&& r == OpOutcome::Done
                            &&& f.sessions.len() == a.sessions.len()
                            &&& forall|i: int|
                                0 <= i < a.sessions.len() && i != si ==> f.sessions[i]
                                    == a.sessions[i]
                            &&& f.sessions[si].id == s.id
                            &&& f.sessions[si].title == s.title
                            &&& f.sessions[si].active_branch == s.active_branch
                            &&& f.sessions[si].branches == s.branches.update(
                                bi,
                                (BranchView { name: new_name@, ..s.branches[bi] }),
                            )
                            &&& f.streaming_assistant == a.streaming_assistant
                            &&& f.active_idx == a.active_idx
                            &&& f.msg_scroll == a.msg_scroll
                            &&& crate::store::same_ui_state(a, f)
                        },
                    }
                }
            }),
    {
        let ghost a = self@;
        if old_name.is_empty() || new_name.is_empty() {
            return OpOutcome::MissingName;
        }
        if str_eq(old_name, "main") {
            return OpOutcome::RefusedMain;
        }
        let ai = self.active_idx;
        let found = self.sessions[ai].find_branch(old_name);
        let bi = match found {
            Some(b) => b,
            None => {
                return OpOutcome::NotFound;
            },
        };
        if self.sessions[ai].find_branch(new_name).is_some() {
            return OpOutcome::AlreadyExists;
        }
        let session = &mut self.sessions[ai];
        let branch = &mut session.branches[bi];
        branch.name = String::from_str(new_name);
        proof {
            let si = ai as int;
            let f = self@;
            assert(f.sessions[si].branches =~= a.sessions[si].branches.update(
                bi as int,
                BranchView { name: new_name@, ..a.sessions[si].branches[bi as int] },
            ));
            crate::store::lemma_sessions_wf_frame(a, f, si);
            crate::store::lemma_cursor_wf_frame(a, f, si, bi as int);
        }
        OpOutcome::Done
    }

    /// Keeps only the first "main" branch of the active session, removing
    /// every other branch; "main" becomes active. A cursor into another
    /// branch of the session is dropped; one into "main" is retargeted.
    pub fn clear_other_branches(&mut self) -> (r: OpOutcome)
        requires
            app_wf(old(self)@),
        ensures
            app_wf(final(self)@),
            ({
                let a = old(self)@;
                let f = final(self)@;
                let si = a.active_idx as int;
                let s = a.sessions[si];
                match find_branch_named(s, "main"@) {
                    None => r == OpOutcome::NotFound && f == a,
                    Some(k) => {
                        &&& r == OpOutcome::Done
                        &&& f.sessions.len() == a.sessions.len()
                        &&& forall|i: int|
                            0 <= i < a.sessions.len() && i != si ==> f.sessions[i] == a.sessions[i]
                        &&& f.sessions[si].id == s.id
                        &&& f.sessions[si].title == s.title
                        &&& f.sessions[si].branches == seq![s.branches[k]]
                        &&& f.sessions[si].active_branch == 0
                        &&& f.streaming_assistant == match a.streaming_assistant {
                            Some((cs, cb, cm)) => if cs == a.active_idx {
                                if cb == k {
                                    Some((cs, 0usize, cm))
                                } else {
                                    None
                                }
                            } else {
                                Some((cs, cb, cm))
                            },
                            None => None,
                        }
                        &&& f.active_idx == a.active_idx
                        &&& f.msg_scroll == a.msg_scroll
                        &&& crate::store::same_ui_state(a, f)
                    },
                }
            }),
    {
        let ghost a = self@;
        let ai = self.active_idx;
        proof {
            assert(session_wf(a.sessions[ai as int]));
        }
        let found = self.sessions[ai].find_branch("main");
        let k = match found {
            Some(k) => k,
            None => {
                return OpOutcome::NotFound;
            },
        };
        let main_branch = {
            let b = &self.sessions[ai].branches[k];
            Branch { id: b.id, name: b.name.clone(), messages: b.duplicate_messages() }
        };
        let ghost mb = main_branch@;
        let mut only: Vec<Branch> = Vec::new();
        only.push(main_branch);
        {
            let session = &mut self.sessions[ai];
            session.branches = only;
            session.active_branch = 0;
        }
        if let Some((cs, cb, cm)) = self.streaming_assistant {
            if cs == ai {
                if cb == k {
                    self.streaming_assistant = Some((cs, 0, cm));
                } else {
                    self.streaming_assistant = None;
                }
            }
        }
        proof {
            let si = ai as int;
            let f = self@;
            assert(mb == a.sessions[si].branches[k as int]);
            assert(f.sessions[si].branches =~= seq![a.sessions[si].branches[k as int]]);
            assert(session_wf(f.sessions[si]));
            crate::store::lemma_sessions_wf_frame(a, f, si);
            match f.streaming_assistant {
                Some((cs, cb, cm)) => {
                    if cs as int != si {
                        assert(f.sessions[cs as int] == a.sessions[cs as int]);
                    } else {
                        assert(f.sessions[si].branches[0] == a.sessions[si].branches[k as int]);
                    }
                },
                None => {},
            }
        }
        OpOutcome::Done
    }

    /// The first session with the given id, if any.
    pub fn find_session(&self, id: &str) -> (r: Option<usize>)
        ensures
            match r {
                Some(i) => i < self@.sessions.len() && first_session_from(self@.sessions, id@, 0)
                    == Some(i as int),
                None => first_session_from(self@.sessions, id@, 0) is None,
            },
    {
        let n = self.sessions.len();
        let mut i: usize = 0;
        while i < n
            invariant
                i <= n,
                n == self@.sessions.len(),
                first_session_from(self@.sessions, id@, 0) == first_session_from(
                    self@.sessions,
                    id@,
                    i as int,
                ),
            decreases n - i,
        {
            if str_eq(self.sessions[i].id.as_str(), id) {
                return Some(i);
            }
            i += 1;
        }
        None
    }

    /// Deletes the first session with the given id. When the last session
    /// goes, a fresh one takes its place; otherwise the selection and the
    /// cursor are retargeted or dropped.
    pub fn session_delete(&mut self, id: &str) -> (r: OpOutcome)
        requires
            app_wf(old(self)@),
        ensures
            app_wf(final(self)@),
            ({
                let a = old(self)@;
                let f = final(self)@;
                match first_session_from(a.sessions, id@, 0) {
                    None => r == OpOutcome::NotFound && f == a,
                    Some(i) => {
                        &&& r == OpOutcome::Done
                        &&& if a.sessions.len() == 1 {
                            &&& f.sessions.len() == 1
                            &&& crate::store::fresh_session(f.sessions[0], 1)
                            &&& f.active_idx == 0
                            &&& f.streaming_assistant is None
                        } else {
                            &&& f.sessions == a.sessions.remove(i)
                            &&& f.active_idx == if a.active_idx > i {
                                (a.active_idx - 1) as usize
                            } else if a.active_idx == i {
                                if i < a.sessions.len() - 1 {
                                    i as usize
                                } else {
                                    (a.sessions.len() - 2) as usize
                                }
                            } else {
                                a.active_idx
                            }
                            &&& f.streaming_assistant == match a.streaming_assistant {
                                Some((cs, cb, cm)) => if cs == i {
                                    None
                                } else if cs > i {
                                    Some(((cs - 1) as usize, cb, cm))
                                } else {
                                    Some((cs, cb, cm))
                                },
                                None => None,
                            }
                        }
                        &&& f.msg_scroll == a.msg_scroll
                        &&& crate::store::same_ui_state(a, f)
                    },
                }
            }),
    {
        let ghost a = self@;
        let found = self.find_session(id);
        let i = match found {
            Some(i) => i,
            None => {
                return OpOutcome::NotFound;
            },
        };
        self.sessions.remove(i);
        proof {
            assert(self@.sessions =~= a.sessions.remove(i as int));
        }
        if self.sessions.is_empty() {
            self.sessions.push(crate::store::make_fresh_session(1));
            self.active_idx = 0;
            self.streaming_assistant = None;
            proof {
                assert(self@.sessions =~= seq![self.sessions@[0]@]);
            }
            return OpOutcome::Done;
        }
        if self.active_idx > i {
            self.active_idx = self.active_idx - 1;
        } else if self.active_idx == i {
            if i < self.sessions.len() {
                self.active_idx = i;
            } else {
                self.active_idx = self.sessions.len() - 1;
            }
        }
        if let Some((cs, cb, cm)) = self.streaming_assistant {
            if cs == i {
                self.streaming_assistant = None;
            } else if cs > i {
                self.streaming_assistant = Some((cs - 1, cb, cm));
            }
        }
        proof {
            let f = self@;
            let nseq = a.sessions.remove(i as int);
            assert(f.sessions =~= nseq);
            assert forall|k: int| 0 <= k < f.sessions.len() implies session_wf(
                #[trigger] f.sessions[k],
            ) by {
                if k < i {
                    assert(f.sessions[k] == a.sessions[k]);
                } else {
                    assert(f.sessions[k] == a.sessions[k + 1]);
                }
            }
            match f.streaming_assistant {
                Some((cs, cb, cm)) => {
                    if (cs as int) < i {
                        assert(f.sessions[cs as int] == a.sessions[cs as int]);
                    } else {
                        assert(f.sessions[cs as int] == a.sessions[cs as int + 1]);
                    }
                },
                None => {},
            }
        }
        OpOutcome::Done
    }
}

} // verus!
