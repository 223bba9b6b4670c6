//! Rebuilding sessions from persisted branches: the front end reads each
//! file and decodes it; the grouping of branches into sessions — by
//! session key, in order of first appearance, selecting the most
//! recently seen branch — happens here. Session ids are freshly drawn,
//! so the contracts pin down everything but the ids.

use vstd::prelude::*;

use crate::host::fresh_session_id;
use crate::store::{session_wf, Branch, BranchView, Session, SessionView};
use crate::strutil::str_eq;

verus! {

/// The views of keyed branches.
pub open spec fn items_view(s: Seq<(String, Branch)>) -> Seq<(Seq<char>, BranchView)> {
    s.map_values(|p: (String, Branch)| (p.0@, p.1@))
}

/// The first session carrying the given title.
pub open spec fn first_session_titled(sessions: Seq<SessionView>, title: Seq<char>, i: int) -> Option<
    int,
>
    decreases sessions.len() - i,
    when 0 <= i <= sessions.len()
{
    if i >= sessions.len() {
        None
    } else if sessions[i].title == title {
        Some(i)
    } else {
        first_session_titled(sessions, title, i + 1)
    }
}

/// The sessions rebuilt from keyed branches, ids left blank: branches
/// group under the session of their key, sessions stand in order of
/// first appearance, and each session selects the branch most recently
/// added to it.
pub open spec fn assemble(items: Seq<(Seq<char>, BranchView)>) -> Seq<SessionView>
    decreases items.len(),
{
    if items.len() == 0 {
        Seq::empty()
    } else {
        let prev = assemble(items.drop_last());
        let key = items.last().0;
        let b = items.last().1;
        match first_session_titled(prev, key, 0) {
            Some(i) => prev.update(
                i,
                (SessionView {
                    branches: prev[i].branches.push(b),
                    active_branch: prev[i].branches.len() as usize,
                    ..prev[i]
                }),
            ),
            None => prev.push(
                (SessionView {
                    id: Seq::empty(),
                    title: key,
                    branches: seq![b],
                    active_branch: 0,
                }),
            ),
        }
    }
}

impl Session {
    /// The first session of a list with the given title.
    fn find_titled(sessions: &Vec<Session>, title: &str) -> (r: Option<usize>)
        ensures
            match r {
                Some(i) => i < sessions@.len() && first_session_titled(
                    crate::store::sessions_view(sessions@),
                    title@,
                    0,
                ) == Some(i as int),
                None => first_session_titled(
                    crate::store::sessions_view(sessions@),
                    title@,
                    0,
                ) is None,
            },
    {
        let ghost sv = crate::store::sessions_view(sessions@);
        let n = sessions.len();
        let mut i: usize = 0;
        while i < n
            invariant
                i <= n,
                n == sessions@.len(),
                sv == crate::store::sessions_view(sessions@),
                first_session_titled(sv, title@, 0) == first_session_titled(sv, title@, i as int),
            decreases n - i,
        {
            if str_eq(sessions[i].title.as_str(), title) {
                return Some(i);
            }
            i += 1;
        }
        None
    }
}

/// Groups decoded branches into sessions by their session key: sessions
/// in order of first appearance, each selecting its most recently seen
/// branch, with freshly drawn ids.
pub fn assemble_sessions(items: Vec<(String, Branch)>) -> (r: Vec<Session>)
    ensures
        ({
            let want = assemble(items_view(items@));
            let got = crate::store::sessions_view(r@);
            &&& got.len() == want.len()
            &&& forall|i: int|
                0 <= i < got.len() ==> (#[trigger] got[i]).title == want[i].title && got[i].branches
                    == want[i].branches && got[i].active_branch == want[i].active_branch
            &&& forall|i: int| 0 <= i < got.len() ==> session_wf(#[trigger] got[i])
        }),
{
    let ghost all = items_view(items@);
    let total = items.len();
    proof {
        assert(all.len() == total);
    }
    let mut items = items;
    let mut sessions: Vec<Session> = Vec::new();
    let mut k: usize = 0;
    proof {
        assert(all.subrange(0, 0) =~= Seq::<(Seq<char>, BranchView)>::empty());
        assert(crate::store::sessions_view(sessions@) =~= Seq::<SessionView>::empty());
    }
    while items.len() > 0
        invariant
            k <= all.len(),
            all.len() <= usize::MAX,
            items@.len() == all.len() - k,
            forall|t: int| 0 <= t < items@.len() ==> (#[trigger] items@[t].0@, items@[t].1@) == all[
                k + t
            ],
            ({
                let want = assemble(all.subrange(0, k as int));
                let got = crate::store::sessions_view(sessions@);
                &&& got.len() == want.len()
                &&& forall|i: int|
                    0 <= i < got.len() ==> (#[trigger] got[i]).title == want[i].title
                        && got[i].branches == want[i].branches && got[i].active_branch
                        == want[i].active_branch
                &&& forall|i: int| 0 <= i < got.len() ==> session_wf(#[trigger] got[i])
            }),
        decreases items@.len(),
    {
        let (key, b) = items.remove(0);
        let ghost kv = key@;
        let ghost bv = b@;
        proof {
            assert((kv, bv) == all[k as int]);
        }
        let ghost want_pre = assemble(all.subrange(0, k as int));
        let ghost got_pre = crate::store::sessions_view(sessions@);
        let found = Session::find_titled(&sessions, key.as_str());
        proof {
            lemma_find_titled_matches(got_pre, want_pre, kv, 0);
        }
        match found {
            Some(i) => {
                let session = &mut sessions[i];
                let new_idx = session.branches.len();
                session.branches.push(b);
                session.active_branch = new_idx;
                proof {
                    let got = crate::store::sessions_view(sessions@);
                    let want = assemble(all.subrange(0, k as int + 1));
                    assert(all.subrange(0, k as int + 1).drop_last() =~= all.subrange(0, k as int));
                    assert(all.subrange(0, k as int + 1).last() == all[k as int]);
                    assert(got[i as int].branches =~= got_pre[i as int].branches.push(bv));
                    assert forall|t: int| 0 <= t < got.len() implies (#[trigger] got[t]).title
                        == want[t].title && got[t].branches == want[t].branches && got[
                        t
                    ].active_branch == want[t].active_branch by {
                        if t != i {
                            assert(got[t] == got_pre[t]);
                        } else {
                            assert(want_pre[t].branches == got_pre[t].branches);
                        }
                    }
                    assert forall|t: int| 0 <= t < got.len() implies session_wf(
                        #[trigger] got[t],
                    ) by {
                        if t != i {
                            assert(got[t] == got_pre[t]);
                        }
                    }
                }
            },
            None => {
                let mut branches: Vec<Branch> = Vec::new();
                branches.push(b);
                let s = Session {
                    id: fresh_session_id(),
                    title: key,
                    branches,
                    active_branch: 0,
                };
                let ghost sv = s@;
                sessions.push(s);
                proof {
                    let got = crate::store::sessions_view(sessions@);
                    let want = assemble(all.subrange(0, k as int + 1));
                    assert(all.subrange(0, k as int + 1).drop_last() =~= all.subrange(0, k as int));
                    assert(all.subrange(0, k as int + 1).last() == all[k as int]);
                    assert(sv.branches =~= seq![bv]);
                    assert forall|t: int| 0 <= t < got.len() implies (#[trigger] got[t]).title
                        == want[t].title && got[t].branches == want[t].branches && got[
                        t
                    ].active_branch == want[t].active_branch by {
                        if t < got_pre.len() {
                            assert(got[t] == got_pre[t]);
                            assert(want[t] == want_pre[t]);
                        } else {
                            assert(got[t] == sv);
                        }
                    }
                    assert forall|t: int| 0 <= t < got.len() implies session_wf(
                        #[trigger] got[t],
                    ) by {
                        if t < got_pre.len() {
                            assert(got[t] == got_pre[t]);
                        } else {
                            assert(got[t] == sv);
                        }
                    }
                }
            },
        }
        k += 1;
        proof {
            assert forall|t: int| 0 <= t < items@.len() implies (
            #[trigger] items@[t].0@,
            items@[t].1@,
            ) == all[k + t] by {}
        }
    }
    proof {
        assert(all.subrange(0, all.len() as int) =~= all);
        assert(k == all.len());
    }
    sessions
}

/// A title search gives the same answer on two session lists whose
/// titles agree pointwise.
proof fn lemma_find_titled_matches(
    got: Seq<SessionView>,
    want: Seq<SessionView>,
    title: Seq<char>,
    i: int,
)
    requires
        got.len() == want.len(),
        forall|t: int| 0 <= t < got.len() ==> (#[trigger] got[t]).title == want[t].title,
        0 <= i <= got.len(),
    ensures
        first_session_titled(got, title, i) == first_session_titled(want, title, i),
    decreases got.len() - i,
{
    if i < got.len() {
        lemma_find_titled_matches(got, want, title, i + 1);
    }
}

} // verus!
