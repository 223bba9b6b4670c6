//! The compute side of the streaming coordinator: slicing one complete
//! text into small ordered fragments, and the guarantee that applying
//! those fragments in emission order rebuilds exactly the original text.
//! The front end only adds the inter-fragment delay and the channel.

use vstd::prelude::*;

use crate::store::BackendEvent;
use crate::strutil::push_char;

verus! {

/// The concatenation of a sequence of fragments.
pub open spec fn concat_chunks(chunks: Seq<Seq<char>>) -> Seq<char>
    decreases chunks.len(),
{
    if chunks.len() == 0 {
        Seq::empty()
    } else {
        chunks[0] + concat_chunks(chunks.drop_first())
    }
}

/// The content of a message after fragments are appended one by one, in
/// the order given.
pub open spec fn apply_chunks(content: Seq<char>, chunks: Seq<Seq<char>>) -> Seq<char>
    decreases chunks.len(),
{
    if chunks.len() == 0 {
        content
    } else {
        apply_chunks(content + chunks[0], chunks.drop_first())
    }
}

/// Applying fragments in emission order appends exactly their
/// concatenation: no reordering, no duplication, no loss.
pub proof fn lemma_apply_chunks_concat(content: Seq<char>, chunks: Seq<Seq<char>>)
    ensures
        apply_chunks(content, chunks) == content + concat_chunks(chunks),
    decreases chunks.len(),
{
    if chunks.len() == 0 {
        assert(content + concat_chunks(chunks) =~= content);
    } else {
        lemma_apply_chunks_concat(content + chunks[0], chunks.drop_first());
        assert((content + chunks[0]) + concat_chunks(chunks.drop_first()) =~= content + (chunks[0]
            + concat_chunks(chunks.drop_first())));
    }
}

/// Concatenation distributes over appending one more fragment.
pub proof fn lemma_concat_chunks_push(chunks: Seq<Seq<char>>, x: Seq<char>)
    ensures
        concat_chunks(chunks.push(x)) == concat_chunks(chunks) + x,
    decreases chunks.len(),
{
    if chunks.len() == 0 {
        assert(chunks.push(x).len() == 1);
        assert(chunks.push(x).drop_first() =~= Seq::<Seq<char>>::empty());
        assert(chunks.push(x)[0] == x);
        assert(concat_chunks(Seq::<Seq<char>>::empty()) == Seq::<char>::empty());
        assert(concat_chunks(chunks.push(x)) == x + concat_chunks(chunks.push(x).drop_first()));
        assert(x + Seq::<char>::empty() =~= x);
        assert(Seq::<char>::empty() + x =~= x);
    } else {
        assert(chunks.push(x).drop_first() =~= chunks.drop_first().push(x));
        lemma_concat_chunks_push(chunks.drop_first(), x);
        assert(chunks[0] + (concat_chunks(chunks.drop_first()) + x) =~= (chunks[0] + concat_chunks(
            chunks.drop_first(),
        )) + x);
    }
}

/// The views of a list of fragments.
pub open spec fn strs_view(v: Seq<String>) -> Seq<Seq<char>> {
    v.map_values(|x: String| x@)
}

/// Slices a text into fragments of at most `max` characters, flushing
/// early at newlines, so that the fragments concatenate back to the
/// text.
pub fn chunk_text(s: &str, max: usize) -> (r: Vec<String>)
    requires
        max >= 1,
    ensures
        concat_chunks(strs_view(r@)) == s@,
        forall|i: int| 0 <= i < r@.len() ==> 1 <= #[trigger] r@[i]@.len() <= max,
{
    let n = s.unicode_len();
    let mut out: Vec<String> = Vec::new();
    let mut buf = String::new();
    let mut blen: usize = 0;
    let mut i: usize = 0;
    while i < n
        invariant
            i <= n,
            n == s@.len(),
            blen == buf@.len(),
            blen < max,
            concat_chunks(strs_view(out@)) + buf@ =~= s@.subrange(0, i as int),
            forall|k: int| 0 <= k < out@.len() ==> 1 <= #[trigger] out@[k]@.len() <= max,
        decreases n - i,
    {
        let c = s.get_char(i);
        push_char(&mut buf, c);
        blen += 1;
        i += 1;
        proof {
            assert(s@.subrange(0, i as int).drop_last() =~= s@.subrange(0, i - 1 as int));
            assert(concat_chunks(strs_view(out@)) + buf@ =~= s@.subrange(0, i as int));
        }
        if blen >= max || c == '\n' {
            let ghost prev = out@;
            let ghost bv = buf@;
            out.push(buf);
            buf = String::new();
            blen = 0;
            proof {
                assert forall|k: int| 0 <= k < out@.len() implies strs_view(out@)[k] == strs_view(
                    prev,
                ).push(bv)[k] by {
                    if k < prev.len() {
                        assert(out@[k] == prev[k]);
                    } else {
                        assert(out@[k]@ == bv);
                    }
                }
                assert(strs_view(out@) =~= strs_view(prev).push(bv));
                lemma_concat_chunks_push(strs_view(prev), bv);
                assert(concat_chunks(strs_view(out@)) + buf@ =~= s@.subrange(0, i as int));
            }
        }
    }
    if blen > 0 {
        let ghost prev = out@;
        let ghost bv = buf@;
        out.push(buf);
        proof {
            assert forall|k: int| 0 <= k < out@.len() implies strs_view(out@)[k] == strs_view(
                prev,
            ).push(bv)[k] by {
                if k < prev.len() {
                    assert(out@[k] == prev[k]);
                } else {
                    assert(out@[k]@ == bv);
                }
            }
            assert(strs_view(out@) =~= strs_view(prev).push(bv));
            lemma_concat_chunks_push(strs_view(prev), bv);
        }
    }
    proof {
        assert(s@.subrange(0, n as int) =~= s@);
    }
    out
}

/// The fragment carried by an event; empty for a completion event.
pub open spec fn event_text(e: BackendEvent) -> Seq<char> {
    match e {
        BackendEvent::AssistantChunk { chunk, .. } => chunk@,
        BackendEvent::AssistantDone { .. } => Seq::empty(),
    }
}

/// The fragments carried by a sequence of events.
pub open spec fn event_texts(events: Seq<BackendEvent>) -> Seq<Seq<char>> {
    events.map_values(|e: BackendEvent| event_text(e))
}

/// Whether an event is a fragment addressed to the given branch.
pub open spec fn is_chunk_for(e: BackendEvent, s: usize, b: usize) -> bool {
    match e {
        BackendEvent::AssistantChunk { session_idx, branch_idx, .. } => session_idx == s
            && branch_idx == b,
        BackendEvent::AssistantDone { .. } => false,
    }
}

/// The help screen shown when the user asks for it.
pub open spec fn help_message() -> Seq<char> {
    "\nHelp\n\nNORMAL MODE\n  q          Quit\n  n          New session\n  j / k      Next / previous session\n  [ / ]      Previous / next branch\n  TAB        Toggle new-session button\n  s          Toggle sidebar\n  e          Edit last user message\n  i          Enter insert mode\n\nINSERT MODE\n  Enter      Send message\n  Esc        Back to normal mode\n\nTIPS\n  Editing a message forks a new branch\n\n"@
}

/// The help screen shown when the user asks for it.
pub fn help_text() -> (r: &'static str)
    ensures
        r@ == help_message(),
{
    "\nHelp\n\nNORMAL MODE\n  q          Quit\n  n          New session\n  j / k      Next / previous session\n  [ / ]      Previous / next branch\n  TAB        Toggle new-session button\n  s          Toggle sidebar\n  e          Edit last user message\n  i          Enter insert mode\n\nINSERT MODE\n  Enter      Send message\n  Esc        Back to normal mode\n\nTIPS\n  Editing a message forks a new branch\n\n"
}

/// The help screen as a sequence of fragment events addressed to one
/// branch, in emission order; their texts concatenate to the help
/// message. The front end sends them, paced, and follows with the
/// completion event.
pub fn stream_help_message(session_idx: usize, branch_idx: usize) -> (r: Vec<BackendEvent>)
    ensures
        forall|i: int| 0 <= i < r@.len() ==> is_chunk_for(#[trigger] r@[i], session_idx, branch_idx),
        concat_chunks(event_texts(r@)) == help_message(),
{
    let chunks = chunk_text(help_text(), 12);
    let mut r: Vec<BackendEvent> = Vec::new();
    let n = chunks.len();
    let mut i: usize = 0;
    while i < n
        invariant
            i <= n,
            n == chunks@.len(),
            r@.len() == i,
            forall|k: int|
                0 <= k < r@.len() ==> is_chunk_for(#[trigger] r@[k], session_idx, branch_idx),
            event_texts(r@) =~= strs_view(chunks@).subrange(0, i as int),
        decreases n - i,
    {
        let ghost prev = r@;
        let chunk = chunks[i].clone();
        let ghost cv = chunk@;
        r.push(BackendEvent::AssistantChunk { session_idx, branch_idx, chunk });
        proof {
            assert forall|k: int| 0 <= k < r@.len() implies event_texts(r@)[k] == strs_view(
                chunks@,
            ).subrange(0, i as int + 1)[k] by {
                if k < prev.len() {
                    assert(r@[k] == prev[k]);
                    assert(event_texts(prev)[k] == strs_view(chunks@).subrange(0, i as int)[k]);
                } else {
                    assert(event_text(r@[k]) == cv);
                }
            }
            assert(event_texts(r@) =~= strs_view(chunks@).subrange(0, i as int + 1));
        }
        i += 1;
    }
    proof {
        assert(strs_view(chunks@).subrange(0, n as int) =~= strs_view(chunks@));
    }
    r
}

} // verus!
