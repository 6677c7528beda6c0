//! The single-consumer side of the event aggregation service.
//!
//! Workers send messages concurrently, but exactly one consumer renders
//! them, one at a time, in the order the transport delivered them.  The
//! [`Aggregator`] is that consumer's state: its invariant says the output
//! written so far is precisely the concatenation of each consumed message's
//! rendering, in arrival order — so no two messages' lines can interleave,
//! and no message is reordered or rendered twice.
use crate::message::{Message, MessageModel};
use crate::render::{
    lemma_ops_model_concat, ops_model, rendered, render_message, Piece, RenderOp,
};
use vstd::prelude::*;

verus! {

/// The full rendering of a sequence of messages, one after the other.
pub open spec fn render_all(msgs: Seq<MessageModel>) -> Seq<Piece>
    decreases msgs.len(),
{
    if msgs.len() == 0 {
        Seq::empty()
    } else {
        render_all(msgs.drop_last()) + rendered(msgs.last())
    }
}

/// Concatenating message histories concatenates their renderings.
pub proof fn lemma_render_all_concat(a: Seq<MessageModel>, b: Seq<MessageModel>)
    ensures
        render_all(a + b) == render_all(a) + render_all(b),
    decreases b.len(),
{
    if b.len() == 0 {
        assert(a + b =~= a);
        assert(render_all(a + b) =~= render_all(a) + render_all(b));
    } else {
        assert((a + b).drop_last() =~= a + b.drop_last());
        assert((a + b).last() == b.last());
        lemma_render_all_concat(a, b.drop_last());
        assert(render_all(a + b) =~= render_all(a) + render_all(b));
    }
}

/// Where message `i`'s rendering starts in the whole output: right where
/// the renderings of all earlier messages end.
pub open spec fn output_offset(msgs: Seq<MessageModel>, i: int) -> int {
    render_all(msgs.take(i)).len() as int
}

/// No interleaving, no reordering: in the rendering of a whole message
/// history, message `i`'s rendering is one contiguous block, placed exactly
/// after the blocks of the messages that arrived before it.
pub proof fn lemma_no_interleaving(msgs: Seq<MessageModel>, i: int)
    requires
        0 <= i < msgs.len(),
    ensures
        output_offset(msgs, i + 1) == output_offset(msgs, i) + rendered(msgs[i]).len(),
        0 <= output_offset(msgs, i) <= output_offset(msgs, i + 1) <= render_all(msgs).len(),
        render_all(msgs).subrange(output_offset(msgs, i), output_offset(msgs, i + 1)) == rendered(
            msgs[i],
        ),
{
    assert(msgs.take(i + 1).drop_last() =~= msgs.take(i));
    assert(msgs.take(i + 1).last() == msgs[i]);
    assert(render_all(msgs.take(i + 1)) == render_all(msgs.take(i)) + rendered(msgs[i]));
    assert(msgs =~= msgs.take(i + 1) + msgs.skip(i + 1));
    lemma_render_all_concat(msgs.take(i + 1), msgs.skip(i + 1));
    assert(render_all(msgs) == render_all(msgs.take(i + 1)) + render_all(msgs.skip(i + 1)));
    assert(render_all(msgs).subrange(output_offset(msgs, i), output_offset(msgs, i + 1)) =~= rendered(
        msgs[i],
    ));
}

/// The aggregation service's consumer state.
pub struct Aggregator {
    out: Vec<RenderOp>,
    history: Ghost<Seq<MessageModel>>,
}

impl Aggregator {
    /// The messages consumed so far, in arrival order.
    pub closed spec fn history(&self) -> Seq<MessageModel> {
        self.history@
    }

    /// The instruction stream written so far.
    pub closed spec fn output(&self) -> Seq<Piece> {
        ops_model(self.out@)
    }

    /// The output is exactly the renderings of the consumed messages,
    /// concatenated in arrival order.
    pub open spec fn wf(&self) -> bool {
        self.output() == render_all(self.history())
    }

    /// A fresh consumer: nothing consumed, nothing written.
    pub fn new() -> (a: Aggregator)
        ensures
            a.wf(),
            a.history() == Seq::<MessageModel>::empty(),
    {
        let a = Aggregator { out: Vec::new(), history: Ghost(Seq::empty()) };
        proof {
            assert(ops_model(a.out@) =~= Seq::<Piece>::empty());
        }
        a
    }

    /// Consumes one message: its rendering is appended to the output as one
    /// whole block, after everything already rendered and before anything
    /// that arrives later.  The call returns only once the message is fully
    /// rendered, which is what gives senders backpressure.
    pub fn publish(&mut self, msg: &Message)
        requires
            old(self).wf(),
        ensures
            final(self).wf(),
            final(self).history() == old(self).history().push(msg@),
            final(self).output() == old(self).output() + rendered(msg@),
    {
        broadcast use lemma_ops_model_concat;

        let mut ops = render_message(msg);
        self.out.append(&mut ops);
        proof {
            self.history@ = self.history@.push(msg@);
            assert(self.history@.drop_last() =~= old(self).history());
            assert(self.output() == render_all(self.history()));
        }
    }

    /// The instruction stream for the terminal writer.
    pub fn output_ops(&self) -> (r: &Vec<RenderOp>)
        ensures
            ops_model(r@) == self.output(),
    {
        &self.out
    }
}

} // verus!
