//! What one step of the scanner does, stated as a plan: the tokens it
//! queues, in order, and how it ends.

use vstd::prelude::*;
use crate::span::Span;
use crate::token::Token;
use crate::tokenbuf::{
    lemma_filled, lemma_filled_accepts, no_memory_token, push_guard_token, QueueView,
};
use crate::tokenizer::model::{ScannerView, TokenizerState};

verus! {

/// How a step ends.
pub enum Ending {
    /// A token is delivered.
    Deliver(Token),
    /// Nothing is delivered; the caller is told to come again.
    Signal,
    /// Nothing is delivered and nothing is left to do.
    Nothing,
}

/// One step of the scanner.
pub struct ScanPlan {
    /// The tokens that go into the queue, in order.
    pub queued: Seq<Token>,
    /// The mode the scanner is in before the step ends.
    pub state: TokenizerState,
    pub cnt_openparen: u32,
    pub cnt_closeparen: u32,
    pub ending: Ending,
}

impl ScanPlan {
    /// The step that leaves `v` as it is and delivers nothing.
    pub open spec fn idle(v: ScannerView) -> ScanPlan {
        ScanPlan {
            queued: Seq::empty(),
            state: v.state,
            cnt_openparen: v.cnt_openparen,
            cnt_closeparen: v.cnt_closeparen,
            ending: Ending::Nothing,
        }
    }

    /// The step that queues `queued` and then delivers `token`.
    pub open spec fn deliver(v: ScannerView, queued: Seq<Token>, token: Token) -> ScanPlan {
        ScanPlan { queued, ending: Ending::Deliver(token), ..ScanPlan::idle(v) }
    }

    /// The same step with `tokens` queued in front of its own.
    pub open spec fn after(self, tokens: Seq<Token>) -> ScanPlan {
        ScanPlan { queued: tokens + self.queued, ..self }
    }
}

impl ScannerView {
    /// The span of `len` bytes at offset `pos` of the current region, for a
    /// run that starts on the line the scanner stands on.
    pub open spec fn span_on_line(self, pos: int, len: int) -> Span {
        Span {
            index: self.index,
            pos_region: pos as usize,
            pos_line: (self.pos_line + (pos - self.pos_region)) as usize,
            pos_zero: (self.pos_zero + (pos - self.pos_region)) as usize,
            line: self.line,
            length: len as usize,
        }
    }

    /// The span of `len` bytes at offset `pos` of the current region, which
    /// is column `col` of line `line`.
    pub open spec fn span_at(self, pos: int, col: int, line: int, len: int) -> Span {
        Span {
            index: self.index,
            pos_region: pos as usize,
            pos_line: col as usize,
            pos_zero: (self.pos_zero + (pos - self.pos_region)) as usize,
            line: line as usize,
            length: len as usize,
        }
    }

    /// The scanner after every token of `plan` found its place in the queue.
    pub open spec fn loaded(self, plan: ScanPlan) -> ScannerView {
        ScannerView {
            queue: self.queue.filled(plan.queued),
            state: plan.state,
            cnt_openparen: plan.cnt_openparen,
            cnt_closeparen: plan.cnt_closeparen,
            ..self
        }
    }

    /// The scanner after a token did not find its place in the queue: it
    /// failed, and its queue is empty.
    pub open spec fn drained(self) -> ScannerView {
        self.with_queue(QueueView::empty(self.queue.guard)).failed()
    }

    /// The outcome of `plan` where memory was there for every token it
    /// queues. A guarded queue that is partially drained refuses the first of
    /// them, and the scanner fails with an empty queue. `room` only matters
    /// where the delivery at the end of the plan is refused: it says whether
    /// the refused token found room in the queue.
    pub open spec fn executed(self, plan: ScanPlan, room: bool) -> (ScannerView, Option<Token>) {
        if plan.queued.len() > 0 && !self.queue.accepts() {
            (self.drained(), Some(push_guard_token()))
        } else {
            match plan.ending {
                Ending::Deliver(token) => self.loaded(plan).delivered(token, room),
                Ending::Signal => (self.loaded(plan), Some(Token::StateChange)),
                Ending::Nothing => (self.loaded(plan), None),
            }
        }
    }

    /// The outcome of `plan` where memory ran out at one of the tokens it
    /// queues: the scanner failed, its queue is empty, and the queue's
    /// `Fatal(NoMemory)` is what leaves.
    pub open spec fn ran_dry(self, plan: ScanPlan, after: ScannerView, out: Option<Token>) -> bool {
        &&& plan.queued.len() > 0
        &&& after == self.drained()
        &&& out == Some(no_memory_token())
    }

    /// Whether `after` and `out` are an outcome of `plan`: the one the plan
    /// says, or the one of memory running out at one of its tokens.
    pub open spec fn follows(self, plan: ScanPlan, after: ScannerView, out: Option<Token>) -> bool {
        ||| (after, out) == self.executed(plan, true)
        ||| (after, out) == self.executed(plan, false)
        ||| self.ran_dry(plan, after, out)
    }
}

/// Whether `head` is what `tokens` starts with.
pub open spec fn starts_with(tokens: Seq<Token>, head: Seq<Token>) -> bool {
    head.len() <= tokens.len() && tokens.take(head.len() as int) == head
}

/// A push that failed after `done` tokens of a plan were queued is an
/// outcome of the plan.
pub proof fn lemma_push_failed(
    v: ScannerView,
    plan: ScanPlan,
    done: Seq<Token>,
    token: Token,
    after: ScannerView,
    error: Token,
)
    requires
        starts_with(plan.queued, done.push(token)),
        done.len() > 0 ==> v.queue.accepts(),
        ({
            let now = v.with_queue(v.queue.filled(done));
            ||| (after, Err::<(), Token>(error)) == now.queued(token, true)
            ||| (after, Err::<(), Token>(error)) == now.queued(token, false)
        }),
    ensures
        v.follows(plan, after, Some(error)),
{
    let now = v.with_queue(v.queue.filled(done));
    lemma_filled(v.queue, done);
    assert(after == v.drained());
    if (after, Err::<(), Token>(error)) == now.queued(token, false) {
        assert(v.ran_dry(plan, after, Some(error)));
    } else {
        // The queue refused the token: nothing can have been queued before.
        if done.len() > 0 {
            lemma_filled_accepts(v.queue, done);
            assert(false);
        }
        assert(done =~= Seq::empty());
        assert(now == v);
    }
}

/// The outcome of the first part of a plan, where that part did not go
/// through, is an outcome of the whole plan.
pub proof fn lemma_part_failed(
    v: ScannerView,
    done: Seq<Token>,
    part: ScanPlan,
    plan: ScanPlan,
    after: ScannerView,
    error: Token,
)
    requires
        starts_with(plan.queued, done + part.queued),
        part.ending is Nothing,
        done.len() > 0 ==> v.queue.accepts(),
        v.with_queue(v.queue.filled(done)).follows(part, after, Some(error)),
    ensures
        v.follows(plan, after, Some(error)),
{
    let now = v.with_queue(v.queue.filled(done));
    lemma_filled(v.queue, done);
    assert(now.drained() == v.drained());
    if now.ran_dry(part, after, Some(error)) {
        assert(v.ran_dry(plan, after, Some(error)));
    } else {
        // The queue refused the first token of the part.
        assert(part.queued.len() > 0 && !now.queue.accepts());
        if done.len() > 0 {
            lemma_filled_accepts(v.queue, done);
            assert(false);
        }
        assert(done =~= Seq::empty());
        assert(now == v);
    }
}

/// What starts with two runs of tokens starts with the first of them.
pub proof fn lemma_starts_with_part(tokens: Seq<Token>, head: Seq<Token>, more: Seq<Token>)
    requires
        starts_with(tokens, head + more),
    ensures
        starts_with(tokens, head),
{
    let n = (head + more).len() as int;
    assert(tokens.take(head.len() as int) =~= head) by {
        assert forall|i: int| 0 <= i < head.len() implies tokens.take(head.len() as int)[i]
            == head[i] by {
            assert(tokens.take(n)[i] == (head + more)[i]);
        }
    }
}

/// What starts with two runs of tokens starts with the first of them and
/// the first token of the second.
pub proof fn lemma_starts_with_next(tokens: Seq<Token>, head: Seq<Token>, more: Seq<Token>)
    requires
        starts_with(tokens, head + more),
        more.len() > 0,
    ensures
        starts_with(tokens, head.push(more[0])),
{
    let n = (head + more).len() as int;
    let m = head.len() as int + 1;
    assert(tokens.take(m) =~= head.push(more[0])) by {
        assert forall|i: int| 0 <= i < m implies tokens.take(m)[i] == head.push(more[0])[i] by {
            assert(tokens.take(n)[i] == (head + more)[i]);
        }
    }
}

} // verus!
