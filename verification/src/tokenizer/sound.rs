//! A scanner that is in order stays in order: it never refuses a token that
//! it made itself, it returns from every region that was pushed onto
//! another, and its content tokens give the source back.

use vstd::prelude::*;
use crate::token::Token;
use crate::tokenbuf::{lemma_filled, no_memory_token};
use crate::tokenizer::args::{lemma_args_state, ArgsScan};
use crate::tokenizer::defered::{first_break, lemma_defered_state};
use crate::tokenizer::ending::lemma_instruction_cost;
use crate::tokenizer::flow::{
    lemma_args_plan_flows, lemma_defered_flows, lemma_first_break, lemma_flows_frame,
    lemma_spanless_flows, lemma_stands_in,
};
use crate::tokenizer::instruction::{AT, CLOSE_PAREN, OPEN_PAREN};
use crate::tokenizer::laws::{
    before, delivered_bytes, is_run, is_step, lemma_delivered_steps, lemma_exhausted_returns,
    lemma_follows_steps, lemma_left_below_frame, lemma_push_keeps_offset, lemma_push_stacks,
    lemma_round_trip, lemma_stack_unwound, lemma_stepped_keeps_stack, lemma_unwound,
    lemma_unwound_stacked, Step,
};
use crate::tokenizer::model::{count_up, ScannerView, TokenizerState};
use crate::tokenizer::plan::{Ending, ScanPlan};
use crate::tokenizer::whitespace::NEWLINE;

verus! {

impl ScannerView {
    /// Whether the scanner is in order: it is well-formed, its regions form
    /// a stack, the tokens in its queue flow from where it stands, and an
    /// empty queue holds no slot.
    pub open spec fn sound(self) -> bool {
        &&& self.wf()
        &&& self.stacked()
        &&& self.flows(self.queue.pending)
        &&& self.queue.pending.len() == 0 ==> self.queue.backing == 0
    }
}

/// The delivery of the first of a run of tokens that flows goes through,
/// and the rest of the run flows from behind it.
pub proof fn lemma_first_is_delivered(v: ScannerView, token: Token, more: Seq<Token>, room: bool)
    requires
        v.wf(),
        v.stacked(),
        v.flows(seq![token] + more),
    ensures
        v.delivered(token, room).1 == Some(token),
        v.delivered(token, room).0.flows(more),
        v.delivered(token, room).0.queue == v.queue,
        v.delivered(token, room).0.state is Failed ==> v.state is Failed,
{
    let tokens = seq![token] + more;
    assert(tokens[0] == token);
    assert(tokens.drop_first() =~= more);
    if token.span() is Some {
        if v.passed(token).exhausted() {
            lemma_exhausted_returns(v, token);
            lemma_spanless_flows(v.passed(token).returned(), more);
        }
    }
}

/// A step of a scanner that is in order, whose tokens flow from where the
/// scanner stands, ends as its plan says and leaves the scanner in order,
/// if memory is there for its tokens.
pub proof fn lemma_executed_sound(v: ScannerView, plan: ScanPlan, room: bool)
    requires
        v.sound(),
        v.queue.pending.len() == 0,
        v.flows(plan.order()),
        plan.state == v.state || plan.state is ExpectDefered,
        v.state is ExpectDefered || v.state is ExpectInstructionClose,
    ensures
        v.executed(plan, room).0.flows(v.executed(plan, room).0.queue.pending),
        !(v.executed(plan, room).0.state is Failed),
        v.executed(plan, room).0.queue.pending == plan.queued,
        v.executed(plan, room).1 == match plan.ending {
            Ending::Deliver(token) => Some(token),
            Ending::Signal => Some(Token::StateChange),
            Ending::Nothing => None,
        },
{
    let loaded = v.loaded(plan);
    lemma_filled(v.queue, plan.queued);
    assert(loaded.queue.pending =~= plan.queued);
    lemma_flows_frame(v, loaded, plan.order());
    match plan.ending {
        Ending::Deliver(token) => {
            lemma_left_below_same(v, loaded);
            lemma_first_is_delivered(loaded, token, plan.queued, room);
        },
        _ => {},
    }
}

/// Whether the regions of a scanner form a stack only depends on where the
/// scanner stands.
pub proof fn lemma_left_below_same(v: ScannerView, w: ScannerView)
    requires
        v.place() == w.place(),
        v.stacked(),
        v.wf(),
        !(w.state is ExpectInput),
    ensures
        w.stacked(),
        w.wf(),
{
    lemma_left_below_frame(v, w, v.snaps.len() - 1);
    assert forall|k: int| 1 <= k < w.snaps.len() implies #[trigger] w.leads_back(k) by {
        assert(v.leads_back(k));
    }
}

/// The delivery of a queued token by a scanner that is in order goes
/// through and leaves the scanner in order.
pub proof fn lemma_queued_pull_sound(v: ScannerView, room: bool)
    requires
        v.sound(),
        v.queue.pending.len() > 0,
    ensures
        ({
            let taken = v.with_queue(v.queue.popped());
            let token = v.queue.pending[0];
            &&& taken.delivered(token, room).1 == Some(token)
            &&& taken.delivered(token, room).0.sound()
            &&& taken.delivered(token, room).0.state is Failed ==> v.state is Failed
        }),
{
    let taken = v.with_queue(v.queue.popped());
    let token = v.queue.pending[0];
    let more = v.queue.pending.drop_first();
    let after = taken.delivered(token, room).0;
    assert(v.queue.pending =~= seq![token] + more);
    lemma_flows_frame(v, taken, v.queue.pending);
    lemma_left_below_same(v, taken);
    lemma_first_is_delivered(taken, token, more, room);
    lemma_delivered_steps(taken, token, room);
    lemma_stepped_keeps_stack(taken, after, Some(token));
}

/// An outcome of a step of a scanner that is in order leaves the scanner in
/// order, and does not fail it if memory was there for the tokens of the
/// step.
pub proof fn lemma_follows_sound(
    v: ScannerView,
    plan: ScanPlan,
    after: ScannerView,
    out: Option<Token>,
)
    requires
        v.sound(),
        v.queue.pending.len() == 0,
        v.flows(plan.order()),
        plan.state == v.state || plan.state is ExpectDefered,
        v.state is ExpectDefered || v.state is ExpectInstructionClose,
        v.follows(plan, after, out),
    ensures
        after.sound(),
        out != Some(no_memory_token()) ==> !(after.state is Failed),
{
    lemma_executed_sound(v, plan, true);
    lemma_executed_sound(v, plan, false);
    lemma_follows_steps(v, plan, after, out);
    lemma_stepped_keeps_stack(v, after, out);
    lemma_filled(v.queue, plan.queued);
    if after == v.drained() {
        assert(after.queue.pending =~= Seq::<Token>::empty());
    }
}

/// A scanner that is in order, with an empty queue, is in order once it has
/// returned from the regions that it stood at the end of, and does not
/// stand at the end of an included region then.
pub proof fn lemma_unwound_sound(v: ScannerView)
    requires
        v.sound(),
        v.queue.pending.len() == 0,
    ensures
        v.unwound().sound(),
        !v.unwound().exhausted(),
        v.unwound().queue == v.queue,
        v.unwound().state == v.state,
        v.unwound().last_error == v.last_error,
        v.unwound().regions == v.regions,
        v.unwound().pos_zero == v.pos_zero,
{
    lemma_unwound(v);
    lemma_unwound_stacked(v);
    assert(v.queue.pending =~= Seq::<Token>::empty());
}

/// A scanner that is in order stays in order, and does not fail as long as
/// memory is there for its tokens: it never refuses a token that it made
/// itself, and it returns from every included region to where the region
/// was included from.
pub proof fn lemma_pull_is_sound(v: ScannerView, after: ScannerView, out: Option<Token>)
    requires
        v.sound(),
        v.next_follows(after, out),
    ensures
        after.sound(),
        out != Some(no_memory_token()) && after.state is Failed ==> v.state is Failed,
        v.queue.pending.len() > 0 ==> out == Some(v.queue.pending[0]),
{
    if v.queue.pending.len() > 0 {
        lemma_queued_pull_sound(v, true);
        lemma_queued_pull_sound(v, false);
        assert(after.sound() && (after.state is Failed ==> v.state is Failed) && out == Some(
            v.queue.pending[0],
        )) by {
            reveal(ScannerView::next_follows);
        }
    } else {
        match v.state {
            TokenizerState::ExpectDefered => {
                let there = v.unwound();
                lemma_unwound_sound(v);
                lemma_defered_flows(there);
                assert(there.follows(there.defered_plan(), after, out)) by {
                    reveal(ScannerView::next_follows);
                }
                lemma_defered_state(there);
                lemma_follows_sound(there, there.defered_plan(), after, out);
            },
            TokenizerState::ExpectInstructionClose => {
                lemma_args_plan_flows(v);
                lemma_args_state(v);
                assert(v.follows(v.args_plan(), after, out)) by {
                    reveal(ScannerView::next_follows);
                }
                lemma_follows_sound(v, v.args_plan(), after, out);
            },
            _ => {
                assert(after == v || after == (ScannerView {
                    last_error: v.no_input_error(),
                    ..v
                })) by {
                    reveal(ScannerView::next_follows);
                }
                lemma_flows_frame(v, after, v.queue.pending);
                lemma_left_below_same(v, after);
            },
        }
    }
}

impl ScannerView {
    /// Whether a push of `bytes` leaves the scanner in order: its queue is
    /// empty, and either nothing was pushed yet, or the scanner is in order
    /// and the global offset can count the bytes too.
    pub open spec fn takes(self, bytes: Seq<u8>) -> bool {
        &&& self.wf()
        &&& self.regions.len() < usize::MAX
        &&& self.queue.pending.len() == 0
        &&& self.queue.backing == 0
        &&& if self.regions.len() == 0 {
            self.snaps.len() == 0 && self.pos_zero + bytes.len() <= usize::MAX
        } else {
            &&& self.stacked()
            &&& self.pos_zero + self.rest() + self.left_below(self.snaps.len() - 1) + bytes.len()
                <= usize::MAX
        }
    }
}

/// A scanner is in order after a push onto an empty queue, if it was in
/// order before or was given nothing yet, and if the global offset can
/// count the bytes.
pub proof fn lemma_push_is_sound(v: ScannerView, filename: Option<Seq<char>>, bytes: Seq<u8>)
    requires
        v.takes(bytes),
    ensures
        v.pushed(filename, bytes, true).1 is Ok,
        v.pushed(filename, bytes, true).0.sound(),
{
    lemma_push_stacks(v, filename, bytes);
    lemma_push_keeps_offset(v, filename, bytes, true);
}

/// A scanner that is in order and fails is still in order: what is in its
/// queue can still leave.
pub proof fn lemma_failed_is_sound(v: ScannerView)
    requires
        v.sound(),
    ensures
        v.failed().sound(),
{
    lemma_flows_frame(v, v.failed(), v.queue.pending);
    lemma_left_below_same(v, v.failed());
}

/// A scanner that was given nothing yet takes any region that fits the
/// machine.
pub proof fn lemma_fresh_takes(guard: bool, bytes: Seq<u8>)
    requires
        bytes.len() <= usize::MAX,
    ensures
        ScannerView::fresh(guard).takes(bytes),
{
}

/// A scan of arguments always gives something.
pub proof fn lemma_args_gives(v: ScannerView, s: Seq<u8>, pos: int, a: ArgsScan)
    ensures
        !(v.args_tail(s, pos, a).ending is Nothing),
    decreases s.len() - pos,
{
    if pos < s.len() {
        if s[pos] == NEWLINE {
            lemma_args_gives(
                v,
                s,
                pos + 1,
                ArgsScan { run_start: pos + 1, col: 0, line: a.line + 1, any: true, ..a },
            );
        } else if s[pos] == OPEN_PAREN {
            lemma_args_gives(v, s, pos + 1, ArgsScan { open: count_up(a.open), ..a });
        } else if s[pos] == CLOSE_PAREN {
            let counted = ArgsScan { close: count_up(a.close), ..a };
            if counted.close != counted.open {
                lemma_args_gives(v, s, pos + 1, counted);
            }
        } else {
            lemma_args_gives(v, s, pos + 1, a);
        }
    }
}

/// A scanner that is in order gives nothing only where its queue is empty
/// and it is in the ordinary scan, or has failed.
pub proof fn lemma_nothing_given(v: ScannerView, after: ScannerView)
    requires
        v.sound(),
        v.next_follows(after, None),
    ensures
        v.queue.pending.len() == 0,
        v.state is ExpectDefered || v.state is Failed,
{
    if v.queue.pending.len() > 0 {
        lemma_queued_pull_sound(v, true);
        lemma_queued_pull_sound(v, false);
        assert(false) by {
            reveal(ScannerView::next_follows);
        }
    } else if v.state is ExpectInstructionClose {
        let plan = v.args_plan();
        lemma_args_plan_flows(v);
        lemma_args_state(v);
        lemma_args_gives(
            v,
            v.current(),
            v.pos_region as int,
            ArgsScan {
                run_start: v.pos_region as int,
                col: v.pos_line as int,
                line: v.line as int,
                open: v.cnt_openparen,
                close: v.cnt_closeparen,
                any: false,
            },
        );
        lemma_executed_sound(v, plan, true);
        lemma_executed_sound(v, plan, false);
        assert(v.follows(plan, after, None)) by {
            reveal(ScannerView::next_follows);
        }
    }
}

/// Where the stream of a scanner that is in order ends, the scanner has
/// returned from every region that was pushed onto another and has read
/// the first region to its end.
pub proof fn lemma_stream_ends(v: ScannerView, after: ScannerView)
    requires
        v.sound(),
        v.queue.pending.len() == 0,
        v.state is ExpectDefered,
        v.next_follows(after, None),
    ensures
        after == v.unwound(),
        after.pos_region == after.pos_max,
        after.index == 0,
        after.snaps.len() == 1,
{
    let there = v.unwound();
    lemma_unwound_sound(v);
    assert(there.follows(there.defered_plan(), after, None)) by {
        reveal(ScannerView::next_follows);
    }
    lemma_filled(there.queue, Seq::empty());
    assert(there.queue.filled(Seq::empty()) == there.queue);
    lemma_stands_in(there);
    if there.pos_region >= there.pos_max {
        lemma_stack_unwound(there);
    } else {
        let s = there.current();
        lemma_first_break(s, there.pos_region as int);
        let at = first_break(s, there.pos_region as int);
        if at < s.len() && s[at] == AT {
            lemma_instruction_cost(there, at);
        }
    }
}

/// A scanner that is in order stays in order through every run of pulls,
/// and does not fail, as long as memory is there for its tokens.
pub proof fn lemma_run_is_sound(v: ScannerView, steps: Seq<Step>, n: int)
    requires
        v.sound(),
        is_run(v, steps),
        0 <= n <= steps.len(),
        forall|i: int|
            0 <= i < steps.len() ==> (#[trigger] steps[i]).pull && steps[i].out != Some(
                no_memory_token(),
            ),
    ensures
        before(v, steps, n).sound(),
        before(v, steps, n).state is Failed ==> v.state is Failed,
    decreases n,
{
    if n > 0 {
        lemma_run_is_sound(v, steps, n - 1);
        let prev = before(v, steps, n - 1);
        let step = steps[n - 1];
        assert(is_step(prev, step));
        lemma_pull_is_sound(prev, step.after, step.out);
    }
}

/// Round trip: where the stream of a scanner over one source ends, the
/// content tokens that were pulled give, one behind the other, exactly the
/// source.
pub proof fn lemma_round_trip_whole(v: ScannerView, steps: Seq<Step>)
    requires
        v.sound(),
        v.regions.len() == 1,
        v.pos_region == 0,
        is_run(v, steps),
        steps.len() > 0,
        forall|i: int|
            0 <= i < steps.len() ==> (#[trigger] steps[i]).pull && steps[i].out != Some(
                no_memory_token(),
            ),
        steps.last().out is None,
        !(v.state is Failed),
    ensures
        delivered_bytes(v.regions, steps, steps.len() as int) == v.regions[0],
{
    let n = steps.len() as int;
    let last = before(v, steps, n - 1);
    lemma_run_is_sound(v, steps, n - 1);
    lemma_round_trip(v, steps, n - 1);
    lemma_round_trip(v, steps, n);
    assert(is_step(last, steps[n - 1]));
    lemma_nothing_given(last, steps[n - 1].after);
    lemma_stream_ends(last, steps[n - 1].after);
    lemma_unwound(last);
    assert(v.regions[0].subrange(0, v.pos_max as int) =~= v.regions[0]);
}

} // verus!
