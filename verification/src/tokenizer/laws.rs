//! What holds of every token that leaves the scanner, whatever the source
//! and whatever was put into the queue.

use vstd::prelude::*;
use crate::span::Span;
use crate::token::Token;
use crate::tokenizer::args::lemma_args_state;
use crate::tokenizer::defered::lemma_defered_state;
use crate::tokenizer::model::{ScannerView, StateSnap, TokenizerState};
use crate::tokenizer::plan::{Ending, ScanPlan};

verus! {

/// Where a scanner stands: everything of it that a delivery goes by.
pub struct Place {
    pub index: usize,
    pub pos_zero: usize,
    pub pos_region: usize,
    pub pos_line: usize,
    pub pos_max: usize,
    pub line: usize,
    pub regions: Seq<Seq<u8>>,
    pub snaps: Seq<StateSnap>,
}

impl ScannerView {
    /// Where the scanner stands.
    pub open spec fn place(self) -> Place {
        Place {
            index: self.index,
            pos_zero: self.pos_zero,
            pos_region: self.pos_region,
            pos_line: self.pos_line,
            pos_max: self.pos_max,
            line: self.line,
            regions: self.regions,
            snaps: self.snaps,
        }
    }

    /// Where the scanner stands after it delivered `token`: behind the
    /// token, or, where the token was the last of an included region, at the
    /// place on record for the region below.
    pub open spec fn place_behind(self, token: Token) -> Place {
        if self.passed(token).exhausted() {
            self.passed(token).returned().place()
        } else {
            self.passed(token).place()
        }
    }

    /// What a pull that ended in `after` and gave `out` did to the place of
    /// the scanner. A content token started where the scanner stood, ended
    /// inside the current region, and took the scanner behind it. Anything
    /// else left the scanner where it stood.
    pub open spec fn stepped(self, after: ScannerView, out: Option<Token>) -> bool {
        match out {
            Some(token) => if token.is_content() {
                &&& self.stands_at(token.span()->0)
                &&& self.can_pass(token)
                &&& self.passed(token).exhausted() ==> self.passed(token).can_return()
                &&& after.place() == self.place_behind(token)
            } else {
                after.place() == self.place()
            },
            None => after.place() == self.place(),
        }
    }
}

/// A delivery moves the scanner by the rules of `stepped`, and leaves it
/// well-formed.
pub proof fn lemma_delivered_steps(v: ScannerView, token: Token, room: bool)
    requires
        v.wf(),
    ensures
        v.stepped(v.delivered(token, room).0, v.delivered(token, room).1),
        v.delivered(token, room).0.wf(),
{
}

/// Every outcome of a plan moves the scanner by the rules of `stepped`, and
/// leaves it well-formed.
pub proof fn lemma_follows_steps(
    v: ScannerView,
    plan: ScanPlan,
    after: ScannerView,
    out: Option<Token>,
)
    requires
        v.wf(),
        v.follows(plan, after, out),
        plan.state == v.state || plan.state is Failed || (plan.state is ExpectDefered
            && v.regions.len() > 0),
    ensures
        v.stepped(after, out),
        after.wf(),
{
    match plan.ending {
        Ending::Deliver(token) => {
            lemma_delivered_steps(v.loaded(plan), token, true);
            lemma_delivered_steps(v.loaded(plan), token, false);
        },
        _ => {},
    }
}

impl ScannerView {
    /// Where the scanner stands when it sets about a pull: where it is, or,
    /// for a step of the ordinary scan, where it is once it has returned
    /// from the included regions that it stood at the end of.
    pub open spec fn standing(self) -> ScannerView {
        if self.queue.pending.len() == 0 && self.state is ExpectDefered {
            self.unwound()
        } else {
            self
        }
    }
}

/// Returning from the regions that the scanner stands at the end of changes
/// where the scanner stands and nothing else; the global offset goes on from
/// where it was.
pub proof fn lemma_unwound(v: ScannerView)
    requires
        v.wf(),
    ensures
        v.unwound().wf(),
        v.unwound() == (ScannerView {
            index: v.unwound().index,
            pos_region: v.unwound().pos_region,
            pos_line: v.unwound().pos_line,
            line: v.unwound().line,
            pos_max: v.unwound().pos_max,
            snaps: v.unwound().snaps,
            ..v
        }),
        v.unwound().snaps.len() <= v.snaps.len(),
        v.unwound().index <= v.index,
        !(v.unwound().exhausted() && v.unwound().can_return()),
        !v.exhausted() ==> v.unwound() == v,
    decreases v.index,
{
    if v.exhausted() && v.can_return() {
        lemma_unwound(v.returned());
    }
}

/// A step of the ordinary scan moves the scanner by the rules of `stepped`,
/// from where it stands once it has returned from the regions it stood at
/// the end of.
pub proof fn lemma_defered_steps(v: ScannerView, after: ScannerView, out: Option<Token>)
    requires
        v.wf(),
        v.defered_follows(after, out),
    ensures
        v.unwound().stepped(after, out),
        after.wf(),
{
    lemma_unwound(v);
    let there = v.unwound();
    if !there.exhausted() {
        lemma_defered_state(there);
        lemma_follows_steps(there, there.defered_plan(), after, out);
    }
}

/// The delivery of a queued token moves the scanner by the rules of
/// `stepped`.
pub proof fn lemma_queued_steps(v: ScannerView, after: ScannerView, out: Option<Token>)
    requires
        v.wf(),
        v.queue.pending.len() > 0,
        ({
            let taken = v.with_queue(v.queue.popped());
            ||| (after, out) == taken.delivered(v.queue.pending[0], true)
            ||| (after, out) == taken.delivered(v.queue.pending[0], false)
        }),
    ensures
        v.stepped(after, out),
        after.wf(),
{
    let taken = v.with_queue(v.queue.popped());
    lemma_delivered_steps(taken, v.queue.pending[0], true);
    lemma_delivered_steps(taken, v.queue.pending[0], false);
}

/// Every pull moves the scanner by the rules of `stepped`, from where it
/// stood when it set about the pull, and leaves it well-formed.
pub proof fn lemma_next_steps(v: ScannerView, after: ScannerView, out: Option<Token>)
    requires
        v.wf(),
        v.next_follows(after, out),
    ensures
        v.standing().wf(),
        v.standing().stepped(after, out),
        v.standing().pos_zero == v.pos_zero,
        v.standing().regions == v.regions,
        after.wf(),
{
    lemma_unwound(v);
    if v.queue.pending.len() > 0 {
        assert({
            let taken = v.with_queue(v.queue.popped());
            ||| (after, out) == taken.delivered(v.queue.pending[0], true)
            ||| (after, out) == taken.delivered(v.queue.pending[0], false)
        }) by {
            reveal(ScannerView::next_follows);
        }
        lemma_queued_steps(v, after, out);
    } else {
        match v.state {
            TokenizerState::ExpectDefered => {
                assert(v.defered_follows(after, out)) by {
                    reveal(ScannerView::next_follows);
                }
                lemma_defered_steps(v, after, out);
            },
            TokenizerState::ExpectInstructionClose => {
                assert(v.follows(v.args_plan(), after, out)) by {
                    reveal(ScannerView::next_follows);
                }
                lemma_args_state(v);
                lemma_follows_steps(v, v.args_plan(), after, out);
            },
            _ => {
                assert(after.place() == v.place() && after.wf() && !(out is Some
                    && out->0.is_content())) by {
                    reveal(ScannerView::next_follows);
                }
            },
        }
    }
}

/// A content token leaves the scanner only from where the scanner stands:
/// its span names the region, the offset in the region, the global offset
/// and the line that the scanner had when it set about the pull.
pub proof fn lemma_token_stands_at_scanner(v: ScannerView, after: ScannerView, token: Token)
    requires
        v.wf(),
        v.next_follows(after, Some(token)),
        token.is_content(),
    ensures
        token.span()->0.pos_zero == v.pos_zero,
        token.span()->0.index == v.standing().index,
        token.span()->0.pos_region == v.standing().pos_region,
        token.span()->0.pos_line == v.standing().pos_line,
        token.span()->0.line == v.standing().line,
        !v.exhausted() ==> v.standing() == v,
{
    lemma_next_steps(v, after, Some(token));
    lemma_unwound(v);
}

/// The span of a content token that leaves the scanner lies inside its
/// region, and its column is not behind its offset.
pub proof fn lemma_token_fits(v: ScannerView, after: ScannerView, token: Token)
    requires
        v.wf(),
        v.regions.len() > 0,
        v.next_follows(after, Some(token)),
        token.is_content(),
    ensures
        token.span()->0.index < v.regions.len(),
        token.span()->0.fits(v.regions[token.span()->0.index as int].len() as int),
{
    lemma_next_steps(v, after, Some(token));
}

/// A pull takes the global offset on by the length of the content token it
/// gives, and leaves it where it was if it gives anything else.
pub proof fn lemma_pull_counts_bytes(v: ScannerView, after: ScannerView, out: Option<Token>)
    requires
        v.wf(),
        v.next_follows(after, out),
    ensures
        after.pos_zero == v.pos_zero + match out {
            Some(token) => token.content_len(),
            None => 0,
        },
{
    lemma_next_steps(v, after, out);
}

/// A push leaves the global offset where it was: the offsets of an included
/// region go on from those of the region it was included from.
pub proof fn lemma_push_keeps_offset(
    v: ScannerView,
    filename: Option<Seq<char>>,
    bytes: Seq<u8>,
    room: bool,
)
    requires
        v.wf(),
        v.regions.len() < usize::MAX,
    ensures
        v.pushed(filename, bytes, room).0.pos_zero == v.pos_zero,
        v.pushed(filename, bytes, room).0.wf(),
{
}

/// A content token points at the bytes that were next in the current
/// region, and those bytes are what its span resolves to from then on.
pub proof fn lemma_token_resolves(v: ScannerView, after: ScannerView, token: Token)
    requires
        v.wf(),
        v.next_follows(after, Some(token)),
        token.is_content(),
        !(after.state is ExpectInput),
        v.regions.len() > 0,
    ensures
        after.slice(token.span()->0) == Some(
            v.standing().current().subrange(
                v.standing().pos_region as int,
                v.standing().pos_region + token.content_len(),
            ),
        ),
{
    lemma_next_steps(v, after, Some(token));
}

/// One thing done to a scanner: a pull, or a push of a region.
pub struct Step {
    /// Whether the step is a pull.
    pub pull: bool,
    /// The scanner after the step.
    pub after: ScannerView,
    /// What a pull gave.
    pub out: Option<Token>,
    /// What a push pushed.
    pub bytes: Seq<u8>,
}

/// The scanner in front of step `i` of the steps that were done to `v`.
pub open spec fn before(v: ScannerView, steps: Seq<Step>, i: int) -> ScannerView {
    if i <= 0 {
        v
    } else {
        steps[i - 1].after
    }
}

/// Whether `step` can be done to `v`: it is an outcome of a pull, or a push
/// that went through.
pub open spec fn is_step(v: ScannerView, step: Step) -> bool {
    if step.pull {
        v.next_follows(step.after, step.out)
    } else {
        &&& step.out is None
        &&& v.regions.len() < usize::MAX
        &&& exists|filename: Option<Seq<char>>|
            (step.after, Ok::<(), Token>(())) == #[trigger] v.pushed(filename, step.bytes, true)
    }
}

/// Whether `steps` can be done to `v`, one after the other.
pub open spec fn is_run(v: ScannerView, steps: Seq<Step>) -> bool {
    forall|i: int| 0 <= i < steps.len() ==> is_step(#[trigger] before(v, steps, i), steps[i])
}

/// The number of source bytes that the first `n` of `steps` delivered.
pub open spec fn delivered_len(steps: Seq<Step>, n: int) -> int
    decreases n,
{
    if n <= 0 {
        0
    } else {
        delivered_len(steps, n - 1) + match steps[n - 1].out {
            Some(token) => token.content_len() as int,
            None => 0,
        }
    }
}

/// Whatever is done to a scanner, it stays well-formed and its global
/// offset counts the bytes it delivered.
pub proof fn lemma_run_counts_bytes(v: ScannerView, steps: Seq<Step>, n: int)
    requires
        v.wf(),
        is_run(v, steps),
        0 <= n <= steps.len(),
    ensures
        before(v, steps, n).wf(),
        before(v, steps, n).pos_zero == v.pos_zero + delivered_len(steps, n),
    decreases n,
{
    if n > 0 {
        lemma_run_counts_bytes(v, steps, n - 1);
        let prev = before(v, steps, n - 1);
        let step = steps[n - 1];
        assert(is_step(prev, step));
        if step.pull {
            lemma_pull_counts_bytes(prev, step.after, step.out);
            lemma_next_steps(prev, step.after, step.out);
        } else {
            let filename = choose|filename: Option<Seq<char>>|
                (step.after, Ok::<(), Token>(())) == #[trigger] prev.pushed(
                    filename,
                    step.bytes,
                    true,
                );
            lemma_push_keeps_offset(prev, filename, step.bytes, true);
        }
    }
}

/// The delivered bytes only grow.
pub proof fn lemma_delivered_len_grows(steps: Seq<Step>, m: int, n: int)
    requires
        m <= n,
    ensures
        delivered_len(steps, m) <= delivered_len(steps, n),
    decreases n - m,
{
    if m < n {
        lemma_delivered_len_grows(steps, m, n - 1);
    }
}

/// The global offsets of the content tokens of a stream are contiguous: a
/// content token starts where the one before it ended, whatever else was
/// given between the two and whatever was pushed. So the offsets never go
/// back, and go up behind every token that is not empty.
pub proof fn lemma_offsets_contiguous(v: ScannerView, steps: Seq<Step>, i: int, j: int)
    requires
        v.wf(),
        is_run(v, steps),
        0 <= i < j < steps.len(),
        steps[i].pull && steps[i].out is Some && steps[i].out->0.is_content(),
        steps[j].pull && steps[j].out is Some && steps[j].out->0.is_content(),
    ensures
        steps[i].out->0.span()->0.pos_zero + steps[i].out->0.span()->0.length
            <= steps[j].out->0.span()->0.pos_zero,
        (forall|k: int| i < k < j ==> !(steps[k].out is Some && steps[k].out->0.is_content()))
            ==> steps[j].out->0.span()->0.pos_zero == steps[i].out->0.span()->0.pos_zero
            + steps[i].out->0.span()->0.length,
{
    lemma_run_counts_bytes(v, steps, i);
    lemma_run_counts_bytes(v, steps, j);
    assert(is_step(before(v, steps, i), steps[i]));
    assert(is_step(before(v, steps, j), steps[j]));
    lemma_token_stands_at_scanner(before(v, steps, i), steps[i].after, steps[i].out->0);
    lemma_token_stands_at_scanner(before(v, steps, j), steps[j].after, steps[j].out->0);
    lemma_delivered_len_grows(steps, i + 1, j);
    if forall|k: int| i < k < j ==> !(steps[k].out is Some && steps[k].out->0.is_content()) {
        lemma_nothing_delivered(steps, i + 1, j);
    }
}

/// Steps that give no content token deliver no bytes.
pub proof fn lemma_nothing_delivered(steps: Seq<Step>, m: int, n: int)
    requires
        0 <= m <= n,
        forall|k: int| m <= k < n ==> !(steps[k].out is Some && steps[k].out->0.is_content()),
    ensures
        delivered_len(steps, n) == delivered_len(steps, m),
    decreases n - m,
{
    if m < n {
        lemma_nothing_delivered(steps, m, n - 1);
    }
}

/// The bytes that `span` points at in `regions`.
pub open spec fn bytes_at(regions: Seq<Seq<u8>>, span: Span) -> Seq<u8> {
    regions[span.index as int].subrange(span.pos_region as int, span.end())
}

/// The bytes of the content tokens that the first `n` of `steps` gave, one
/// behind the other.
pub open spec fn delivered_bytes(regions: Seq<Seq<u8>>, steps: Seq<Step>, n: int) -> Seq<u8>
    decreases n,
{
    if n <= 0 {
        Seq::empty()
    } else {
        delivered_bytes(regions, steps, n - 1) + match steps[n - 1].out {
            Some(token) => if token.is_content() {
                bytes_at(regions, token.span()->0)
            } else {
                Seq::empty()
            },
            None => Seq::empty(),
        }
    }
}

/// Round trip: the content tokens pulled from a scanner over one source
/// give, one behind the other, exactly the bytes of the source that the
/// scanner went over; all of it once the scanner stands at its end.
pub proof fn lemma_round_trip(v: ScannerView, steps: Seq<Step>, n: int)
    requires
        v.wf(),
        v.regions.len() == 1,
        is_run(v, steps),
        0 <= n <= steps.len(),
        forall|i: int| 0 <= i < steps.len() ==> (#[trigger] steps[i]).pull,
    ensures
        before(v, steps, n).regions == v.regions,
        before(v, steps, n).index == 0,
        v.pos_region <= before(v, steps, n).pos_region <= v.pos_max,
        delivered_bytes(v.regions, steps, n) == v.regions[0].subrange(
            v.pos_region as int,
            before(v, steps, n).pos_region as int,
        ),
    decreases n,
{
    if n > 0 {
        lemma_round_trip(v, steps, n - 1);
        lemma_run_counts_bytes(v, steps, n - 1);
        let prev = before(v, steps, n - 1);
        let step = steps[n - 1];
        assert(is_step(prev, step));
        assert(step.pull);
        lemma_next_steps(prev, step.after, step.out);
        let source = v.regions[0];
        assert(delivered_bytes(v.regions, steps, n) =~= source.subrange(
            v.pos_region as int,
            step.after.pos_region as int,
        ));
    } else {
        assert(delivered_bytes(v.regions, steps, n) =~= v.regions[0].subrange(
            v.pos_region as int,
            v.pos_region as int,
        ));
    }
}

impl ScannerView {
    /// The bytes that are left of the regions that the first `k` snapshots
    /// behind the first lead back into.
    pub open spec fn left_below(self, k: int) -> int
        decreases k,
    {
        if k <= 0 {
            0
        } else {
            self.left_below(k - 1) + (self.regions[self.snaps[k].index as int].len()
                - self.snaps[k].pos_region)
        }
    }

    /// Whether snapshot `k` leads back into an earlier region, to a place
    /// inside that region. Only the second snapshot leads back into the
    /// first region.
    pub open spec fn leads_back(self, k: int) -> bool {
        let snap = self.snaps[k];
        let below = self.regions[snap.index as int].len();
        &&& snap.index < self.regions.len()
        &&& snap.index == 0 <==> k == 1
        &&& snap.pos_line <= snap.pos_region <= below
        &&& snap.line + (below - snap.pos_region) <= usize::MAX
    }

    /// Whether the regions that the scanner is in form a stack: there is one
    /// snapshot for each of them, each behind the first leading back into an
    /// earlier region; the scanner is in the first region if and only if no
    /// other is open; and the global offset can count all the bytes that are
    /// left.
    pub open spec fn stacked(self) -> bool {
        &&& self.regions.len() > 0
        &&& self.snaps.len() > 0
        &&& self.index == 0 <==> self.snaps.len() == 1
        &&& forall|k: int| 1 <= k < self.snaps.len() ==> #[trigger] self.leads_back(k)
        &&& forall|k: int|
            1 <= k < self.snaps.len() - 1 ==> (#[trigger] self.snaps[k]).index < self.snaps[k
                + 1].index
        &&& self.snaps.len() > 1 ==> self.snaps.last().index < self.index
        &&& self.pos_zero + self.rest() + self.left_below(self.snaps.len() - 1) <= usize::MAX
    }
}

/// What is left below does not depend on what lies above.
pub proof fn lemma_left_below_frame(v: ScannerView, w: ScannerView, k: int)
    requires
        0 <= k < v.snaps.len(),
        k < w.snaps.len(),
        forall|i: int| 1 <= i <= k ==> #[trigger] v.leads_back(i),
        forall|i: int| 0 <= i < v.regions.len() ==> w.regions[i] == v.regions[i],
        forall|i: int| 0 <= i <= k ==> w.snaps[i] == v.snaps[i],
    ensures
        w.left_below(k) == v.left_below(k),
    decreases k,
{
    if k > 0 {
        lemma_left_below_frame(v, w, k - 1);
        assert(v.leads_back(k));
    }
}

/// There is never less than nothing left below a region of a stack.
pub proof fn lemma_left_below_bound(v: ScannerView, k: int)
    requires
        v.stacked(),
        k < v.snaps.len(),
    ensures
        0 <= v.left_below(k),
    decreases k,
{
    if k > 0 {
        lemma_left_below_bound(v, k - 1);
        assert(v.leads_back(k));
    }
}

/// Pushing a region onto a stack gives a stack again, if the global offset
/// can count its bytes too.
pub proof fn lemma_push_stacks(v: ScannerView, filename: Option<Seq<char>>, bytes: Seq<u8>)
    requires
        v.wf(),
        v.regions.len() < usize::MAX,
        if v.regions.len() == 0 {
            v.snaps.len() == 0 && v.pos_zero + bytes.len() <= usize::MAX
        } else {
            &&& v.stacked()
            &&& v.pos_zero + v.rest() + v.left_below(v.snaps.len() - 1) + bytes.len()
                <= usize::MAX
        },
    ensures
        v.pushed(filename, bytes, true).1 is Ok,
        v.pushed(filename, bytes, true).0.stacked(),
{
    let w = v.pushed(filename, bytes, true).0;
    if v.regions.len() > 0 {
        let d = v.snaps.len() - 1;
        lemma_left_below_bound(v, d);
        lemma_left_below_frame(v, w, d);
        assert(w.snaps.len() == d + 2);
        assert(w.snaps[d + 1].index == v.index);
        assert(w.snaps[d + 1].pos_region == v.pos_region);
        assert(w.regions[v.index as int] == v.regions[v.index as int]);
        assert forall|k: int| 1 <= k < w.snaps.len() implies #[trigger] w.leads_back(k) by {
            if k <= d {
                assert(v.leads_back(k));
                assert(w.snaps[k] == v.snaps[k]);
                assert(w.regions[v.snaps[k].index as int] == v.regions[v.snaps[k].index as int]);
            }
        }
        assert forall|k: int| 1 <= k < w.snaps.len() - 1 implies (#[trigger] w.snaps[k]).index
            < w.snaps[k + 1].index by {
            assert(w.snaps[k] == v.snaps[k]);
            if k < d {
                assert(v.snaps[k].index < v.snaps[k + 1].index);
                assert(w.snaps[k + 1] == v.snaps[k + 1]);
            }
        }
        let top = w.snaps[d + 1];
        assert(w.left_below(d + 1) == w.left_below(d) + (w.regions[top.index as int].len()
            - top.pos_region));
    }
}

/// A scanner over a stack returns from every included region that it
/// reaches the end of: the place to return to is on record.
pub proof fn lemma_exhausted_returns(v: ScannerView, token: Token)
    requires
        v.wf(),
        v.stacked(),
        token.is_content(),
        v.stands_at(token.span()->0),
        v.can_pass(token),
        v.passed(token).exhausted(),
    ensures
        v.passed(token).can_return(),
{
    let d = v.snaps.len() - 1;
    assert(v.leads_back(d));
    lemma_left_below_bound(v, d - 1);
    assert(v.left_below(d) == v.left_below(d - 1) + (v.regions[v.snaps[d].index as int].len()
        - v.snaps[d].pos_region));
}

/// Passing a token that does not end the current region leaves a stack.
pub proof fn lemma_passed_keeps_stack(v: ScannerView, token: Token)
    requires
        v.wf(),
        v.stacked(),
        token.span() is Some,
        v.can_pass(token),
        !v.passed(token).exhausted(),
    ensures
        v.passed(token).stacked(),
        v.passed(token).wf(),
{
    let after = v.passed(token);
    let d = v.snaps.len() - 1;
    lemma_left_below_frame(v, after, d);
    assert forall|k: int| 1 <= k < after.snaps.len() implies #[trigger] after.leads_back(k) by {
        assert(v.leads_back(k));
    }
}

/// A step that moves a scanner over a stack by the rules of `stepped`
/// leaves a stack.
pub proof fn lemma_stepped_keeps_stack(v: ScannerView, after: ScannerView, out: Option<Token>)
    requires
        v.wf(),
        v.stacked(),
        v.stepped(after, out),
    ensures
        after.stacked(),
        after.regions == v.regions,
        after.snaps.len() <= v.snaps.len(),
{
    let d = v.snaps.len() - 1;
    if out is Some && out->0.is_content() && v.passed(out->0).exhausted() {
        assert(v.leads_back(d));
        lemma_left_below_frame(v, after, d - 1);
        assert(v.left_below(d) == v.left_below(d - 1) + (v.regions[v.snaps[d].index as int].len()
            - v.snaps[d].pos_region));
        assert forall|k: int| 1 <= k < after.snaps.len() implies #[trigger] after.leads_back(
            k,
        ) by {
            assert(v.leads_back(k));
            assert(after.snaps[k] == v.snaps[k]);
        }
        assert forall|k: int| 1 <= k < after.snaps.len() - 1 implies (
        #[trigger] after.snaps[k]).index < after.snaps[k + 1].index by {
            assert(after.snaps[k] == v.snaps[k]);
            assert(after.snaps[k + 1] == v.snaps[k + 1]);
            assert(v.snaps[k].index < v.snaps[k + 1].index);
        }
        if after.snaps.len() > 1 {
            assert(v.snaps[d - 1].index < v.snaps[d].index);
            assert(after.snaps.last() == v.snaps[d - 1]);
        }
    } else {
        lemma_left_below_frame(v, after, d);
        assert forall|k: int| 1 <= k < after.snaps.len() implies #[trigger] after.leads_back(
            k,
        ) by {
            assert(v.leads_back(k));
        }
    }
}

/// A pull from a scanner over a stack leaves a stack.
pub proof fn lemma_pull_keeps_stack(v: ScannerView, after: ScannerView, out: Option<Token>)
    requires
        v.wf(),
        v.stacked(),
        v.next_follows(after, out),
    ensures
        after.stacked(),
        after.regions == v.regions,
        after.snaps.len() <= v.snaps.len(),
{
    lemma_next_steps(v, after, out);
    lemma_unwound(v);
    lemma_unwound_stacked(v);
    lemma_stepped_keeps_stack(v.standing(), after, out);
}

/// A scanner over a stack returns from every included region that it
/// stands at the end of, and stands over a stack again; what is left to
/// deliver stays what it was.
pub proof fn lemma_returned_stacked(v: ScannerView)
    requires
        v.wf(),
        v.stacked(),
        v.exhausted(),
    ensures
        v.can_return(),
        v.returned().wf(),
        v.returned().stacked(),
        v.returned().rest() + v.returned().left_below(v.returned().snaps.len() - 1) == v.rest()
            + v.left_below(v.snaps.len() - 1),
{
    let d = v.snaps.len() - 1;
    let after = v.returned();
    assert(v.leads_back(d));
    lemma_left_below_bound(v, d - 1);
    assert(v.left_below(d) == v.left_below(d - 1) + (v.regions[v.snaps[d].index as int].len()
        - v.snaps[d].pos_region));
    lemma_left_below_frame(v, after, d - 1);
    assert forall|k: int| 1 <= k < after.snaps.len() implies #[trigger] after.leads_back(k) by {
        assert(v.leads_back(k));
        assert(after.snaps[k] == v.snaps[k]);
    }
    assert forall|k: int| 1 <= k < after.snaps.len() - 1 implies (#[trigger] after.snaps[k]).index
        < after.snaps[k + 1].index by {
        assert(after.snaps[k] == v.snaps[k]);
        assert(after.snaps[k + 1] == v.snaps[k + 1]);
        assert(v.snaps[k].index < v.snaps[k + 1].index);
    }
    if after.snaps.len() > 1 {
        assert(v.snaps[d - 1].index < v.snaps[d].index);
        assert(after.snaps.last() == v.snaps[d - 1]);
    }
}

/// A scanner over a stack that has returned from the regions it stood at
/// the end of stands over a stack, and not at the end of an included
/// region; what is left to deliver stays what it was.
pub proof fn lemma_unwound_stacked(v: ScannerView)
    requires
        v.wf(),
        v.stacked(),
    ensures
        v.unwound().wf(),
        v.unwound().stacked(),
        !v.unwound().exhausted(),
        v.unwound().rest() + v.unwound().left_below(v.unwound().snaps.len() - 1) == v.rest()
            + v.left_below(v.snaps.len() - 1),
    decreases v.index,
{
    if v.exhausted() {
        lemma_returned_stacked(v);
        lemma_unwound_stacked(v.returned());
    }
}

/// A scanner over a stack that stands at the end of its region, and not at
/// the end of an included one, stands in the first region, and the one
/// snapshot that is left is that of the first push: every other push was
/// returned from.
pub proof fn lemma_stack_unwound(v: ScannerView)
    requires
        v.stacked(),
        v.pos_region >= v.pos_max,
        !v.exhausted(),
    ensures
        v.index == 0,
        v.snaps.len() == 1,
{
}

} // verus!
