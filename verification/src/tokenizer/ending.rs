//! Every stream ends: each pull that gives something takes the scanner
//! closer to the end of what it was given. And where the stream ends, the
//! global offset has counted every byte that was pushed.

use vstd::prelude::*;
use crate::token::Token;
use crate::tokenbody::TokenBody;
use crate::tokenbuf::{lemma_filled, no_memory_token};
use crate::tokenizer::args::{lemma_args_state, ArgsScan};
use crate::tokenizer::defered::{first_break, lemma_defered_state};
use crate::tokenizer::flow::{
    lemma_args_plan_flows, lemma_defered_flows, lemma_first_break, lemma_first_open,
    lemma_stands_in, spanless,
};
use crate::tokenizer::ident::spells_include;
use crate::tokenizer::instruction::{
    first_letter, first_open, has_close, last_letter, lemma_count_newlines_bound, lemma_letters,
    CLOSE_PAREN, OPEN_PAREN,
};
use crate::tokenizer::laws::{
    before, is_run, is_step, lemma_delivered_steps, lemma_follows_steps, lemma_left_below_bound,
    lemma_left_below_frame, lemma_next_steps, lemma_stepped_keeps_stack, lemma_unwound,
    lemma_unwound_stacked, Step,
};
use crate::tokenizer::model::{count_up, ScannerView, TokenizerState};
use crate::tokenizer::plan::{Ending, ScanPlan};
use crate::tokenizer::sound::{
    lemma_executed_sound, lemma_failed_is_sound, lemma_left_below_same, lemma_pull_is_sound,
    lemma_nothing_given, lemma_push_is_sound, lemma_queued_pull_sound, lemma_run_is_sound,
    lemma_stream_ends,
    lemma_unwound_sound,
};
use crate::tokenizer::whitespace::{
    count_newlines, first_newline, last_tokens, lemma_first_newline, line_tokens, lines_tokens,
    NEWLINE,
};

verus! {

/// What a queued token counts for: an instruction more than any other
/// token, because the scanner looks for its arguments once it has left.
pub open spec fn cost(token: Token) -> int {
    match token.body() {
        Some(body) => if body is Include {
            8
        } else {
            3
        },
        None => 3,
    }
}

/// What the tokens of a run count for, taken together.
pub open spec fn costs(tokens: Seq<Token>) -> int
    decreases tokens.len(),
{
    if tokens.len() == 0 {
        0
    } else {
        cost(tokens[0]) + costs(tokens.drop_first())
    }
}

/// The number of source bytes that the tokens of a run stand for.
pub open spec fn weight(tokens: Seq<Token>) -> int
    decreases tokens.len(),
{
    if tokens.len() == 0 {
        0
    } else {
        tokens[0].content_len() + weight(tokens.drop_first())
    }
}

impl ScannerView {
    /// The bytes that are left to deliver: those of the current region and
    /// those of the regions that the snapshots lead back into.
    pub open spec fn left(self) -> int {
        self.rest() + self.left_below(self.snaps.len() - 1)
    }

    /// What the mode of the scanner counts for.
    pub open spec fn mode_cost(self) -> int {
        match self.state {
            TokenizerState::ExpectInstructionClose => 4,
            TokenizerState::ExpectInput => if self.last_error is NoInput
                || self.last_error is InternalError {
                0
            } else {
                1
            },
            _ => 0,
        }
    }

    /// How far the scanner is from the end of its stream, at most: a
    /// number that goes down with every pull that gives something. Bytes
    /// that no token stands for yet count most, then bytes that wait in the
    /// queue, then the tokens that wait there, then the mode.
    pub open spec fn distance(self) -> int {
        10 * (self.left() - weight(self.queue.pending)) + self.left() + costs(self.queue.pending)
            + self.mode_cost()
    }
}

/// The costs and the weight of two runs of tokens add up.
pub proof fn lemma_costs_concat(first: Seq<Token>, second: Seq<Token>)
    ensures
        costs(first + second) == costs(first) + costs(second),
        weight(first + second) == weight(first) + weight(second),
    decreases first.len(),
{
    if first.len() == 0 {
        assert(first + second =~= second);
    } else {
        assert((first + second).drop_first() =~= first.drop_first() + second);
        lemma_costs_concat(first.drop_first(), second);
    }
}

/// Tokens cost something and weigh nothing less than nothing.
pub proof fn lemma_costs_bound(tokens: Seq<Token>)
    ensures
        0 <= costs(tokens),
        0 <= weight(tokens),
        3 * tokens.len() <= costs(tokens) <= 8 * tokens.len(),
    decreases tokens.len(),
{
    if tokens.len() > 0 {
        lemma_costs_bound(tokens.drop_first());
    }
}

/// Tokens without spans weigh nothing.
pub proof fn lemma_spanless_weight(tokens: Seq<Token>)
    requires
        spanless(tokens),
    ensures
        weight(tokens) == 0,
        costs(tokens) == 3 * tokens.len(),
    decreases tokens.len(),
{
    if tokens.len() > 0 {
        assert(tokens[0].span() is None);
        assert forall|i: int| 0 <= i < tokens.drop_first().len() implies (
        #[trigger] tokens.drop_first()[i]).span() is None by {
            assert(tokens.drop_first()[i] == tokens[i + 1]);
        }
        lemma_spanless_weight(tokens.drop_first());
    }
}

/// Tokens that flow from where the scanner stands stand for bytes of the
/// current region that are still to be delivered.
pub proof fn lemma_flows_weight(v: ScannerView, tokens: Seq<Token>)
    requires
        v.wf(),
        v.flows(tokens),
    ensures
        weight(tokens) <= v.rest(),
    decreases tokens.len(),
{
    if tokens.len() > 0 {
        let token = tokens[0];
        let more = tokens.drop_first();
        match token.span() {
            None => {
                lemma_flows_weight(v, more);
            },
            Some(span) => {
                if v.passed(token).exhausted() {
                    lemma_spanless_weight(more);
                } else {
                    lemma_flows_weight(v.passed(token), more);
                }
            },
        }
    }
}

/// There is never less than nothing left to deliver over a stack.
pub proof fn lemma_left_bound(v: ScannerView)
    requires
        v.wf(),
        v.stacked(),
    ensures
        0 <= v.rest() <= v.left(),
{
    lemma_left_below_bound(v, v.snaps.len() - 1);
}

impl ScanPlan {
    /// What the step puts in the way of the end of the stream: the tokens
    /// it queues, and the arguments that are looked for behind an
    /// instruction that it delivers.
    pub open spec fn burden(self) -> int {
        costs(self.queued) + match self.ending {
            Ending::Deliver(token) => if cost(token) == 8 {
                4int
            } else {
                0int
            },
            _ => 0int,
        }
    }

    /// What the step takes out of the way: the bytes that its tokens stand
    /// for, those of the token that is delivered at once a little more than
    /// those of the queued ones.
    pub open spec fn relief(self) -> int {
        10 * weight(self.queued) + match self.ending {
            Ending::Deliver(token) => 11 * (token.content_len() as int),
            _ => 0int,
        }
    }
}

/// One token costs what it costs and weighs what it stands for.
pub proof fn lemma_costs_one(token: Token)
    ensures
        costs(seq![token]) == cost(token),
        weight(seq![token]) == token.content_len(),
{
    let one = seq![token];
    assert(one.drop_first() =~= Seq::<Token>::empty());
    assert(costs(one) == cost(one[0]) + costs(one.drop_first()));
    assert(weight(one) == one[0].content_len() + weight(one.drop_first()));
}

/// Two tokens cost and weigh what both do.
pub proof fn lemma_costs_two(first: Token, second: Token)
    ensures
        costs(seq![first, second]) == cost(first) + cost(second),
        weight(seq![first, second]) == first.content_len() + second.content_len(),
{
    assert(seq![first, second] =~= seq![first] + seq![second]);
    lemma_costs_concat(seq![first], seq![second]);
    lemma_costs_one(first);
    lemma_costs_one(second);
}

/// The tokens for whitespace cost no more than three times the bytes they
/// stand for.
pub proof fn lemma_lines_cost(
    s: Seq<u8>,
    index: usize,
    base: int,
    pos: int,
    end: int,
    col: int,
    line: int,
    lines: nat,
)
    requires
        0 <= pos <= end <= usize::MAX,
    ensures
        costs(lines_tokens(s, index, base, pos, end, col, line, lines).0) <= 3 * weight(
            lines_tokens(s, index, base, pos, end, col, line, lines).0,
        ),
    decreases lines,
{
    if lines == 0 {
        let last = last_tokens(s, index, base, pos, end, col, line);
        if pos < end {
            assert(last =~= seq![last[0]]);
            lemma_costs_one(last[0]);
        }
    } else {
        let nl = first_newline(s, pos, end);
        lemma_first_newline(s, pos, end);
        if nl < end {
            let head = line_tokens(index, base, pos, nl, col, line);
            let rest = lines_tokens(s, index, base, nl + 1, end, 0, line + 1, (lines - 1) as nat).0;
            lemma_lines_cost(s, index, base, nl + 1, end, 0, line + 1, (lines - 1) as nat);
            lemma_costs_concat(head, rest);
            if nl > pos {
                lemma_costs_two(head[0], head[1]);
                assert(head =~= seq![head[0], head[1]]);
            } else {
                lemma_costs_one(head[0]);
                assert(head =~= seq![head[0]]);
            }
        }
    }
}

/// The tokens from behind the name of an instruction to its `(` cost no
/// more than three times the bytes they stand for, and three for the
/// warning.
pub proof fn lemma_paren_cost(v: ScannerView, ident_end: int, open: int)
    requires
        v.wf(),
        v.regions.len() > 0,
        v.pos_region <= ident_end < open < v.pos_max,
    ensures
        costs(v.paren_tokens(ident_end, open)) <= 3 * weight(v.paren_tokens(ident_end, open)) + 3,
        1 <= weight(v.paren_tokens(ident_end, open)),
{
    let s = v.current();
    let from = ident_end + 1;
    let space = v.gap_whitespace(ident_end, open);
    let warning = v.gap_warning(ident_end, open);
    let paren = v.open_token(ident_end, open);
    lemma_count_newlines_bound(s, from, open);
    if open - from < 1 {
        assert(space =~= Seq::<Token>::empty());
    } else if count_newlines(s, from, open) == 0 {
        assert(space =~= seq![space[0]]);
        lemma_costs_one(space[0]);
    } else {
        lemma_lines_cost(
            s,
            v.index,
            v.base(),
            from,
            open,
            v.pos_line + (from - v.pos_region),
            v.line as int,
            count_newlines(s, from, open),
        );
    }
    lemma_costs_bound(space);
    if open > from {
        assert(warning =~= seq![warning[0]]);
        lemma_costs_one(warning[0]);
    } else {
        assert(warning =~= Seq::<Token>::empty());
    }
    lemma_costs_one(paren);
    lemma_costs_concat(space, warning);
    lemma_costs_concat(space + warning, seq![paren]);
}

/// The step for `@include` takes more out of the way of the end of the
/// stream than it puts there.
pub proof fn lemma_include_cost(v: ScannerView, at: int, ident_end: int, open: int)
    requires
        v.wf(),
        v.regions.len() > 0,
        v.pos_region <= at <= ident_end < open < v.pos_max,
    ensures
        v.include_plan(at, ident_end, open).burden() < v.include_plan(
            at,
            ident_end,
            open,
        ).relief(),
{
    let tail = v.paren_tokens(ident_end, open);
    let instruction = Token::Real(TokenBody::Include(v.span_on_line(at, ident_end - at + 1)));
    lemma_paren_cost(v, ident_end, open);
    lemma_costs_one(instruction);
    lemma_costs_concat(seq![instruction], tail);
}

/// The step for a literal `@` takes more out of the way of the end of the
/// stream than it puts there.
pub proof fn lemma_literal_cost(v: ScannerView, at: int, notes: Seq<Token>)
    requires
        v.wf(),
        v.regions.len() > 0,
        v.pos_region <= at < v.pos_max,
        spanless(notes),
        notes.len() <= 1,
    ensures
        v.literal_plan(at, notes).burden() < v.literal_plan(at, notes).relief(),
{
    let token = Token::Real(TokenBody::UnescapedAt(v.span_on_line(at, 1)));
    lemma_spanless_weight(notes);
    lemma_costs_one(token);
    lemma_costs_concat(seq![token], notes);
}

/// A step for an `@` delivers something, and takes more out of the way of
/// the end of the stream than it puts there.
pub proof fn lemma_instruction_cost(v: ScannerView, at: int)
    requires
        v.wf(),
        v.regions.len() > 0,
        v.pos_region <= at < v.pos_max,
    ensures
        v.instruction_plan(at).ending is Deliver,
        v.instruction_plan(at).burden() < v.instruction_plan(at).relief(),
{
    let s = v.current();
    let open = first_open(s, at + 1);
    lemma_stands_in(v);
    lemma_first_open(s, at + 1);
    if open >= s.len() {
        assert(v.unfinished_plan().queued =~= Seq::<Token>::empty());
    } else if has_close(s, at + 1, open) {
        let notes = seq![v.bad_paren_error(at)];
        lemma_literal_cost(v, at, notes);
    } else {
        lemma_letters(s, at + 1, open);
        match first_letter(s, at + 1, open) {
            Some(first) => {
                if first == at + 1 {
                    let last = last_letter(s, at + 1, open)->0;
                    if spells_include(s, first, last) {
                        lemma_include_cost(v, at, last, open);
                    } else {
                        lemma_literal_cost(v, at, Seq::empty());
                    }
                } else {
                    lemma_literal_cost(v, at, Seq::empty());
                }
            },
            None => {
                lemma_literal_cost(v, at, Seq::empty());
            },
        }
    }
}

/// A step of the ordinary scan that delivers something takes more out of
/// the way of the end of the stream than it puts there.
pub proof fn lemma_defered_cost(v: ScannerView)
    requires
        v.wf(),
    ensures
        v.defered_plan().ending is Nothing || v.defered_plan().burden()
            < v.defered_plan().relief(),
{
    let s = v.current();
    let pos = v.pos_region as int;
    if pos < s.len() {
        let stop = first_break(s, pos);
        lemma_stands_in(v);
        lemma_first_break(s, pos);
        if stop >= s.len() {
            assert(v.defered_plan().queued =~= Seq::<Token>::empty());
        } else if s[stop] == NEWLINE {
            if stop == pos {
                assert(v.defered_plan().queued =~= Seq::<Token>::empty());
            } else {
                lemma_costs_one(Token::Real(TokenBody::Newline(v.span_on_line(stop, 1))));
            }
        } else {
            lemma_instruction_cost(v, stop);
        }
    }
}

/// What is left to do for a scan of arguments puts no more than three in
/// the way of the end of the stream beyond what it takes out of it.
pub proof fn lemma_args_cost(v: ScannerView, s: Seq<u8>, pos: int, a: ArgsScan)
    requires
        0 <= a.run_start <= pos <= s.len() <= usize::MAX,
    ensures
        v.args_tail(s, pos, a).burden() <= v.args_tail(s, pos, a).relief() + 3,
    decreases s.len() - pos,
{
    let run = v.args_run(a, pos);
    if pos >= s.len() {
        let error = v.open_instruction_error();
        if a.run_start < pos {
            lemma_costs_two(run, error);
            assert(seq![run] + seq![error] =~= seq![run, error]);
        } else {
            lemma_costs_one(error);
            assert(Seq::<Token>::empty() + seq![error] =~= seq![error]);
        }
    } else if s[pos] == NEWLINE {
        let next = ArgsScan { run_start: pos + 1, col: 0, line: a.line + 1, any: true, ..a };
        let rest = v.args_tail(s, pos + 1, next);
        let newline = Token::Real(TokenBody::Newline(v.args_byte(a, pos)));
        lemma_args_cost(v, s, pos + 1, next);
        lemma_costs_two(run, newline);
        lemma_costs_concat(seq![run, newline], rest.queued);
    } else if s[pos] == OPEN_PAREN {
        lemma_args_cost(v, s, pos + 1, ArgsScan { open: count_up(a.open), ..a });
    } else if s[pos] == CLOSE_PAREN {
        let counted = ArgsScan { close: count_up(a.close), ..a };
        if counted.close == counted.open {
            let paren = Token::Real(TokenBody::CloseParen(v.args_byte(a, pos)));
            if a.run_start < pos {
                lemma_costs_two(run, paren);
            } else if a.any {
                lemma_costs_one(paren);
            } else {
                assert(v.args_tail(s, pos, a).queued =~= Seq::<Token>::empty());
            }
        } else {
            lemma_args_cost(v, s, pos + 1, counted);
        }
    } else {
        lemma_args_cost(v, s, pos + 1, a);
    }
}

/// A step takes from what is left to deliver the bytes of the content token
/// that it gives, and nothing else.
pub proof fn lemma_stepped_left(v: ScannerView, after: ScannerView, out: Option<Token>)
    requires
        v.wf(),
        v.stacked(),
        v.stepped(after, out),
    ensures
        after.left() == v.left() - match out {
            Some(token) => token.content_len() as int,
            None => 0,
        },
{
    let d = v.snaps.len() - 1;
    if out is Some && out->0.is_content() && v.passed(out->0).exhausted() {
        assert(v.leads_back(d));
        lemma_left_below_frame(v, after, d - 1);
        assert(v.left_below(d) == v.left_below(d - 1) + (v.regions[v.snaps[d].index as int].len()
            - v.snaps[d].pos_region));
    } else {
        lemma_left_below_frame(v, after, d);
    }
}

/// The delivery of a queued token takes a scanner that is in order closer
/// to the end of its stream.
pub proof fn lemma_queued_pull_descends(v: ScannerView, room: bool)
    requires
        v.sound(),
        v.queue.pending.len() > 0,
    ensures
        ({
            let taken = v.with_queue(v.queue.popped());
            let after = taken.delivered(v.queue.pending[0], room).0;
            0 <= after.distance() < v.distance()
        }),
{
    let taken = v.with_queue(v.queue.popped());
    let token = v.queue.pending[0];
    let more = v.queue.pending.drop_first();
    let after = taken.delivered(token, room).0;
    lemma_queued_pull_sound(v, room);
    lemma_left_below_same(v, taken);
    lemma_delivered_steps(taken, token, room);
    lemma_stepped_left(taken, after, Some(token));
    lemma_left_below_frame(v, taken, v.snaps.len() - 1);
    assert(after.queue.pending =~= more);
    lemma_flows_weight(after, more);
    lemma_left_bound(after);
    lemma_costs_bound(more);
}

/// A step that gives something and goes as its plan says takes a scanner
/// that is in order closer to the end of its stream, if the step takes more
/// out of the way than it puts there.
pub proof fn lemma_executed_descends(v: ScannerView, plan: ScanPlan, room: bool)
    requires
        v.sound(),
        v.queue.pending.len() == 0,
        v.flows(plan.order()),
        plan.state is ExpectDefered,
        v.state is ExpectDefered || v.state is ExpectInstructionClose,
        v.executed(plan, room).1 is Some,
        plan.burden() < plan.relief() + v.mode_cost(),
    ensures
        0 <= v.executed(plan, room).0.distance() < v.distance(),
{
    let after = v.executed(plan, room).0;
    let out = v.executed(plan, room).1;
    lemma_executed_sound(v, plan, room);
    lemma_follows_steps(v, plan, after, out);
    lemma_stepped_keeps_stack(v, after, out);
    lemma_stepped_left(v, after, out);
    lemma_filled(v.queue, plan.queued);
    assert(v.queue.pending =~= Seq::<Token>::empty());
    assert(after.queue.pending =~= plan.queued);
    lemma_flows_weight(after, plan.queued);
    lemma_left_bound(after);
    lemma_costs_bound(plan.queued);
}

/// An outcome of a step that gives something takes a scanner that is in
/// order no further from the end of its stream, and closer to it unless
/// memory ran out, if the step takes more out of the way than it puts
/// there.
pub proof fn lemma_follows_descends(
    v: ScannerView,
    plan: ScanPlan,
    after: ScannerView,
    out: Option<Token>,
)
    requires
        v.sound(),
        v.queue.pending.len() == 0,
        v.flows(plan.order()),
        plan.state is ExpectDefered,
        v.state is ExpectDefered || v.state is ExpectInstructionClose,
        v.follows(plan, after, out),
        out is Some,
        plan.burden() < plan.relief() + v.mode_cost(),
    ensures
        0 <= after.distance() <= v.distance(),
        out != Some(no_memory_token()) ==> after.distance() < v.distance(),
{
    if (after, out) == v.executed(plan, true) {
        lemma_executed_descends(v, plan, true);
    } else if (after, out) == v.executed(plan, false) {
        lemma_executed_descends(v, plan, false);
    } else {
        lemma_left_bound(v);
        lemma_left_below_frame(v, after, v.snaps.len() - 1);
        assert(v.queue.pending =~= Seq::<Token>::empty());
        assert(after.queue.pending =~= Seq::<Token>::empty());
    }
}

/// Every pull that gives something takes a scanner that is in order closer
/// to the end of its stream, as long as memory is there for its tokens; and
/// no further from it where memory ran out.
pub proof fn lemma_pull_descends(v: ScannerView, after: ScannerView, out: Option<Token>)
    requires
        v.sound(),
        v.next_follows(after, out),
        out is Some,
    ensures
        0 <= after.distance() <= v.distance(),
        out != Some(no_memory_token()) ==> after.distance() < v.distance(),
{
    if v.queue.pending.len() > 0 {
        lemma_queued_pull_descends(v, true);
        lemma_queued_pull_descends(v, false);
        assert(0 <= after.distance() < v.distance()) by {
            reveal(ScannerView::next_follows);
        }
    } else {
        match v.state {
            TokenizerState::ExpectDefered => {
                let there = v.unwound();
                lemma_unwound_sound(v);
                lemma_unwound_stacked(v);
                lemma_unwound(v);
                assert(there.distance() == v.distance());
                lemma_defered_flows(there);
                lemma_defered_cost(there);
                lemma_defered_state(there);
                assert(there.follows(there.defered_plan(), after, out)) by {
                    reveal(ScannerView::next_follows);
                }
                lemma_executed_sound(there, there.defered_plan(), true);
                lemma_executed_sound(there, there.defered_plan(), false);
                lemma_follows_descends(there, there.defered_plan(), after, out);
            },
            TokenizerState::ExpectInstructionClose => {
                lemma_args_plan_flows(v);
                lemma_args_state(v);
                if v.regions.len() > 0 {
                    lemma_stands_in(v);
                }
                lemma_args_cost(
                    v,
                    v.current(),
                    v.pos_region as int,
                    ArgsScan {
                        run_start: v.pos_region as int,
                        col: v.pos_line as int,
                        line: v.line as int,
                        open: v.cnt_openparen,
                        close: v.cnt_closeparen,
                        any: false,
                    },
                );
                assert(v.follows(v.args_plan(), after, out)) by {
                    reveal(ScannerView::next_follows);
                }
                lemma_follows_descends(v, v.args_plan(), after, out);
            },
            TokenizerState::ExpectInput => {
                assert(after == (ScannerView { last_error: v.no_input_error(), ..v }) && !(
                v.last_error is NoInput || v.last_error is InternalError)) by {
                    reveal(ScannerView::next_follows);
                }
                lemma_left_below_frame(v, after, v.snaps.len() - 1);
                lemma_left_bound(v);
                assert(v.queue.pending =~= Seq::<Token>::empty());
            },
            TokenizerState::Failed => {
                assert(false) by {
                    reveal(ScannerView::next_follows);
                }
            },
        }
    }
}

/// No pull takes a scanner that is in order further from the end of its
/// stream, and every pull that gives something takes it closer, as long as
/// memory is there for its tokens.
pub proof fn lemma_pull_never_ascends(v: ScannerView, after: ScannerView, out: Option<Token>)
    requires
        v.ready(),
        v.next_follows(after, out),
    ensures
        0 <= after.distance() <= v.distance(),
        out is Some && out != Some(no_memory_token()) ==> after.distance() < v.distance(),
{
    if !v.sound() {
        assert(v.queue.pending =~= Seq::<Token>::empty());
        assert(v.left_below(v.snaps.len() - 1) == 0);
        lemma_pull_leaves_untouched(v, after, out);
        assert(after.queue.pending =~= Seq::<Token>::empty());
        assert(after.left_below(after.snaps.len() - 1) == 0);
        assert(after.mode_cost() <= v.mode_cost() && (out is Some ==> after.mode_cost()
            < v.mode_cost())) by {
            reveal(ScannerView::next_follows);
        }
    } else if out is Some {
        lemma_pull_descends(v, after, out);
    } else {
        lemma_nothing_given(v, after);
        lemma_left_bound(v);
        lemma_costs_bound(v.queue.pending);
        assert(v.queue.pending =~= Seq::<Token>::empty());
        if v.state is ExpectDefered {
            lemma_stream_ends(v, after);
            lemma_unwound_stacked(v);
            lemma_unwound(v);
        } else {
            assert(after == v) by {
                reveal(ScannerView::next_follows);
            }
        }
    }
}

/// Every stream ends: a scanner that is in order gives no more tokens, one
/// after the other, than its distance says.
pub proof fn lemma_stream_is_finite(v: ScannerView, steps: Seq<Step>, n: int)
    requires
        v.sound(),
        is_run(v, steps),
        0 <= n <= steps.len(),
        forall|i: int|
            0 <= i < steps.len() ==> (#[trigger] steps[i]).pull && steps[i].out is Some
                && steps[i].out != Some(no_memory_token()),
    ensures
        0 <= before(v, steps, n).distance() <= v.distance() - n,
    decreases n,
{
    if n > 0 {
        lemma_stream_is_finite(v, steps, n - 1);
        lemma_run_is_sound(v, steps, n - 1);
        let prev = before(v, steps, n - 1);
        let step = steps[n - 1];
        assert(is_step(prev, step));
        lemma_pull_descends(prev, step.after, step.out);
    } else {
        lemma_left_bound(v);
        lemma_flows_weight(v, v.queue.pending);
        lemma_costs_bound(v.queue.pending);
    }
}

impl ScannerView {
    /// Whether the scanner was given nothing yet: it has no region, and
    /// nothing in its queue.
    pub open spec fn untouched(self) -> bool {
        &&& self.wf()
        &&& self.regions.len() == 0
        &&& self.snaps.len() == 0
        &&& self.queue.pending.len() == 0
        &&& self.queue.backing == 0
    }

    /// Whether the scanner is in order or was given nothing yet.
    pub open spec fn ready(self) -> bool {
        self.sound() || self.untouched()
    }

    /// The global offset at which the stream ends if nothing more is
    /// pushed: the offset of the scanner, and the bytes that are left to
    /// deliver.
    pub open spec fn reach(self) -> int {
        self.pos_zero + self.left()
    }
}

/// The number of bytes that the pushes among the first `n` of `steps`
/// pushed.
pub open spec fn pushed_len(steps: Seq<Step>, n: int) -> int
    decreases n,
{
    if n <= 0 {
        0
    } else {
        pushed_len(steps, n - 1) + if steps[n - 1].pull {
            0
        } else {
            steps[n - 1].bytes.len() as int
        }
    }
}

/// Whether each pull among `steps` had the memory for its tokens, and each
/// push was one that the scanner takes.
pub open spec fn goes_through(v: ScannerView, steps: Seq<Step>) -> bool {
    forall|i: int|
        0 <= i < steps.len() ==> if (#[trigger] steps[i]).pull {
            steps[i].out != Some(no_memory_token())
        } else {
            before(v, steps, i).takes(steps[i].bytes)
        }
}

/// A scanner that was given nothing yet stands at offset zero with nothing
/// left to deliver.
pub proof fn lemma_fresh_is_ready(guard: bool)
    ensures
        ScannerView::fresh(guard).ready(),
        ScannerView::fresh(guard).reach() == 0,
{
}

/// A scanner that fails stays in order, or without a region, and the end of
/// its stream stays where it was.
pub proof fn lemma_failed_is_ready(v: ScannerView)
    requires
        v.ready(),
    ensures
        v.failed().ready(),
        v.failed().reach() == v.reach(),
{
    if v.sound() {
        lemma_failed_is_sound(v);
        lemma_left_below_frame(v, v.failed(), v.snaps.len() - 1);
    } else {
        assert(v.left_below(v.snaps.len() - 1) == 0);
        assert(v.failed().left_below(v.failed().snaps.len() - 1) == 0);
    }
}

/// A push takes the end of the stream on by the bytes that it pushes.
pub proof fn lemma_push_adds_reach(v: ScannerView, filename: Option<Seq<char>>, bytes: Seq<u8>)
    requires
        v.takes(bytes),
    ensures
        v.pushed(filename, bytes, true).1 is Ok,
        v.pushed(filename, bytes, true).0.sound(),
        v.pushed(filename, bytes, true).0.reach() == v.reach() + bytes.len(),
{
    let w = v.pushed(filename, bytes, true).0;
    lemma_push_is_sound(v, filename, bytes);
    if v.regions.len() > 0 {
        let d = v.snaps.len() - 1;
        lemma_left_below_frame(v, w, d);
        assert(w.snaps.len() == d + 2);
        assert(w.snaps[d + 1].index == v.index);
        assert(w.snaps[d + 1].pos_region == v.pos_region);
        assert(w.regions[v.index as int] == v.regions[v.index as int]);
        let top = w.snaps[d + 1];
        assert(w.left_below(d + 1) == w.left_below(d) + (w.regions[top.index as int].len()
            - top.pos_region));
    }
}

/// A pull from a scanner over a stack takes from the bytes that are left
/// what it adds to the global offset.
pub proof fn lemma_pull_takes_left(v: ScannerView, after: ScannerView, out: Option<Token>)
    requires
        v.wf(),
        v.stacked(),
        v.next_follows(after, out),
    ensures
        after.reach() == v.reach(),
{
    let s = v.standing();
    lemma_next_steps(v, after, out);
    lemma_unwound_stacked(v);
    assert(s.left() == v.left());
    lemma_stepped_left(s, after, out);
}

/// A pull from a scanner that was given nothing yet leaves it as it was,
/// but for the error on record.
pub proof fn lemma_pull_leaves_untouched(v: ScannerView, after: ScannerView, out: Option<Token>)
    requires
        v.untouched(),
        v.next_follows(after, out),
    ensures
        after.untouched(),
        after.reach() == v.reach(),
        after.state == v.state,
{
    reveal(ScannerView::next_follows);
}

/// A pull leaves the end of the stream where it was: what it takes from
/// the bytes that are left, it adds to the global offset.
pub proof fn lemma_pull_keeps_reach(v: ScannerView, after: ScannerView, out: Option<Token>)
    requires
        v.ready(),
        v.next_follows(after, out),
        out != Some(no_memory_token()),
    ensures
        after.ready(),
        after.reach() == v.reach(),
        after.state is Failed ==> v.state is Failed,
{
    if v.sound() {
        lemma_pull_is_sound(v, after, out);
        lemma_pull_takes_left(v, after, out);
    } else {
        lemma_pull_leaves_untouched(v, after, out);
    }
}

/// Whatever is pushed and pulled, a scanner stays in order, and the end of
/// its stream moves on by the bytes that were pushed, and by nothing else.
pub proof fn lemma_run_keeps_reach(v: ScannerView, steps: Seq<Step>, n: int)
    requires
        v.ready(),
        is_run(v, steps),
        goes_through(v, steps),
        0 <= n <= steps.len(),
    ensures
        before(v, steps, n).ready(),
        before(v, steps, n).reach() == v.reach() + pushed_len(steps, n),
        before(v, steps, n).state is Failed ==> v.state is Failed,
    decreases n,
{
    if n > 0 {
        lemma_run_keeps_reach(v, steps, n - 1);
        let prev = before(v, steps, n - 1);
        let step = steps[n - 1];
        assert(is_step(prev, step));
        if step.pull {
            lemma_pull_keeps_reach(prev, step.after, step.out);
        } else {
            let filename = choose|filename: Option<Seq<char>>|
                (step.after, Ok::<(), Token>(())) == #[trigger] prev.pushed(
                    filename,
                    step.bytes,
                    true,
                );
            lemma_push_adds_reach(prev, filename, step.bytes);
        }
    }
}

/// Where the stream of a scanner that is in order ends, the scanner stands
/// in the first region with one snapshot left, and the global offset has
/// reached the end of the stream.
pub proof fn lemma_end_is_reached(v: ScannerView, after: ScannerView)
    requires
        v.sound(),
        v.queue.pending.len() == 0,
        v.state is ExpectDefered,
        v.next_follows(after, None),
    ensures
        after.index == 0,
        after.snaps.len() == 1,
        after.pos_zero == v.reach(),
{
    lemma_stream_ends(v, after);
    lemma_pull_takes_left(v, after, None);
    assert(after.left_below(0) == 0);
}

/// Where a stream ends, every byte that was pushed was delivered: the
/// scanner has returned from every region that was pushed onto another,
/// one snapshot is left, that of the first push, and the global offset has
/// gone on by the lengths of all the regions that were pushed, and by what
/// was left before.
pub proof fn lemma_stream_counts_pushes(v: ScannerView, steps: Seq<Step>)
    requires
        v.ready(),
        is_run(v, steps),
        goes_through(v, steps),
        steps.len() > 0,
        steps.last().pull,
        steps.last().out is None,
        !(v.state is Failed),
        before(v, steps, steps.len() - 1).regions.len() > 0,
    ensures
        steps.last().after.index == 0,
        steps.last().after.snaps.len() == 1,
        steps.last().after.pos_zero == v.reach() + pushed_len(steps, steps.len() as int),
{
    let n = steps.len() as int;
    let last = before(v, steps, n - 1);
    lemma_run_keeps_reach(v, steps, n - 1);
    assert(last.sound());
    assert(is_step(last, steps[n - 1]));
    assert(last.next_follows(steps[n - 1].after, None));
    lemma_nothing_given(last, steps[n - 1].after);
    lemma_end_is_reached(last, steps[n - 1].after);
    assert(pushed_len(steps, n) == pushed_len(steps, n - 1));
}

/// Whether the first `n` of `steps` are pushes, and the others pulls that
/// had the memory for their tokens.
pub open spec fn pushes_then_pulls(steps: Seq<Step>, n: int) -> bool {
    &&& 0 <= n <= steps.len()
    &&& forall|i: int| 0 <= i < steps.len() ==> ((#[trigger] steps[i]).pull <==> n <= i)
    &&& forall|i: int|
        n <= i < steps.len() ==> (#[trigger] steps[i]).out != Some(no_memory_token())
}

/// The pushed bytes only grow.
pub proof fn lemma_pushed_len_grows(steps: Seq<Step>, m: int, n: int)
    requires
        0 <= m <= n,
    ensures
        pushed_len(steps, m) <= pushed_len(steps, n),
    decreases n - m,
{
    if m < n {
        lemma_pushed_len_grows(steps, m, n - 1);
    }
}

/// A scanner that was given nothing yet takes one region after the other,
/// as long as the global offset can count the bytes of all of them.
pub proof fn lemma_pushes_are_taken(v: ScannerView, steps: Seq<Step>, n: int, k: int)
    requires
        v.untouched(),
        !(v.state is Failed),
        is_run(v, steps),
        pushes_then_pulls(steps, n),
        v.pos_zero + pushed_len(steps, n) <= usize::MAX,
        0 <= k <= n,
    ensures
        before(v, steps, k).ready(),
        before(v, steps, k).queue.pending.len() == 0,
        before(v, steps, k).queue.backing == 0,
        before(v, steps, k).reach() == v.pos_zero + pushed_len(steps, k),
        k < n ==> before(v, steps, k).takes(steps[k].bytes),
        k > 0 ==> before(v, steps, k).sound() && !(before(v, steps, k).state is Failed),
    decreases k,
{
    let here = before(v, steps, k);
    if k > 0 {
        lemma_pushes_are_taken(v, steps, n, k - 1);
        let prev = before(v, steps, k - 1);
        let step = steps[k - 1];
        assert(is_step(prev, step));
        let filename = choose|filename: Option<Seq<char>>|
            (step.after, Ok::<(), Token>(())) == #[trigger] prev.pushed(
                filename,
                step.bytes,
                true,
            );
        lemma_push_adds_reach(prev, filename, step.bytes);
    }
    if k < n {
        assert(is_step(here, steps[k]));
        assert(!steps[k].pull);
        assert(here.regions.len() < usize::MAX);
        lemma_pushed_len_grows(steps, k + 1, n);
        assert(pushed_len(steps, k + 1) == pushed_len(steps, k) + steps[k].bytes.len());
        assert(here.reach() + steps[k].bytes.len() <= usize::MAX);
        if here.sound() {
            assert(here.takes(steps[k].bytes));
        } else {
            assert(here.left() == 0);
            assert(here.takes(steps[k].bytes));
        }
    }
}

/// Pulls that had the memory for their tokens leave a scanner in order,
/// and the end of its stream where it was.
pub proof fn lemma_pulls_keep_reach(v: ScannerView, steps: Seq<Step>, n: int, k: int)
    requires
        is_run(v, steps),
        pushes_then_pulls(steps, n),
        n <= k <= steps.len(),
        before(v, steps, n).sound(),
        !(before(v, steps, n).state is Failed),
    ensures
        before(v, steps, k).sound(),
        before(v, steps, k).reach() == before(v, steps, n).reach(),
        !(before(v, steps, k).state is Failed),
    decreases k,
{
    if k > n {
        lemma_pulls_keep_reach(v, steps, n, k - 1);
        let prev = before(v, steps, k - 1);
        let step = steps[k - 1];
        assert(is_step(prev, step));
        lemma_pull_is_sound(prev, step.after, step.out);
        lemma_pull_takes_left(prev, step.after, step.out);
    }
}

/// Regions are pushed onto a scanner that was given nothing yet, and tokens
/// are pulled until the stream ends: then the scanner is back in the first
/// region, one snapshot is left, that of the first push, and the global
/// offset is the sum of the lengths of the regions.
pub proof fn lemma_pushes_then_pulls(guard: bool, steps: Seq<Step>, n: int)
    requires
        is_run(ScannerView::fresh(guard), steps),
        pushes_then_pulls(steps, n),
        1 <= n < steps.len(),
        pushed_len(steps, n) <= usize::MAX,
        steps.last().out is None,
    ensures
        steps.last().after.index == 0,
        steps.last().after.snaps.len() == 1,
        steps.last().after.pos_zero == pushed_len(steps, n),
{
    let v = ScannerView::fresh(guard);
    let len = steps.len() as int;
    lemma_pushes_are_taken(v, steps, n, n);
    lemma_pulls_keep_reach(v, steps, n, len - 1);
    let last = before(v, steps, len - 1);
    assert(is_step(last, steps[len - 1]));
    assert(last.next_follows(steps[len - 1].after, None));
    lemma_nothing_given(last, steps[len - 1].after);
    lemma_end_is_reached(last, steps[len - 1].after);
}

} // verus!
