//! Behind the parenthesis that closes the arguments of an instruction the
//! queue of the scanner is empty: this is the moment at which a file can be
//! pushed in the place of the instruction.

use vstd::prelude::*;
use crate::token::Token;
use crate::tokenbody::TokenBody;
use crate::tokenizer::args::{lemma_args_state, ArgsScan};
use crate::tokenizer::defered::{first_break, lemma_defered_state};
use crate::tokenizer::flow::{
    lemma_args_plan_flows, lemma_args_signals, lemma_defered_flows, lemma_flows_frame,
};
use crate::tokenizer::ident::spells_include;
use crate::tokenizer::instruction::{
    first_letter, first_open, has_close, last_letter, CLOSE_PAREN, OPEN_PAREN,
};
use crate::tokenizer::model::{count_up, ScannerView, TokenizerState};
use crate::tokenizer::sound::{
    lemma_executed_sound, lemma_first_is_delivered, lemma_left_below_same, lemma_unwound_sound,
};
use crate::tokenizer::whitespace::{count_newlines, first_newline, lines_tokens, NEWLINE};

verus! {

/// Whether `token` is the parenthesis that closes the arguments of an
/// instruction.
pub open spec fn closes(token: Token) -> bool {
    match token.body() {
        Some(body) => body is CloseParen,
        None => false,
    }
}

/// Whether no token of `tokens` closes the arguments of an instruction.
pub open spec fn open_ended(tokens: Seq<Token>) -> bool {
    forall|i: int| 0 <= i < tokens.len() ==> !closes(#[trigger] tokens[i])
}

/// Whether nothing stands behind a closing parenthesis in `tokens`.
pub open spec fn tidy(tokens: Seq<Token>) -> bool {
    forall|i: int| 0 <= i < tokens.len() && closes(#[trigger] tokens[i]) ==> i == tokens.len() - 1
}

/// The tokens for whitespace close nothing.
pub proof fn lemma_lines_open_ended(
    s: Seq<u8>,
    index: usize,
    base: int,
    pos: int,
    end: int,
    col: int,
    line: int,
    lines: nat,
)
    ensures
        open_ended(lines_tokens(s, index, base, pos, end, col, line, lines).0),
    decreases lines,
{
    if lines > 0 {
        let nl = first_newline(s, pos, end);
        if nl < end {
            lemma_lines_open_ended(s, index, base, nl + 1, end, 0, line + 1, (lines - 1) as nat);
        }
    }
}

/// Two runs of tokens that close nothing close nothing together.
pub proof fn lemma_open_ended_concat(first: Seq<Token>, second: Seq<Token>)
    requires
        open_ended(first),
        open_ended(second),
    ensures
        open_ended(first + second),
{
    assert forall|i: int| 0 <= i < (first + second).len() implies !closes(
        #[trigger] (first + second)[i],
    ) by {
        if i < first.len() {
            assert((first + second)[i] == first[i]);
        } else {
            assert((first + second)[i] == second[i - first.len()]);
        }
    }
}

/// The tokens from behind the name of an instruction to its `(` close
/// nothing.
pub proof fn lemma_paren_open_ended(v: ScannerView, ident_end: int, open: int)
    ensures
        open_ended(v.paren_tokens(ident_end, open)),
{
    let s = v.current();
    let from = ident_end + 1;
    let lines = count_newlines(s, from, open);
    lemma_lines_open_ended(
        v.regions[v.index as int],
        v.index,
        v.base(),
        from,
        from + (open - from),
        v.pos_line + (from - v.pos_region),
        v.line as int,
        ((v.line + lines) - v.line) as nat,
    );
    lemma_open_ended_concat(v.gap_whitespace(ident_end, open), v.gap_warning(ident_end, open));
    lemma_open_ended_concat(
        v.gap_whitespace(ident_end, open) + v.gap_warning(ident_end, open),
        seq![v.open_token(ident_end, open)],
    );
}

/// No step for an `@` queues or delivers a closing parenthesis.
pub proof fn lemma_instruction_open_ended(v: ScannerView, at: int)
    ensures
        open_ended(v.instruction_plan(at).order()),
{
    let s = v.current();
    let open = first_open(s, at + 1);
    if open < s.len() && !has_close(s, at + 1, open) {
        match first_letter(s, at + 1, open) {
            Some(first) => {
                if first == at + 1 {
                    let last = last_letter(s, at + 1, open)->0;
                    if spells_include(s, first, last) {
                        let instruction = Token::Real(
                            TokenBody::Include(v.span_on_line(at, last - at + 1)),
                        );
                        lemma_paren_open_ended(v, last, open);
                        lemma_open_ended_concat(seq![instruction], v.paren_tokens(last, open));
                        let plan = v.include_plan(at, last, open);
                        lemma_open_ended_concat(
                            seq![plan.ending->Deliver_0],
                            plan.queued,
                        );
                    }
                }
            },
            None => {},
        }
    }
}

/// No step of the ordinary scan queues or delivers a closing parenthesis.
pub proof fn lemma_defered_open_ended(v: ScannerView)
    ensures
        open_ended(v.defered_plan().order()),
{
    let s = v.current();
    let pos = v.pos_region as int;
    let stop = first_break(s, pos);
    if pos < s.len() && stop < s.len() && s[stop] != NEWLINE {
        lemma_instruction_open_ended(v, stop);
    }
}

/// Nothing stands behind the closing parenthesis in what a scan of
/// arguments queues, and a closing parenthesis that is delivered at once
/// comes with an empty queue.
pub proof fn lemma_args_tidy(v: ScannerView, s: Seq<u8>, pos: int, a: ArgsScan)
    ensures
        tidy(v.args_tail(s, pos, a).queued),
        v.args_tail(s, pos, a).ending is Deliver ==> v.args_tail(s, pos, a).queued.len() == 0,
    decreases s.len() - pos,
{
    if pos < s.len() {
        if s[pos] == NEWLINE {
            let next = ArgsScan { run_start: pos + 1, col: 0, line: a.line + 1, any: true, ..a };
            lemma_args_tidy(v, s, pos + 1, next);
            lemma_args_signals(v, s, pos + 1, next);
        } else if s[pos] == OPEN_PAREN {
            lemma_args_tidy(v, s, pos + 1, ArgsScan { open: count_up(a.open), ..a });
        } else if s[pos] == CLOSE_PAREN {
            let counted = ArgsScan { close: count_up(a.close), ..a };
            if counted.close != counted.open {
                lemma_args_tidy(v, s, pos + 1, counted);
            }
        } else {
            lemma_args_tidy(v, s, pos + 1, a);
        }
    }
}

/// A step of the ordinary scan queues and gives no closing parenthesis.
pub proof fn lemma_defered_tidy(v: ScannerView, after: ScannerView, out: Option<Token>)
    requires
        v.sound(),
        v.queue.pending.len() == 0,
        v.state is ExpectDefered,
        v.follows(v.defered_plan(), after, out),
    ensures
        open_ended(after.queue.pending),
        !(out is Some && closes(out->0)),
{
    let plan = v.defered_plan();
    lemma_defered_flows(v);
    lemma_defered_state(v);
    lemma_defered_open_ended(v);
    lemma_executed_sound(v, plan, true);
    lemma_executed_sound(v, plan, false);
    if after == v.drained() {
        assert(after.queue.pending =~= Seq::<Token>::empty());
    }
    assert forall|i: int| 0 <= i < plan.queued.len() implies !closes(#[trigger] plan.queued[i]) by {
        if plan.ending is Deliver {
            assert(plan.order()[i + 1] == plan.queued[i]);
        } else {
            assert(plan.order()[i] == plan.queued[i]);
        }
    }
    if plan.ending is Deliver {
        assert(plan.order()[0] == plan.ending->Deliver_0);
    }
}

/// A step of the scan of arguments leaves nothing behind a closing
/// parenthesis in the queue, and where it gives one, it leaves the queue
/// empty.
pub proof fn lemma_args_step_tidy(v: ScannerView, after: ScannerView, out: Option<Token>)
    requires
        v.sound(),
        v.queue.pending.len() == 0,
        v.state is ExpectInstructionClose,
        v.follows(v.args_plan(), after, out),
    ensures
        tidy(after.queue.pending),
        out is Some && closes(out->0) ==> after.queue.pending.len() == 0,
{
    let plan = v.args_plan();
    lemma_args_plan_flows(v);
    lemma_args_state(v);
    lemma_args_tidy(
        v,
        v.current(),
        v.pos_region as int,
        ArgsScan {
            run_start: v.pos_region as int,
            col: v.pos_line as int,
            line: v.line as int,
            open: v.cnt_openparen,
            close: v.cnt_closeparen,
            any: false,
        },
    );
    lemma_executed_sound(v, plan, true);
    lemma_executed_sound(v, plan, false);
    if after == v.drained() {
        assert(after.queue.pending =~= Seq::<Token>::empty());
    }
}

/// The delivery of a queued token leaves nothing behind a closing
/// parenthesis in the queue, and where it gives one, it leaves the queue
/// empty.
pub proof fn lemma_queued_tidy(v: ScannerView, room: bool)
    requires
        v.sound(),
        tidy(v.queue.pending),
        v.queue.pending.len() > 0,
    ensures
        ({
            let taken = v.with_queue(v.queue.popped());
            let token = v.queue.pending[0];
            &&& taken.delivered(token, room).1 == Some(token)
            &&& tidy(taken.delivered(token, room).0.queue.pending)
            &&& closes(token) ==> taken.delivered(token, room).0.queue.pending.len() == 0
        }),
{
    let taken = v.with_queue(v.queue.popped());
    let token = v.queue.pending[0];
    let more = v.queue.pending.drop_first();
    assert(v.queue.pending =~= seq![token] + more);
    lemma_flows_frame(v, taken, v.queue.pending);
    lemma_left_below_same(v, taken);
    lemma_first_is_delivered(taken, token, more, room);
    assert(taken.delivered(token, room).0.queue.pending =~= more);
    assert forall|i: int| 0 <= i < more.len() && closes(#[trigger] more[i]) implies i
        == more.len() - 1 by {
        assert(more[i] == v.queue.pending[i + 1]);
    }
}

/// A pull from a scanner that is in order, with nothing behind a closing
/// parenthesis in its queue, leaves nothing behind one; and where it gives
/// a closing parenthesis, it leaves the queue empty.
pub proof fn lemma_pull_tidy(v: ScannerView, after: ScannerView, out: Option<Token>)
    requires
        v.sound(),
        tidy(v.queue.pending),
        v.next_follows(after, out),
    ensures
        tidy(after.queue.pending),
        out is Some && closes(out->0) ==> after.queue.pending.len() == 0,
{
    if v.queue.pending.len() > 0 {
        lemma_queued_tidy(v, true);
        lemma_queued_tidy(v, false);
        assert(tidy(after.queue.pending) && (out is Some && closes(out->0)
            ==> after.queue.pending.len() == 0)) by {
            reveal(ScannerView::next_follows);
        }
    } else {
        match v.state {
            TokenizerState::ExpectDefered => {
                let there = v.unwound();
                lemma_unwound_sound(v);
                assert(there.follows(there.defered_plan(), after, out)) by {
                    reveal(ScannerView::next_follows);
                }
                lemma_defered_tidy(there, after, out);
            },
            TokenizerState::ExpectInstructionClose => {
                assert(v.follows(v.args_plan(), after, out)) by {
                    reveal(ScannerView::next_follows);
                }
                lemma_args_step_tidy(v, after, out);
            },
            _ => {
                assert(after.queue == v.queue && !(out is Some && closes(out->0))) by {
                    reveal(ScannerView::next_follows);
                }
            },
        }
    }
}

} // verus!
