//! Content tokens stand for bytes: every one of them has bytes, but for the
//! run without bytes that the scan of arguments queues in front of a
//! newline which starts a run. So the global offsets of a stream go up from
//! content token to content token, except behind such a run, where the
//! newline comes next.

use vstd::prelude::*;
use crate::token::Token;
use crate::tokenbody::TokenBody;
use crate::tokenizer::args::{lemma_args_state, ArgsScan};
use crate::tokenizer::defered::{first_break, lemma_defered_state};
use crate::tokenizer::ending::goes_through;
use crate::tokenizer::flow::{
    lemma_args_plan_flows, lemma_defered_flows, lemma_first_break, lemma_first_open,
    lemma_flows_frame, lemma_stands_in,
};
use crate::tokenizer::ident::spells_include;
use crate::tokenizer::instruction::{
    first_letter, first_open, has_close, last_letter, lemma_letters, CLOSE_PAREN, OPEN_PAREN,
};
use crate::tokenizer::laws::{before, is_run, is_step, lemma_offsets_contiguous, Step};
use crate::tokenizer::model::{count_up, ScannerView, TokenizerState};
use crate::tokenizer::sound::{
    lemma_executed_sound, lemma_first_is_delivered, lemma_left_below_same, lemma_pull_is_sound,
    lemma_push_is_sound, lemma_unwound_sound,
};
use crate::tokenizer::whitespace::{
    count_newlines, first_newline, lemma_first_newline, line_tokens, lines_tokens, NEWLINE,
};

verus! {

/// Whether `token` is a run without bytes.
pub open spec fn empty_run(token: Token) -> bool {
    match token {
        Token::Real(TokenBody::Defered(span)) => span.length == 0,
        _ => false,
    }
}

/// Whether `token` is a newline.
pub open spec fn is_newline(token: Token) -> bool {
    match token {
        Token::Real(TokenBody::Newline(_)) => true,
        _ => false,
    }
}

/// Whether every content token of `tokens` has bytes.
pub open spec fn solid(tokens: Seq<Token>) -> bool {
    forall|i: int|
        0 <= i < tokens.len() && (#[trigger] tokens[i]).is_content() ==> tokens[i].content_len()
            > 0
}

/// Whether every content token of `tokens` has bytes, but for runs without
/// bytes, each of which has a newline behind it.
pub open spec fn firm(tokens: Seq<Token>) -> bool {
    forall|i: int|
        0 <= i < tokens.len() && (#[trigger] tokens[i]).is_content() && tokens[i].content_len()
            == 0 ==> empty_run(tokens[i]) && i + 1 < tokens.len() && is_newline(tokens[i + 1])
}

/// Whether `out` stands for bytes, if it is a content token, or is a run
/// without bytes with its newline next in the queue.
pub open spec fn gives_bytes(after: ScannerView, out: Option<Token>) -> bool {
    out is Some && out->0.is_content() && out->0.content_len() == 0 ==> empty_run(out->0)
        && after.queue.pending.len() > 0 && is_newline(after.queue.pending[0])
}

/// Two runs of tokens that have bytes have bytes together.
pub proof fn lemma_solid_concat(first: Seq<Token>, second: Seq<Token>)
    requires
        solid(first),
        solid(second),
    ensures
        solid(first + second),
{
    assert forall|i: int|
        0 <= i < (first + second).len() && (#[trigger] (first + second)[i]).is_content() implies (
    first + second)[i].content_len() > 0 by {
        if i < first.len() {
            assert((first + second)[i] == first[i]);
        } else {
            assert((first + second)[i] == second[i - first.len()]);
        }
    }
}

/// Two runs of tokens that are firm are firm together.
pub proof fn lemma_firm_concat(first: Seq<Token>, second: Seq<Token>)
    requires
        firm(first),
        firm(second),
    ensures
        firm(first + second),
{
    let all = first + second;
    assert forall|i: int|
        0 <= i < all.len() && (#[trigger] all[i]).is_content() && all[i].content_len()
            == 0 implies empty_run(all[i]) && i + 1 < all.len() && is_newline(all[i + 1]) by {
        if i < first.len() {
            assert(all[i] == first[i]);
            assert(all[i + 1] == first[i + 1]);
        } else {
            assert(all[i] == second[i - first.len()]);
            assert(all[i + 1] == second[i + 1 - first.len()]);
        }
    }
}

/// The tokens for whitespace have bytes.
pub proof fn lemma_lines_solid(
    s: Seq<u8>,
    index: usize,
    base: int,
    pos: int,
    end: int,
    col: int,
    line: int,
    lines: nat,
)
    requires
        0 <= pos <= end <= s.len() <= usize::MAX,
    ensures
        solid(lines_tokens(s, index, base, pos, end, col, line, lines).0),
    decreases lines,
{
    if lines > 0 {
        let nl = first_newline(s, pos, end);
        lemma_first_newline(s, pos, end);
        if nl < end {
            lemma_lines_solid(s, index, base, nl + 1, end, 0, line + 1, (lines - 1) as nat);
            let rest = lines_tokens(s, index, base, nl + 1, end, 0, line + 1, (lines - 1) as nat);
            lemma_solid_concat(line_tokens(index, base, pos, nl, col, line), rest.0);
        }
    }
}

/// The tokens from behind the name of an instruction to its `(` have
/// bytes.
pub proof fn lemma_paren_solid(v: ScannerView, ident_end: int, open: int)
    requires
        v.wf(),
        v.regions.len() > 0,
        v.pos_region <= ident_end < open < v.pos_max,
    ensures
        solid(v.paren_tokens(ident_end, open)),
{
    let s = v.current();
    let from = ident_end + 1;
    let lines = count_newlines(s, from, open);
    lemma_stands_in(v);
    lemma_lines_solid(
        v.regions[v.index as int],
        v.index,
        v.base(),
        from,
        from + (open - from),
        v.pos_line + (from - v.pos_region),
        v.line as int,
        ((v.line + lines) - v.line) as nat,
    );
    lemma_solid_concat(v.gap_whitespace(ident_end, open), v.gap_warning(ident_end, open));
    lemma_solid_concat(
        v.gap_whitespace(ident_end, open) + v.gap_warning(ident_end, open),
        seq![v.open_token(ident_end, open)],
    );
}

/// Every content token of a step for an `@` has bytes.
pub proof fn lemma_instruction_solid(v: ScannerView, at: int)
    requires
        v.wf(),
        v.regions.len() > 0,
        v.pos_region <= at < v.pos_max,
    ensures
        solid(v.instruction_plan(at).order()),
{
    let s = v.current();
    let open = first_open(s, at + 1);
    lemma_stands_in(v);
    lemma_first_open(s, at + 1);
    if open < s.len() && !has_close(s, at + 1, open) {
        lemma_letters(s, at + 1, open);
        match first_letter(s, at + 1, open) {
            Some(first) => {
                if first == at + 1 {
                    let last = last_letter(s, at + 1, open)->0;
                    if spells_include(s, first, last) {
                        let instruction = Token::Real(
                            TokenBody::Include(v.span_on_line(at, last - at + 1)),
                        );
                        lemma_paren_solid(v, last, open);
                        lemma_solid_concat(seq![instruction], v.paren_tokens(last, open));
                        let plan = v.include_plan(at, last, open);
                        lemma_solid_concat(seq![plan.ending->Deliver_0], plan.queued);
                    }
                }
            },
            None => {},
        }
    }
}

/// Every content token of a step of the ordinary scan has bytes.
pub proof fn lemma_defered_solid(v: ScannerView)
    requires
        v.wf(),
    ensures
        solid(v.defered_plan().order()),
{
    let s = v.current();
    let pos = v.pos_region as int;
    if v.regions.len() > 0 {
        lemma_stands_in(v);
        if pos < s.len() {
            lemma_first_break(s, pos);
            let stop = first_break(s, pos);
            if stop < s.len() && s[stop] != NEWLINE {
                lemma_instruction_solid(v, stop);
            }
        }
    }
}

/// What a scan of arguments queues is firm, and the closing parenthesis
/// that it delivers at once has a byte.
pub proof fn lemma_args_firm(v: ScannerView, s: Seq<u8>, pos: int, a: ArgsScan)
    requires
        0 <= a.run_start <= pos <= s.len() <= usize::MAX,
    ensures
        firm(v.args_tail(s, pos, a).queued),
        v.args_tail(s, pos, a).ending is Deliver ==> v.args_tail(
            s,
            pos,
            a,
        ).ending->Deliver_0.content_len() > 0,
    decreases s.len() - pos,
{
    if pos < s.len() {
        if s[pos] == NEWLINE {
            let next = ArgsScan { run_start: pos + 1, col: 0, line: a.line + 1, any: true, ..a };
            lemma_args_firm(v, s, pos + 1, next);
            let cut = seq![
                v.args_run(a, pos),
                Token::Real(TokenBody::Newline(v.args_byte(a, pos))),
            ];
            assert(firm(cut)) by {
                assert(is_newline(cut[1]));
            }
            lemma_firm_concat(cut, v.args_tail(s, pos + 1, next).queued);
        } else if s[pos] == OPEN_PAREN {
            lemma_args_firm(v, s, pos + 1, ArgsScan { open: count_up(a.open), ..a });
        } else if s[pos] == CLOSE_PAREN {
            let counted = ArgsScan { close: count_up(a.close), ..a };
            if counted.close != counted.open {
                lemma_args_firm(v, s, pos + 1, counted);
            }
        } else {
            lemma_args_firm(v, s, pos + 1, a);
        }
    }
}

/// The delivery of a queued token leaves a firm queue firm, and gives a
/// token that has bytes or is a run in front of its newline.
pub proof fn lemma_queued_firm(v: ScannerView, room: bool)
    requires
        v.sound(),
        firm(v.queue.pending),
        v.queue.pending.len() > 0,
    ensures
        ({
            let taken = v.with_queue(v.queue.popped());
            let token = v.queue.pending[0];
            &&& taken.delivered(token, room).1 == Some(token)
            &&& firm(taken.delivered(token, room).0.queue.pending)
            &&& gives_bytes(taken.delivered(token, room).0, Some(token))
        }),
{
    let taken = v.with_queue(v.queue.popped());
    let token = v.queue.pending[0];
    let more = v.queue.pending.drop_first();
    assert(v.queue.pending =~= seq![token] + more);
    lemma_flows_frame(v, taken, v.queue.pending);
    lemma_left_below_same(v, taken);
    lemma_first_is_delivered(taken, token, more, room);
    assert(taken.delivered(token, room).0.queue.pending =~= more);
    assert forall|i: int|
        0 <= i < more.len() && (#[trigger] more[i]).is_content() && more[i].content_len()
            == 0 implies empty_run(more[i]) && i + 1 < more.len() && is_newline(more[i + 1]) by {
        assert(more[i] == v.queue.pending[i + 1]);
        assert(more[i + 1] == v.queue.pending[i + 2]);
    }
    if token.is_content() && token.content_len() == 0 {
        assert(more[0] == v.queue.pending[1]);
    }
}

/// A step of the ordinary scan queues and gives tokens that have bytes.
pub proof fn lemma_defered_firm(v: ScannerView, after: ScannerView, out: Option<Token>)
    requires
        v.sound(),
        v.queue.pending.len() == 0,
        v.state is ExpectDefered,
        v.follows(v.defered_plan(), after, out),
    ensures
        firm(after.queue.pending),
        gives_bytes(after, out),
{
    let plan = v.defered_plan();
    lemma_defered_flows(v);
    lemma_defered_state(v);
    lemma_defered_solid(v);
    lemma_executed_sound(v, plan, true);
    lemma_executed_sound(v, plan, false);
    if after == v.drained() {
        assert(after.queue.pending =~= Seq::<Token>::empty());
    }
    assert forall|i: int| 0 <= i < plan.queued.len() && (#[trigger] plan.queued[i]).is_content()
        implies plan.queued[i].content_len() > 0 by {
        if plan.ending is Deliver {
            assert(plan.order()[i + 1] == plan.queued[i]);
        } else {
            assert(plan.order()[i] == plan.queued[i]);
        }
    }
    if plan.ending is Deliver {
        assert(plan.order()[0] == plan.ending->Deliver_0);
    }
}

/// A step of the scan of arguments queues tokens that are firm and gives
/// one that has bytes.
pub proof fn lemma_args_step_firm(v: ScannerView, after: ScannerView, out: Option<Token>)
    requires
        v.sound(),
        v.queue.pending.len() == 0,
        v.state is ExpectInstructionClose,
        v.follows(v.args_plan(), after, out),
    ensures
        firm(after.queue.pending),
        gives_bytes(after, out),
{
    let plan = v.args_plan();
    lemma_stands_in(v);
    lemma_args_plan_flows(v);
    lemma_args_state(v);
    lemma_args_firm(
        v,
        v.current(),
        v.pos_region as int,
        ArgsScan {
            run_start: v.pos_region as int,
            col: v.pos_line as int,
            line: v.line as int,
            open: v.cnt_openparen,
            close: v.cnt_closeparen,
            any: false,
        },
    );
    lemma_executed_sound(v, plan, true);
    lemma_executed_sound(v, plan, false);
    if after == v.drained() {
        assert(after.queue.pending =~= Seq::<Token>::empty());
    }
}

/// A pull from a scanner that is in order, with a firm queue, leaves the
/// queue firm; and the content token that it gives has bytes, or is a run
/// without bytes with its newline next in the queue.
pub proof fn lemma_pull_firm(v: ScannerView, after: ScannerView, out: Option<Token>)
    requires
        v.sound(),
        firm(v.queue.pending),
        v.next_follows(after, out),
    ensures
        firm(after.queue.pending),
        gives_bytes(after, out),
{
    if v.queue.pending.len() > 0 {
        lemma_queued_firm(v, true);
        lemma_queued_firm(v, false);
        assert(firm(after.queue.pending) && gives_bytes(after, out)) by {
            reveal(ScannerView::next_follows);
        }
    } else {
        match v.state {
            TokenizerState::ExpectDefered => {
                let there = v.unwound();
                lemma_unwound_sound(v);
                assert(there.follows(there.defered_plan(), after, out)) by {
                    reveal(ScannerView::next_follows);
                }
                lemma_defered_firm(there, after, out);
            },
            TokenizerState::ExpectInstructionClose => {
                assert(v.follows(v.args_plan(), after, out)) by {
                    reveal(ScannerView::next_follows);
                }
                lemma_args_step_firm(v, after, out);
            },
            _ => {
                assert(after.queue == v.queue && !(out is Some && out->0.is_content())) by {
                    reveal(ScannerView::next_follows);
                }
            },
        }
    }
}

/// Whatever is pushed and pulled, the queue of a scanner that is in order
/// stays firm.
pub proof fn lemma_run_is_firm(v: ScannerView, steps: Seq<Step>, n: int)
    requires
        v.sound(),
        firm(v.queue.pending),
        is_run(v, steps),
        goes_through(v, steps),
        0 <= n <= steps.len(),
    ensures
        before(v, steps, n).sound(),
        firm(before(v, steps, n).queue.pending),
        n > 0 && steps[n - 1].pull ==> gives_bytes(steps[n - 1].after, steps[n - 1].out),
    decreases n,
{
    if n > 0 {
        lemma_run_is_firm(v, steps, n - 1);
        let prev = before(v, steps, n - 1);
        let step = steps[n - 1];
        assert(is_step(prev, step));
        if step.pull {
            lemma_pull_is_sound(prev, step.after, step.out);
            lemma_pull_firm(prev, step.after, step.out);
        } else {
            let filename = choose|filename: Option<Seq<char>>|
                (step.after, Ok::<(), Token>(())) == #[trigger] prev.pushed(
                    filename,
                    step.bytes,
                    true,
                );
            lemma_push_is_sound(prev, filename, step.bytes);
        }
    }
}

/// The global offsets of the content tokens of a stream go up: a content
/// token starts where the one before it ended, and the one before it has
/// bytes, unless it is a run without bytes; behind such a run the next
/// token is its newline.
pub proof fn lemma_offsets_grow(v: ScannerView, steps: Seq<Step>, i: int, j: int)
    requires
        v.sound(),
        firm(v.queue.pending),
        is_run(v, steps),
        goes_through(v, steps),
        0 <= i < j < steps.len(),
        steps[i].pull && steps[i].out is Some && steps[i].out->0.is_content(),
        steps[j].pull && steps[j].out is Some && steps[j].out->0.is_content(),
        forall|k: int| i < k < j ==> !(steps[k].out is Some && steps[k].out->0.is_content()),
    ensures
        steps[j].out->0.span()->0.pos_zero == steps[i].out->0.span()->0.pos_zero
            + steps[i].out->0.span()->0.length,
        steps[i].out->0.span()->0.length > 0 || (empty_run(steps[i].out->0) && j == i + 1
            && is_newline(steps[j].out->0)),
{
    lemma_offsets_contiguous(v, steps, i, j);
    lemma_run_is_firm(v, steps, i + 1);
    if steps[i].out->0.span()->0.length == 0 {
        let here = before(v, steps, i + 1);
        let next = steps[i + 1];
        assert(is_step(here, next));
        assert(here.queue.pending.len() > 0 && is_newline(here.queue.pending[0]));
        if next.pull {
            lemma_pull_is_sound(here, next.after, next.out);
        }
    }
}

} // verus!
