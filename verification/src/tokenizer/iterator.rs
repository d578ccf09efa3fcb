//! Pulling tokens out of the scanner, one at a time.

use vstd::prelude::*;
use crate::parse_error::{Component, ParseError, Source};
use crate::token::Token;
use crate::tokenbuf::no_memory_token;
use crate::tokenizer::Tokenizer;
use crate::tokenizer::ending::{
    lemma_pull_descends, lemma_pull_leaves_untouched, lemma_pull_takes_left,
};
use crate::tokenizer::firm::{firm, gives_bytes, lemma_pull_firm};
use crate::tokenizer::laws::lemma_next_steps;
use crate::tokenizer::model::{ScannerView, TokenizerState, LINE_NO_INPUT};
use crate::tokenizer::sound::lemma_pull_is_sound;

verus! {

impl ScannerView {
    /// The error for a pull before any source was pushed.
    pub open spec fn no_input_error(self) -> ParseError {
        ParseError::NoInput(
            Source {
                pos_zero: self.pos_zero,
                component: Component::Tokenizer,
                line: LINE_NO_INPUT,
                code: 0,
            },
        )
    }

    /// Whether `after` and `out` are an outcome of a pull.
    ///
    /// A queued token is taken and delivered, also by a scanner that failed.
    /// With an empty queue the scanner does the step of its mode. A scanner
    /// that failed has nothing to give. A scanner without source reports
    /// that once, and has nothing to give afterwards.
    #[verifier::opaque]
    pub open spec fn next_follows(self, after: ScannerView, out: Option<Token>) -> bool {
        if self.queue.pending.len() > 0 {
            let taken = self.with_queue(self.queue.popped());
            let token = self.queue.pending[0];
            (after, out) == taken.delivered(token, true) || (after, out) == taken.delivered(
                token,
                false,
            )
        } else {
            match self.state {
                TokenizerState::ExpectDefered => self.defered_follows(after, out),
                TokenizerState::ExpectInstructionClose => self.follows(
                    self.args_plan(),
                    after,
                    out,
                ),
                TokenizerState::Failed => after == self && out is None,
                TokenizerState::ExpectInput => if self.last_error is NoInput
                    || self.last_error is InternalError {
                    after == self && out is None
                } else {
                    after == (ScannerView { last_error: self.no_input_error(), ..self }) && out
                        == Some(Token::Error(self.no_input_error()))
                },
            }
        }
    }
}

impl Tokenizer {
    /// Returns the next token of the stream, or `None` where the stream has
    /// ended: see `ScannerView::next_follows`.
    ///
    /// Whatever the outcome, a content token that is returned started where
    /// the scanner stood when it set about the pull, see
    /// `ScannerView::standing`, and the scanner stands behind it now;
    /// anything else left the scanner there: see `ScannerView::stepped`. A
    /// scanner that is in order, see `ScannerView::sound`, stays in order,
    /// and does not fail unless memory runs out; and every token it gives
    /// takes it closer to the end of its stream, see
    /// `ScannerView::distance`, or no further from it where memory ran out.
    /// What a pull adds to the global offset it takes from the bytes that
    /// are left to deliver: the offset at which the stream ends, see
    /// `ScannerView::reach`, stays where it is. And every content token it
    /// gives has bytes, but for a run without bytes in the arguments of an
    /// instruction, behind which the newline comes next: see `gives_bytes`.
    pub fn next(&mut self) -> (r: Option<Token>)
        requires
            old(self).wf(),
        ensures
            final(self).wf(),
            old(self)@.next_follows(final(self)@, r),
            old(self)@.standing().stepped(final(self)@, r),
            old(self)@.sound() ==> final(self)@.sound(),
            old(self)@.sound() && r != Some(no_memory_token()) && final(self)@.state is Failed
                ==> old(self)@.state is Failed,
            old(self)@.sound() && r is Some ==> 0 <= final(self)@.distance()
                <= old(self)@.distance(),
            old(self)@.sound() && r is Some && r != Some(no_memory_token())
                ==> final(self)@.distance() < old(self)@.distance(),
            old(self)@.stacked() ==> final(self)@.reach() == old(self)@.reach(),
            old(self)@.ready() ==> final(self)@.ready() && final(self)@.reach() == old(
                self,
            )@.reach(),
            old(self)@.sound() && firm(old(self)@.queue.pending) ==> firm(
                final(self)@.queue.pending,
            ) && gives_bytes(final(self)@, r),
    {
        let ghost before = self@;
        let r = self.pull();
        proof {
            lemma_next_steps(before, self@, r);
            if before.stacked() {
                lemma_pull_takes_left(before, self@, r);
            }
            if before.untouched() {
                lemma_pull_leaves_untouched(before, self@, r);
            }
            if before.sound() && firm(before.queue.pending) {
                lemma_pull_firm(before, self@, r);
            }
            if before.sound() {
                lemma_pull_is_sound(before, self@, r);
                if r is Some {
                    lemma_pull_descends(before, self@, r);
                }
            }
        }
        r
    }

    // Pulls one token: a queued one first, else what the step of the mode
    // gives.
    fn pull(&mut self) -> (r: Option<Token>)
        requires
            old(self).wf(),
        ensures
            final(self).wf(),
            old(self)@.next_follows(final(self)@, r),
    {
        reveal(ScannerView::next_follows);
        if self.tokenbuf.num_tokens() > 0 {
            match self.tokenbuf_consume() {
                Ok(Some(tok)) => {
                    return self.return_tokenized(tok);
                },
                Ok(None) => {},
                Err(etok) => {
                    return Some(etok);
                },
            }
        }
        match self.state {
            TokenizerState::ExpectDefered => self.defered_tokenize(),
            TokenizerState::ExpectInstructionClose => self.tokenize_instruction_args(),
            TokenizerState::Failed => None,
            TokenizerState::ExpectInput => {
                match self.parse_error_prev {
                    ParseError::NoInput(_) | ParseError::InternalError(_) => None,
                    _ => {
                        let error = ParseError::NoInput(
                            Source {
                                pos_zero: self.pos_zero,
                                component: Component::Tokenizer,
                                line: LINE_NO_INPUT,
                                code: 0,
                            },
                        );
                        self.parse_error_prev = error;
                        Some(Token::Error(error))
                    },
                }
            },
        }
    }
}

} // verus!
