//! The scan between the parentheses of an instruction.
//!
//! The arguments are runs of bytes cut at newlines. Parentheses are counted
//! and the `)` that evens the count ends the arguments. An `@` is a byte like
//! any other here.

use vstd::prelude::*;
use crate::parse_error::{Component, ParseError, Source};
use crate::span::Span;
use crate::token::Token;
use crate::tokenbody::TokenBody;
use crate::tokenbuf::lemma_filled_empty;
use crate::tokenizer::Tokenizer;
use crate::tokenizer::instruction::{CLOSE_PAREN, OPEN_PAREN};
use crate::tokenizer::model::{count_up, ScannerView, TokenizerState};
use crate::tokenizer::plan::{lemma_starts_with_next, starts_with, Ending, ScanPlan};
use crate::tokenizer::whitespace::NEWLINE;

verus! {

/// Line of this file at which a region that ends inside the arguments of an
/// instruction is reported.
pub const LINE_OPEN_INSTRUCTION: u32 = 484;

/// Where the scan of the arguments stands.
pub struct ArgsScan {
    /// Offset at which the run being read starts.
    pub run_start: int,
    /// Column of that offset.
    pub col: int,
    /// Line of that offset.
    pub line: int,
    /// The `(` counted so far.
    pub open: u32,
    /// The `)` counted so far.
    pub close: u32,
    /// Whether the scan queued a token already.
    pub any: bool,
}

impl ScannerView {
    /// The error for a region that ends inside the arguments of an
    /// instruction. It points at the instruction.
    pub open spec fn open_instruction_error(self) -> Token {
        Token::Error(
            ParseError::OpenInstruction(
                Source {
                    pos_zero: self.pos_zero_prev_instr,
                    component: Component::Tokenizer,
                    line: LINE_OPEN_INSTRUCTION,
                    code: 0,
                },
            ),
        )
    }

    /// The run that the scan `a` has read up to `pos`.
    pub open spec fn args_run(self, a: ArgsScan, pos: int) -> Token {
        Token::Real(
            TokenBody::Defered(self.span_at(a.run_start, a.col, a.line, pos - a.run_start)),
        )
    }

    /// The token for the byte at `pos`, which the scan `a` has reached.
    pub open spec fn args_byte(self, a: ArgsScan, pos: int) -> Span {
        self.span_at(pos, a.col + (pos - a.run_start), a.line, 1)
    }

    /// The step that ends the arguments, with the counters of `a`: the
    /// ordinary scan takes over from the scan of the arguments. A scanner
    /// in another mode stays in it.
    pub open spec fn args_end(self, a: ArgsScan, queued: Seq<Token>, ending: Ending) -> ScanPlan {
        ScanPlan {
            queued,
            state: if self.state is ExpectInstructionClose {
                TokenizerState::ExpectDefered
            } else {
                self.state
            },
            cnt_openparen: a.open,
            cnt_closeparen: a.close,
            ending,
        }
    }

    /// What is left to do for the scan `a` of the bytes `s` from `pos` on.
    ///
    /// A newline cuts the run: the run, even an empty one, and the newline
    /// are queued. The `)` that evens the count ends the arguments: it is
    /// delivered at once where nothing is to go before it, and is queued
    /// behind the run else. At the end of the region the run and an
    /// `Error(OpenInstruction)` are queued. Either way the ordinary scan
    /// takes over.
    pub open spec fn args_tail(self, s: Seq<u8>, pos: int, a: ArgsScan) -> ScanPlan
        decreases s.len() - pos,
    {
        if pos >= s.len() {
            let run = if a.run_start < pos {
                seq![self.args_run(a, pos)]
            } else {
                Seq::empty()
            };
            self.args_end(a, run + seq![self.open_instruction_error()], Ending::Signal)
        } else if s[pos] == NEWLINE {
            self.args_tail(
                s,
                pos + 1,
                ArgsScan { run_start: pos + 1, col: 0, line: a.line + 1, any: true, ..a },
            ).after(
                seq![
                    self.args_run(a, pos),
                    Token::Real(TokenBody::Newline(self.args_byte(a, pos))),
                ],
            )
        } else if s[pos] == OPEN_PAREN {
            self.args_tail(s, pos + 1, ArgsScan { open: count_up(a.open), ..a })
        } else if s[pos] == CLOSE_PAREN {
            let counted = ArgsScan { close: count_up(a.close), ..a };
            if counted.close == counted.open {
                let paren = Token::Real(TokenBody::CloseParen(self.args_byte(a, pos)));
                if a.run_start < pos {
                    self.args_end(counted, seq![self.args_run(a, pos), paren], Ending::Signal)
                } else if a.any {
                    self.args_end(counted, seq![paren], Ending::Signal)
                } else {
                    self.args_end(counted, Seq::empty(), Ending::Deliver(paren))
                }
            } else {
                self.args_tail(s, pos + 1, counted)
            }
        } else {
            self.args_tail(s, pos + 1, a)
        }
    }

    /// The step of the scan between the parentheses of an instruction.
    pub open spec fn args_plan(self) -> ScanPlan {
        self.args_tail(
            self.current(),
            self.pos_region as int,
            ArgsScan {
                run_start: self.pos_region as int,
                col: self.pos_line as int,
                line: self.line as int,
                open: self.cnt_openparen,
                close: self.cnt_closeparen,
                any: false,
            },
        )
    }
}

/// Queueing tokens in front of a step twice is queueing them all at once.
pub proof fn lemma_after_after(plan: ScanPlan, first: Seq<Token>, second: Seq<Token>)
    ensures
        plan.after(second).after(first) == plan.after(first + second),
{
    assert(first + (second + plan.queued) =~= (first + second) + plan.queued);
}

/// Queueing nothing in front of a step leaves the step as it is.
pub proof fn lemma_after_nothing(plan: ScanPlan)
    ensures
        plan.after(Seq::empty()) == plan,
{
    assert(Seq::<Token>::empty() + plan.queued =~= plan.queued);
}

impl Tokenizer {
    // Queues `tok`, the first of the tokens `more` that the plan queues
    // behind `done`.
    fn args_enqueue(
        &mut self,
        tok: Token,
        Ghost(v): Ghost<ScannerView>,
        Ghost(plan): Ghost<ScanPlan>,
        Ghost(done): Ghost<Seq<Token>>,
        Ghost(more): Ghost<Seq<Token>>,
    ) -> (r: Option<Token>)
        requires
            old(self).wf(),
            old(self)@ == v.with_queue(v.queue.filled(done)),
            done.len() > 0 ==> v.queue.accepts(),
            starts_with(plan.queued, done + more),
            more.len() > 0,
            more[0] == tok,
        ensures
            final(self).wf(),
            r is None ==> final(self)@ == v.with_queue(v.queue.filled(done.push(tok)))
                && v.queue.accepts(),
            r is Some ==> v.follows(plan, final(self)@, r),
    {
        proof {
            lemma_starts_with_next(plan.queued, done, more);
        }
        self.enqueue(tok, Ghost(v), Ghost(plan), Ghost(done))
    }

    /// One step of the scan between the parentheses of an instruction: see
    /// `ScannerView::args_tail`.
    #[verifier::rlimit(60)]
    pub fn tokenize_instruction_args(&mut self) -> (r: Option<Token>)
        requires
            old(self).wf(),
        ensures
            final(self).wf(),
            old(self)@.follows(old(self)@.args_plan(), final(self)@, r),
    {
        let ghost v = self@;
        let ghost s = v.current();
        let ghost plan = v.args_plan();
        let ghost mut done = Seq::<Token>::empty();
        let ghost mut a = ArgsScan {
            run_start: v.pos_region as int,
            col: v.pos_line as int,
            line: v.line as int,
            open: v.cnt_openparen,
            close: v.cnt_closeparen,
            any: false,
        };
        let mut run_start = self.pos_region;
        let mut col = self.pos_line;
        let mut line = self.line;
        let mut open = self.cnt_openparen;
        let mut close = self.cnt_closeparen;
        let mut pos = self.pos_region;
        let pos_max = self.pos_max;
        proof {
            lemma_filled_empty(v.queue);
            lemma_after_nothing(plan);
        }
        while pos < pos_max
            invariant
                self.wf(),
                v == old(self)@,
                v.wf(),
                s == v.current(),
                plan == v.args_plan(),
                pos_max == v.pos_max,
                self@ == v.with_queue(v.queue.filled(done)),
                done.len() > 0 ==> v.queue.accepts(),
                v.pos_region <= run_start <= pos <= pos_max,
                a == (ArgsScan {
                    run_start: run_start as int,
                    col: col as int,
                    line: line as int,
                    open,
                    close,
                    any: done.len() > 0,
                }),
                col <= run_start,
                v.line <= line,
                line - v.line <= run_start - v.pos_region,
                done.len() == 0 ==> run_start == v.pos_region && col == v.pos_line && line
                    == v.line,
                done.len() > 0 ==> run_start > v.pos_region,
                s.len() == pos_max,
                plan == v.args_tail(s, pos as int, a).after(done),
            decreases pos_max - pos,
        {
            let ghost tail = v.args_tail(s, pos as int, a);
            let byte = self.region[self.index][pos];
            let ahead = pos - self.pos_region;
            if byte == NEWLINE {
                let run = Token::Real(
                    TokenBody::Defered(
                        Span {
                            index: self.index,
                            pos_region: run_start,
                            pos_zero: self.pos_zero + (run_start - self.pos_region),
                            pos_line: col,
                            line,
                            length: pos - run_start,
                        },
                    ),
                );
                let newline = Token::Real(
                    TokenBody::Newline(
                        Span {
                            index: self.index,
                            pos_region: pos,
                            pos_zero: self.pos_zero + ahead,
                            pos_line: col + (pos - run_start),
                            line,
                            length: 1,
                        },
                    ),
                );
                let ghost next = ArgsScan {
                    run_start: pos + 1,
                    col: 0,
                    line: a.line + 1,
                    any: true,
                    ..a
                };
                let ghost rest = v.args_tail(s, pos + 1, next);
                proof {
                    assert(tail == rest.after(seq![run, newline]));
                    lemma_after_after(rest, done, seq![run, newline]);
                    assert(plan.queued == (done + seq![run, newline]) + rest.queued);
                    assert(plan.queued =~= done + (seq![run, newline] + rest.queued));
                    assert(plan.queued.take(plan.queued.len() as int) =~= plan.queued);
                }
                let ghost so_far = done;
                let ghost coming = seq![run, newline] + rest.queued;
                if let Some(error) = self.args_enqueue(
                    run,
                    Ghost(v),
                    Ghost(plan),
                    Ghost(so_far),
                    Ghost(coming),
                ) {
                    return Some(error);
                }
                proof {
                    assert(plan.queued =~= done.push(run) + (seq![newline] + rest.queued));
                }
                let ghost so_far = done.push(run);
                let ghost coming = seq![newline] + rest.queued;
                if let Some(error) = self.args_enqueue(
                    newline,
                    Ghost(v),
                    Ghost(plan),
                    Ghost(so_far),
                    Ghost(coming),
                ) {
                    return Some(error);
                }
                proof {
                    assert(done.push(run).push(newline) =~= done + seq![run, newline]);
                    done = done + seq![run, newline];
                    a = next;
                }
                line = line + 1;
                col = 0;
                run_start = pos + 1;
            } else if byte == OPEN_PAREN {
                open = if open == u32::MAX {
                    0
                } else {
                    open + 1
                };
                proof {
                    a = ArgsScan { open, ..a };
                }
            } else if byte == CLOSE_PAREN {
                close = if close == u32::MAX {
                    0
                } else {
                    close + 1
                };
                if close == open {
                    let paren = Token::Real(
                        TokenBody::CloseParen(
                            Span {
                                index: self.index,
                                pos_region: pos,
                                pos_zero: self.pos_zero + ahead,
                                pos_line: col + (pos - run_start),
                                line,
                                length: 1,
                            },
                        ),
                    );
                    proof {
                        assert(plan.queued.take(plan.queued.len() as int) =~= plan.queued);
                    }
                    if run_start < pos {
                        let run = Token::Real(
                            TokenBody::Defered(
                                Span {
                                    index: self.index,
                                    pos_region: run_start,
                                    pos_zero: self.pos_zero + (run_start - self.pos_region),
                                    pos_line: col,
                                    line,
                                    length: pos - run_start,
                                },
                            ),
                        );
                        let ghost so_far = done;
                        let ghost coming = seq![run, paren];
                        if let Some(error) = self.args_enqueue(
                            run,
                            Ghost(v),
                            Ghost(plan),
                            Ghost(so_far),
                            Ghost(coming),
                        ) {
                            return Some(error);
                        }
                        proof {
                            assert(plan.queued =~= done.push(run) + seq![paren]);
                        }
                        let ghost so_far = done.push(run);
                        let ghost coming = seq![paren];
                        if let Some(error) = self.args_enqueue(
                            paren,
                            Ghost(v),
                            Ghost(plan),
                            Ghost(so_far),
                            Ghost(coming),
                        ) {
                            return Some(error);
                        }
                        proof {
                            assert(plan.queued =~= done.push(run).push(paren));
                        }
                        self.finish_args(open, close);
                        return Some(Token::StateChange);
                    } else if run_start > self.pos_region {
                        let ghost so_far = done;
                        let ghost coming = seq![paren];
                        if let Some(error) = self.args_enqueue(
                            paren,
                            Ghost(v),
                            Ghost(plan),
                            Ghost(so_far),
                            Ghost(coming),
                        ) {
                            return Some(error);
                        }
                        proof {
                            assert(plan.queued =~= done.push(paren));
                        }
                        self.finish_args(open, close);
                        return Some(Token::StateChange);
                    } else {
                        proof {
                            assert(done =~= Seq::empty());
                            assert(plan.queued =~= Seq::empty());
                        }
                        self.finish_args(open, close);
                        return self.return_tokenized(paren);
                    }
                }
                proof {
                    a = ArgsScan { close, ..a };
                }
            }
            pos = pos + 1;
        }
        let ghost error = v.open_instruction_error();
        proof {
            assert(plan.queued.take(plan.queued.len() as int) =~= plan.queued);
        }
        if run_start < pos {
            let run = Token::Real(
                TokenBody::Defered(
                    Span {
                        index: self.index,
                        pos_region: run_start,
                        pos_zero: self.pos_zero + (run_start - self.pos_region),
                        pos_line: col,
                        line,
                        length: pos - run_start,
                    },
                ),
            );
            proof {
                assert(plan.queued =~= done + seq![run, error]);
            }
            let ghost so_far = done;
            let ghost coming = seq![run, error];
            if let Some(error) = self.args_enqueue(
                run,
                Ghost(v),
                Ghost(plan),
                Ghost(so_far),
                Ghost(coming),
            ) {
                return Some(error);
            }
            proof {
                done = done.push(run);
                assert(plan.queued =~= done + seq![error]);
            }
        }
        let note = Token::Error(
            ParseError::OpenInstruction(
                Source {
                    pos_zero: self.pos_zero_prev_instr,
                    component: Component::Tokenizer,
                    line: LINE_OPEN_INSTRUCTION,
                    code: 0,
                },
            ),
        );
        let ghost so_far = done;
        let ghost coming = seq![note];
        if let Some(error) = self.args_enqueue(
            note,
            Ghost(v),
            Ghost(plan),
            Ghost(so_far),
            Ghost(coming),
        ) {
            return Some(error);
        }
        proof {
            assert(plan.queued =~= done.push(note));
        }
        self.finish_args(open, close);
        Some(Token::StateChange)
    }

    // Ends the scan of the arguments: the counters are kept and the ordinary
    // scan takes over.
    fn finish_args(&mut self, open: u32, close: u32)
        requires
            old(self).wf(),
        ensures
            final(self).wf(),
            final(self)@ == (ScannerView {
                state: if old(self)@.state is ExpectInstructionClose {
                    TokenizerState::ExpectDefered
                } else {
                    old(self)@.state
                },
                cnt_openparen: open,
                cnt_closeparen: close,
                ..old(self)@
            }),
    {
        if let TokenizerState::ExpectInstructionClose = self.state {
            self.state = TokenizerState::ExpectDefered;
        }
        self.cnt_openparen = open;
        self.cnt_closeparen = close;
    }
}

/// Whatever is left to do for a scan of arguments, the ordinary scan takes
/// over from the scan of the arguments, and any other mode stays.
pub proof fn lemma_args_tail_state(v: ScannerView, s: Seq<u8>, pos: int, a: ArgsScan)
    ensures
        v.args_tail(s, pos, a).state == if v.state is ExpectInstructionClose {
            TokenizerState::ExpectDefered
        } else {
            v.state
        },
    decreases s.len() - pos,
{
    if pos < s.len() {
        if s[pos] == NEWLINE {
            lemma_args_tail_state(
                v,
                s,
                pos + 1,
                ArgsScan { run_start: pos + 1, col: 0, line: a.line + 1, any: true, ..a },
            );
        } else if s[pos] == OPEN_PAREN {
            lemma_args_tail_state(v, s, pos + 1, ArgsScan { open: count_up(a.open), ..a });
        } else if s[pos] == CLOSE_PAREN {
            let counted = ArgsScan { close: count_up(a.close), ..a };
            if counted.close != counted.open {
                lemma_args_tail_state(v, s, pos + 1, counted);
            }
        } else {
            lemma_args_tail_state(v, s, pos + 1, a);
        }
    }
}

/// Every step of the scan of arguments hands over to the ordinary scan.
pub proof fn lemma_args_state(v: ScannerView)
    ensures
        v.args_plan().state == if v.state is ExpectInstructionClose {
            TokenizerState::ExpectDefered
        } else {
            v.state
        },
{
    lemma_args_tail_state(
        v,
        v.current(),
        v.pos_region as int,
        ArgsScan {
            run_start: v.pos_region as int,
            col: v.pos_line as int,
            line: v.line as int,
            open: v.cnt_openparen,
            close: v.cnt_closeparen,
            any: false,
        },
    );
}

} // verus!
