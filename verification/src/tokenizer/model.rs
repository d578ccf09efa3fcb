//! What a scanner is to its contracts: its positions, its regions, its queue,
//! and the rules by which a token leaves it.

use vstd::prelude::*;
use crate::parse_error::{Component, ParseError, Source};
use crate::span::Span;
use crate::token::Token;
use crate::tokenbuf::{append_outcome, QueueView};

verus! {

/// Line of the scanner's file at which a token is refused that is not of
/// the current region.
pub const LINE_DELIVER_INDEX: u32 = 587;

/// Line of the scanner's file at which a token is refused that does not
/// start where the scanner stands.
pub const LINE_DELIVER_POSITION: u32 = 591;

/// Line of the scanner's file at which a token is refused that reaches past
/// the end of its region.
pub const LINE_DELIVER_OVERRUN: u32 = 599;

/// Line of the scanner's file at which a token is refused because a region
/// ended and the place to return to is not on record.
pub const LINE_DELIVER_POP: u32 = 608;

/// Line of the scanner's file at which a push reports that no memory could
/// be reserved.
pub const LINE_SRC_PUSH_NO_MEMORY: u32 = 413;

/// Line of the scanner's file at which a push reports that the global
/// offset cannot count the bytes of the region.
pub const LINE_SRC_PUSH_TOO_LONG: u32 = 422;

/// Line of the file of `next` at which a pull before the first push is
/// reported.
pub const LINE_NO_INPUT: u32 = 162;

/// The modes of the scanner.
#[derive(Debug, Clone, Copy, PartialEq, Eq, Structural)]
pub enum TokenizerState {
    /// No region was pushed yet.
    ExpectInput,
    /// The ordinary scan: everything that is not recognised is left for
    /// later stages.
    ExpectDefered,
    /// Inside the arguments of an instruction, counting parentheses.
    ExpectInstructionClose,
    /// An unrecoverable error occurred. Queued tokens can still be taken.
    Failed,
}

/// The position to return to when an included region is exhausted.
#[derive(Debug, Clone, Copy, PartialEq, Eq, Structural)]
pub struct StateSnap {
    pub pos_region: usize,
    pub pos_line: usize,
    pub line: usize,
    /// The region that was current when the snapshot was taken.
    pub index: usize,
}

/// What is on record of a pushed region, as contracts see it.
pub struct RegionMetaView {
    /// The region that was current when this one was pushed.
    pub index: usize,
    pub pos_zero: usize,
    pub pos_region: usize,
    pub pos_line: usize,
    pub line: usize,
    /// The name the region was pushed under, if it has one.
    pub filename: Option<Seq<char>>,
}

/// A scanner, as contracts see it.
pub struct ScannerView {
    pub state: TokenizerState,
    /// Index of the region being scanned.
    pub index: usize,
    /// Global byte offset of the next token to leave.
    pub pos_zero: usize,
    /// Offset inside the current region of the next token to leave.
    pub pos_region: usize,
    /// Offset of the next token from the start of its line.
    pub pos_line: usize,
    /// Length of the current region.
    pub pos_max: usize,
    /// Line of the next token to leave.
    pub line: usize,
    /// Every region pushed so far. Regions are kept after they are
    /// exhausted, so that spans stay resolvable.
    pub regions: Seq<Seq<u8>>,
    /// Tokens recognised and not yet delivered.
    pub queue: QueueView,
    pub cnt_openparen: u32,
    pub cnt_closeparen: u32,
    /// One snapshot per pushed region that was not returned from yet.
    pub snaps: Seq<StateSnap>,
    pub metas: Seq<RegionMetaView>,
    /// The most recent error. An internal error stays once it is recorded.
    pub last_error: ParseError,
    /// Global offset of the instruction delivered last.
    pub pos_zero_prev_instr: usize,
}

/// A parenthesis counter after one more parenthesis. The counters only ever
/// are compared for equality, so they may wrap.
pub open spec fn count_up(n: u32) -> u32 {
    if n == u32::MAX {
        0
    } else {
        (n + 1) as u32
    }
}

/// The token that reports a broken rule of the scanner at global offset
/// `pos_zero`.
pub open spec fn internal_error(pos_zero: usize, line: u32) -> ParseError {
    ParseError::InternalError(
        Source { pos_zero, component: Component::Tokenizer, line, code: 0 },
    )
}

impl ScannerView {
    /// The bytes of the current region; none before the first push.
    pub open spec fn current(self) -> Seq<u8> {
        if self.index < self.regions.len() {
            self.regions[self.index as int]
        } else {
            Seq::empty()
        }
    }

    /// The number of bytes of the current region that were not delivered.
    pub open spec fn rest(self) -> int {
        self.pos_max - self.pos_region
    }

    /// The positions are inside the current region and leave room, in the
    /// range of the machine's integers, for the rest of it. A scanner waits
    /// for input as long as it has no region, unless it failed, and no
    /// longer once it has one.
    pub open spec fn wf(self) -> bool {
        &&& self.regions.len() == 0 ==> self.index == 0 && self.pos_max == 0
        &&& self.regions.len() == 0 ==> self.state is ExpectInput || self.state is Failed
        &&& self.regions.len() > 0 ==> !(self.state is ExpectInput)
        &&& self.regions.len() > 0 ==> self.index < self.regions.len() && self.pos_max
            == self.regions[self.index as int].len()
        &&& self.pos_line <= self.pos_region <= self.pos_max
        &&& self.pos_zero + self.rest() <= usize::MAX
        &&& self.line + self.rest() <= usize::MAX
        &&& self.regions.len() <= usize::MAX
        &&& forall|i: int| 0 <= i < self.regions.len() ==> (#[trigger] self.regions[i]).len()
            <= usize::MAX
    }

    /// Whether `span` starts exactly where the scanner is.
    pub open spec fn stands_at(self, span: Span) -> bool {
        &&& span.index == self.index
        &&& span.pos_region == self.pos_region
        &&& span.pos_line == self.pos_line
        &&& span.pos_zero == self.pos_zero
        &&& span.line == self.line
    }

    /// The same scanner in the failed state.
    pub open spec fn failed(self) -> ScannerView {
        ScannerView { state: TokenizerState::Failed, ..self }
    }

    /// The same scanner with another queue.
    pub open spec fn with_queue(self, queue: QueueView) -> ScannerView {
        ScannerView { queue, ..self }
    }

    /// Whether the scanner can move past `token`: the token ends inside the
    /// current region, and a newline leaves the line count in range.
    pub open spec fn can_pass(self, token: Token) -> bool {
        let span = token.span()->0;
        &&& span.length <= self.rest()
        &&& token.body()->0 is Newline ==> self.line + 1 + self.rest() - span.length
            <= usize::MAX
    }

    /// The scanner moved past `token`, which starts where the scanner is.
    pub open spec fn passed(self, token: Token) -> ScannerView {
        let span = token.span()->0;
        let body = token.body()->0;
        let starts = body is Include && (self.state is ExpectDefered
            || self.state is ExpectInstructionClose);
        ScannerView {
            pos_region: (self.pos_region + span.length) as usize,
            pos_zero: (self.pos_zero + span.length) as usize,
            pos_line: if body is Newline {
                0
            } else {
                (self.pos_line + span.length) as usize
            },
            line: if body is Newline {
                (self.line + 1) as usize
            } else {
                self.line
            },
            state: if starts {
                TokenizerState::ExpectInstructionClose
            } else {
                self.state
            },
            cnt_openparen: if body is Include {
                0
            } else if body is OpenParen {
                count_up(self.cnt_openparen)
            } else {
                self.cnt_openparen
            },
            cnt_closeparen: if body is Include {
                0
            } else {
                self.cnt_closeparen
            },
            pos_zero_prev_instr: if body is Include {
                span.pos_zero
            } else {
                self.pos_zero_prev_instr
            },
            ..self
        }
    }

    /// Whether the scanner stands at the end of a region that was included
    /// from another.
    pub open spec fn exhausted(self) -> bool {
        self.pos_region >= self.pos_max && self.index > 0
    }

    /// Whether the last snapshot leads back into an earlier region, to a
    /// place inside it.
    pub open spec fn can_return(self) -> bool {
        &&& self.snaps.len() > 0
        &&& self.index <= self.regions.len()
        &&& {
            let snap = self.snaps.last();
            let below = self.regions[snap.index as int].len();
            &&& snap.index < self.index
            &&& snap.pos_line <= snap.pos_region <= below
            &&& self.pos_zero + (below - snap.pos_region) <= usize::MAX
            &&& snap.line + (below - snap.pos_region) <= usize::MAX
        }
    }

    /// The scanner back in the region it was in when the current region was
    /// pushed, at the place of the last snapshot. The global offset goes on.
    pub open spec fn returned(self) -> ScannerView {
        let snap = self.snaps.last();
        ScannerView {
            index: snap.index,
            pos_region: snap.pos_region,
            pos_line: snap.pos_line,
            line: snap.line,
            pos_max: self.regions[snap.index as int].len() as usize,
            snaps: self.snaps.drop_last(),
            ..self
        }
    }

    /// The scanner back in the region in which there is something left to
    /// scan: as long as it stands at the end of an included region it
    /// returns to where the last snapshot leads, which may be the end of an
    /// included region again.
    pub open spec fn unwound(self) -> ScannerView
        decreases self.index,
    {
        if self.exhausted() && self.can_return() {
            self.returned().unwound()
        } else {
            self
        }
    }

    /// What becomes of a scanner that stands at the end of an included
    /// region with no snapshot that leads back: it fails, the error is
    /// recorded unless an internal error is on record already, and the error
    /// leaves.
    pub open spec fn stranded(self, line: u32) -> (ScannerView, Option<Token>) {
        let error = internal_error(self.pos_zero, line);
        let kept = if self.last_error is InternalError {
            self
        } else {
            ScannerView { last_error: error, ..self }
        };
        (kept.failed(), Some(Token::Fatal(error)))
    }

    /// A delivery that broke a rule: unless an internal error is on record
    /// already, the token goes back into the queue and the error is
    /// recorded; the scanner fails and the error leaves in place of the
    /// token. Where the queue does not take the token back, for want of
    /// `room` or because it is guarded, the queue is empty afterwards.
    pub open spec fn refused(self, token: Token, room: bool, line: u32) -> (
        ScannerView,
        Option<Token>,
    ) {
        let error = internal_error(self.pos_zero, line);
        let kept = if self.last_error is InternalError {
            self
        } else {
            ScannerView {
                queue: append_outcome(self.queue, token, room).0,
                last_error: error,
                ..self
            }
        };
        (kept.failed(), Some(Token::Fatal(error)))
    }

    /// The delivery of `token`: the scanner afterwards and what leaves it.
    ///
    /// A token without a span leaves as it is. A token with a span must start
    /// where the scanner stands and end inside the current region; the
    /// scanner then moves past it and, at the end of an included region,
    /// returns to the region that the snapshot names.
    pub open spec fn delivered(self, token: Token, room: bool) -> (ScannerView, Option<Token>) {
        match token.span() {
            None => (self, Some(token)),
            Some(span) => {
                if span.index != self.index {
                    self.refused(token, room, LINE_DELIVER_INDEX)
                } else if !self.stands_at(span) {
                    self.refused(token, room, LINE_DELIVER_POSITION)
                } else if !self.can_pass(token) {
                    self.refused(token, room, LINE_DELIVER_OVERRUN)
                } else if !self.passed(token).exhausted() {
                    (self.passed(token), Some(token))
                } else if !self.passed(token).can_return() {
                    self.refused(token, room, LINE_DELIVER_POP)
                } else {
                    (self.passed(token).returned(), Some(token))
                }
            },
        }
    }

    /// The scanner after an attempt to queue `token`: it fails where the
    /// queue does not take the token, and the queue is empty then.
    pub open spec fn queued(self, token: Token, room: bool) -> (ScannerView, Result<(), Token>) {
        match append_outcome(self.queue, token, room) {
            (queue, Ok(())) => (self.with_queue(queue), Ok(())),
            (queue, Err(error)) => (self.with_queue(queue).failed(), Err(error)),
        }
    }

    /// The token `src_push` returns where memory for the records of the
    /// region could not be reserved, or where `bytes` more would take the
    /// global offset out of the machine's range.
    pub open spec fn no_memory(self, line: u32) -> Token {
        Token::Fatal(
            ParseError::NoMemory(
                Source { pos_zero: self.pos_zero, component: Component::Tokenizer, line, code: 0 },
            ),
        )
    }

    /// The scanner after a push of `bytes` under the name `filename`, with
    /// `room` saying whether memory was there for the records.
    pub open spec fn pushed(self, filename: Option<Seq<char>>, bytes: Seq<u8>, room: bool) -> (
        ScannerView,
        Result<(), Token>,
    ) {
        if !room {
            (self.failed(), Err(self.no_memory(LINE_SRC_PUSH_NO_MEMORY)))
        } else if self.pos_zero + bytes.len() > usize::MAX {
            (self.failed(), Err(self.no_memory(LINE_SRC_PUSH_TOO_LONG)))
        } else {
            (
                ScannerView {
                    state: if self.state is ExpectInput {
                        TokenizerState::ExpectDefered
                    } else {
                        self.state
                    },
                    index: self.regions.len() as usize,
                    pos_region: 0,
                    pos_line: 0,
                    line: 0,
                    pos_max: bytes.len() as usize,
                    regions: self.regions.push(bytes),
                    snaps: self.snaps.push(
                        StateSnap {
                            pos_region: self.pos_region,
                            pos_line: self.pos_line,
                            line: self.line,
                            index: self.index,
                        },
                    ),
                    metas: self.metas.push(
                        RegionMetaView {
                            index: self.index,
                            pos_zero: self.pos_zero,
                            pos_region: self.pos_region,
                            pos_line: self.pos_line,
                            line: self.line,
                            filename,
                        },
                    ),
                    ..self
                },
                Ok(()),
            )
        }
    }

    /// The bytes `span` points at: those of a pushed region, from the span's
    /// offset on, as many as its length. There are none before the first
    /// push, nor for a span that is not inside a pushed region.
    pub open spec fn slice(self, span: Span) -> Option<Seq<u8>> {
        if self.state is ExpectInput || span.index >= self.regions.len() || span.end()
            > self.regions[span.index as int].len() {
            None
        } else {
            Some(self.regions[span.index as int].subrange(span.pos_region as int, span.end()))
        }
    }

    /// A scanner that was given nothing yet, with a queue that is guarded
    /// or not.
    pub open spec fn fresh(guard: bool) -> ScannerView {
        ScannerView {
            state: TokenizerState::ExpectInput,
            index: 0,
            pos_zero: 0,
            pos_region: 0,
            pos_line: 0,
            pos_max: 0,
            line: 0,
            regions: Seq::empty(),
            queue: QueueView::empty(guard),
            cnt_openparen: 0,
            cnt_closeparen: 0,
            snaps: Seq::empty(),
            metas: Seq::empty(),
            last_error: ParseError::NoError,
            pos_zero_prev_instr: 0,
        }
    }
}

/// What a well-formed scanner resolves a span to follows from its regions
/// alone: a scanner that waits for input has none, and a scanner without
/// regions waits for input, unless it failed.
pub proof fn lemma_slice_by_regions(v: ScannerView, span: Span)
    requires
        v.wf(),
    ensures
        v.slice(span) == if span.index < v.regions.len() && span.end()
            <= v.regions[span.index as int].len() {
            Some(v.regions[span.index as int].subrange(span.pos_region as int, span.end()))
        } else {
            None
        },
        !(v.state is Failed) ==> (v.state is ExpectInput <==> v.regions.len() == 0),
{
}

} // verus!
