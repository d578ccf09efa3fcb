//! What the include resolver is to its contracts, and what it decides.

use vstd::prelude::*;
use vstd::utf8::{decode_utf8, valid_utf8};
use crate::parse_error::{Component, ParseError, Source};
use crate::span::Span;
use crate::token::Token;
use crate::tokenbody::TokenBody;
use crate::tokenbuf::{append_outcome, lemma_filled, no_memory_token, QueueView};
use crate::tokenizer::model::ScannerView;

verus! {

/// Line of the resolver's file at which code 1 is reported: no `(` came
/// behind an instruction.
pub const LINE_NOT_OPEN: u32 = 269;

/// Line of the resolver's file at which code 2 is reported: the stream ended
/// where a path was to come.
pub const LINE_NO_PATH: u32 = 308;

/// Line of the resolver's file at which code 3 is reported: no `)` came
/// behind a path.
pub const LINE_NO_CLOSE: u32 = 343;

/// Line of the resolver's file at which code 4 is reported: the span of a
/// path points at no bytes.
pub const LINE_PATH_LOST: u32 = 361;

/// Line of the resolver's file at which code 5 is reported: an instruction
/// has no path.
pub const LINE_MISSING_ARGS: u32 = 322;

/// Line of the resolver's file at which code 6 is reported: an instruction
/// was finished and no token of it is there to be handed out.
pub const LINE_BATCH_LOST: u32 = 635;

/// Line of the resolver's file at which code 7 is reported: an instruction
/// was to be finished and nothing was collected.
pub const LINE_BATCH_EMPTY: u32 = 623;

/// Line of the resolver's file at which code 8 is reported: the file of an
/// instruction could not be had.
pub const LINE_FILE_MISSING: u32 = 901;

/// Line of the resolver's file at which code 9 is reported: the scanner
/// cannot take a file.
pub const LINE_PUSH_REFUSED: u32 = 238;

/// The modes of the resolver.
#[derive(Debug, Clone, Copy, PartialEq, Eq, Structural)]
pub enum IncludeResolverState {
    /// The tokens of the scanner are handed on as they are.
    Passthrough,
    /// The tokens of an `@include` are being collected.
    ResolveInclude,
    /// An unrecoverable error occurred.
    Failed,
}

/// What the resolver waits for while it collects an instruction.
#[derive(Debug, Clone, Copy, PartialEq, Eq, Structural)]
pub enum IncludeResolverSubState {
    /// Nothing: no instruction is being collected.
    Uninitialized,
    ExpectOpenParen,
    ExpectPath,
    ExpectCloseParen,
    /// The instruction is complete; the caller is to hand over its file.
    ExpectSource,
}

/// What a token means for the instruction being collected.
#[derive(Debug, Clone, Copy, PartialEq, Eq, Structural)]
pub enum IncludeResult {
    /// The token belongs to the instruction, which is not complete yet.
    Progress(Token),
    /// The token completes the instruction.
    Finalized(Token),
    /// The token ends the collecting: it is an error of the scanner, or the
    /// error for a stream that ended too early.
    Failed(Token),
    /// The first token cannot stand in the instruction and ends the
    /// collecting; the second says what is wrong.
    FailedWith(Token, Token),
}

/// A resolver, as contracts see it.
pub struct ResolverView {
    pub scanner: ScannerView,
    pub state: IncludeResolverState,
    pub substate: IncludeResolverSubState,
    /// Tokens to hand out before the scanner is asked again.
    pub queue: QueueView,
    /// The tokens of the instruction being collected.
    pub batch: QueueView,
    /// The span of the path of the instruction being collected.
    pub file: Option<Span>,
    pub root_dir: Option<Seq<char>>,
    /// Global offset of the instruction being collected.
    pub include_pos_zero: Option<usize>,
}

/// Whether `body` is whitespace of any kind.
pub open spec fn is_whitespace(body: TokenBody) -> bool {
    body is WhiteSpace || body is WhiteSpaceLd || body is WhiteSpaceTr || body is WhiteSpaceWhole
}

/// A token as it leaves a finished instruction: content is marked as
/// consumed, everything else is left as it is.
pub open spec fn consumed(token: Token) -> Token {
    match token {
        Token::Real(body) => Token::Phantom(body),
        other => other,
    }
}

/// The tokens of a finished instruction as they leave the resolver: markers
/// are dropped and content is marked as consumed.
pub open spec fn phantomized(batch: Seq<Token>) -> Seq<Token>
    decreases batch.len(),
{
    if batch.len() == 0 {
        Seq::empty()
    } else if batch.last() is StateChange {
        phantomized(batch.drop_last())
    } else {
        phantomized(batch.drop_last()).push(consumed(batch.last()))
    }
}

impl ResolverView {
    /// The scanner is in order or was given nothing yet; the queues hold
    /// what they say and refuse nothing; and a resolver that collects an
    /// instruction waits for something.
    pub open spec fn wf(self) -> bool {
        &&& self.scanner.ready()
        &&& !self.queue.guard
        &&& !self.batch.guard
        &&& self.queue.pending.len() <= self.queue.backing <= usize::MAX
        &&& self.batch.pending.len() <= self.batch.backing <= usize::MAX
        &&& self.state is ResolveInclude ==> !(self.substate is Uninitialized)
    }

    /// A resolver that was given nothing yet.
    pub open spec fn fresh() -> ResolverView {
        ResolverView {
            scanner: ScannerView::fresh(false),
            state: IncludeResolverState::Passthrough,
            substate: IncludeResolverSubState::Uninitialized,
            queue: QueueView::empty(false),
            batch: QueueView::empty(false),
            file: None,
            root_dir: None,
            include_pos_zero: None,
        }
    }

    /// The origin of a diagnostic of the resolver: it points at the
    /// instruction being collected.
    pub open spec fn source(self, line: u32, code: u16) -> Source {
        Source {
            pos_zero: match self.include_pos_zero {
                Some(pos) => pos,
                None => 0,
            },
            component: Component::IncludeResolver,
            line,
            code,
        }
    }

    /// The same resolver over another scanner.
    pub open spec fn with_scanner(self, scanner: ScannerView) -> ResolverView {
        ResolverView { scanner, ..self }
    }

    /// The same resolver, collecting nothing.
    pub open spec fn idle(self) -> ResolverView {
        ResolverView {
            state: IncludeResolverState::Passthrough,
            substate: IncludeResolverSubState::Uninitialized,
            file: None,
            include_pos_zero: None,
            ..self
        }
    }

    /// The same resolver in the failed state.
    pub open spec fn failed(self) -> ResolverView {
        ResolverView { state: IncludeResolverState::Failed, ..self }
    }

    /// The resolver that failed for want of room for the tokens to hand
    /// out: those that waited are given up, as by an `append` that fails.
    pub open spec fn drained(self) -> ResolverView {
        (ResolverView { queue: QueueView::empty(self.queue.guard), ..self }).failed()
    }

    /// What the token `pulled` from the scanner means while a `(` is waited
    /// for. Whitespace, warnings and consumed tokens may come in front of
    /// the `(`. The end of the stream and every other content token end the
    /// collecting with an `Error(InstructionNotOpen)`.
    pub open spec fn open_paren_step(self, pulled: Option<Token>) -> (ResolverView, IncludeResult) {
        let not_open = Token::Error(
            ParseError::InstructionNotOpen(self.source(LINE_NOT_OPEN, 1)),
        );
        match pulled {
            None => (self, IncludeResult::Failed(not_open)),
            Some(token) => match token {
                Token::Real(body) => if body is OpenParen {
                    (
                        ResolverView { substate: IncludeResolverSubState::ExpectPath, ..self },
                        IncludeResult::Progress(token),
                    )
                } else if is_whitespace(body) {
                    (self, IncludeResult::Progress(token))
                } else {
                    (self, IncludeResult::FailedWith(token, not_open))
                },
                Token::Phantom(_) | Token::StateChange | Token::Warning(_) => (
                    self,
                    IncludeResult::Progress(token),
                ),
                Token::Fatal(_) | Token::Error(_) => (self, IncludeResult::Failed(token)),
            },
        }
    }

    /// What the token `pulled` from the scanner means while the path is
    /// waited for. A run is taken for the path. The end of the stream and
    /// every other content token end the collecting with an
    /// `Error(InstructionMissingArgs)`.
    pub open spec fn path_step(self, pulled: Option<Token>) -> (ResolverView, IncludeResult) {
        match pulled {
            None => (
                self,
                IncludeResult::Failed(
                    Token::Error(
                        ParseError::InstructionMissingArgs(self.source(LINE_NO_PATH, 2)),
                    ),
                ),
            ),
            Some(token) => match token {
                Token::Real(body) => match body {
                    TokenBody::Defered(span) => (
                        ResolverView {
                            substate: IncludeResolverSubState::ExpectCloseParen,
                            file: Some(span),
                            ..self
                        },
                        IncludeResult::Progress(token),
                    ),
                    _ => (
                        self,
                        IncludeResult::FailedWith(
                            token,
                            Token::Error(
                                ParseError::InstructionMissingArgs(
                                    self.source(LINE_MISSING_ARGS, 5),
                                ),
                            ),
                        ),
                    ),
                },
                Token::Phantom(_) | Token::StateChange | Token::Warning(_) => (
                    self,
                    IncludeResult::Progress(token),
                ),
                Token::Fatal(_) | Token::Error(_) => (self, IncludeResult::Failed(token)),
            },
        }
    }

    /// What the token `pulled` from the scanner means while the `)` is
    /// waited for. The `)` completes the instruction if the path points at
    /// bytes of the scanner. The end of the stream ends the collecting with
    /// an `Error(OpenInstruction)`, and so does every other content token.
    pub open spec fn close_paren_step(self, pulled: Option<Token>) -> (
        ResolverView,
        IncludeResult,
    ) {
        let open = Token::Error(ParseError::OpenInstruction(self.source(LINE_NO_CLOSE, 3)));
        match pulled {
            None => (self, IncludeResult::Failed(open)),
            Some(token) => match token {
                Token::Real(body) => if body is CloseParen {
                    match self.file {
                        Some(span) => if self.scanner.slice(span) is Some {
                            (
                                ResolverView {
                                    substate: IncludeResolverSubState::ExpectSource,
                                    ..self
                                },
                                IncludeResult::Finalized(token),
                            )
                        } else {
                            (
                                self,
                                IncludeResult::FailedWith(
                                    token,
                                    Token::Error(
                                        ParseError::InternalError(
                                            self.source(LINE_PATH_LOST, 4),
                                        ),
                                    ),
                                ),
                            )
                        },
                        None => (
                            self,
                            IncludeResult::FailedWith(
                                token,
                                Token::Error(
                                    ParseError::InstructionMissingArgs(
                                        self.source(LINE_MISSING_ARGS, 5),
                                    ),
                                ),
                            ),
                        ),
                    }
                } else {
                    (self, IncludeResult::FailedWith(token, open))
                },
                Token::Phantom(_) | Token::StateChange | Token::Warning(_) => (
                    self,
                    IncludeResult::Progress(token),
                ),
                Token::Fatal(_) | Token::Error(_) => (self, IncludeResult::Failed(token)),
            },
        }
    }

    /// What the token `pulled` from the scanner means for the instruction
    /// being collected.
    pub open spec fn substate_step(self, pulled: Option<Token>) -> (ResolverView, IncludeResult) {
        match self.substate {
            IncludeResolverSubState::ExpectOpenParen => self.open_paren_step(pulled),
            IncludeResolverSubState::ExpectPath => self.path_step(pulled),
            _ => self.close_paren_step(pulled),
        }
    }

    /// The resolver after `token` was put to the tokens of the instruction
    /// being collected, and the error where that failed; what was collected
    /// is given up then. Markers are not collected.
    pub open spec fn batched(self, token: Token, room: bool) -> (ResolverView, Option<Token>) {
        if token is StateChange {
            (self, None)
        } else {
            match append_outcome(self.batch, token, room) {
                (batch, Ok(())) => (ResolverView { batch, ..self }, None),
                (batch, Err(error)) => ((ResolverView { batch, ..self }).failed(), Some(error)),
            }
        }
    }

    /// What the resolver makes of the token `pulled` from the scanner while
    /// it hands tokens on. An `@include` starts the collecting: it is kept
    /// as a consumed token and the caller is told to come again. Every other
    /// token is handed on.
    pub open spec fn passthrough_step(self, pulled: Option<Token>, room: bool) -> (
        ResolverView,
        Option<Token>,
    ) {
        match pulled {
            Some(Token::Real(TokenBody::Include(span))) => {
                let collecting = ResolverView {
                    state: IncludeResolverState::ResolveInclude,
                    substate: IncludeResolverSubState::ExpectOpenParen,
                    include_pos_zero: Some(span.pos_zero),
                    ..self
                };
                match collecting.batched(Token::Phantom(TokenBody::Include(span)), room) {
                    (kept, None) => (kept, Some(Token::StateChange)),
                    (failed, Some(error)) => (failed, Some(error)),
                }
            },
            _ => (self, pulled),
        }
    }

    /// The resolver after the collected tokens and `extra` were moved to the
    /// tokens to hand out, and the first token to hand out. With `consume`
    /// set the collected tokens leave as those of a finished instruction.
    pub open spec fn released(self, extra: Seq<Token>, consume: bool) -> (
        ResolverView,
        Option<Token>,
    ) {
        let tokens = if consume {
            phantomized(self.batch.pending)
        } else {
            self.batch.pending
        } + extra;
        let queue = self.queue.filled(tokens);
        (
            ResolverView {
                queue: queue.popped(),
                batch: QueueView::empty(false),
                ..self.idle()
            },
            queue.front(),
        )
    }

    /// The end of a collecting that failed: the collected tokens are handed
    /// out as they are, and `extra` behind them. Without room for them the
    /// resolver fails, and the tokens that waited to be handed out are
    /// given up.
    pub open spec fn surfaced(self, extra: Seq<Token>, room: bool) -> (
        ResolverView,
        Option<Token>,
    ) {
        if !room {
            (self.drained(), Some(no_memory_token()))
        } else {
            self.released(extra, false)
        }
    }

    /// The end of a collecting that succeeded: the collected tokens are
    /// handed out as consumed ones. The resolver fails where nothing was
    /// collected, where there is no room, and where no token is left to hand
    /// out. Without room the tokens that waited to be handed out are given
    /// up.
    pub open spec fn finalized(self, room: bool) -> (ResolverView, Option<Token>) {
        if self.batch.pending.len() == 0 {
            (
                self.failed(),
                Some(Token::Fatal(ParseError::InternalError(self.source(LINE_BATCH_EMPTY, 7)))),
            )
        } else if !room {
            (self.drained(), Some(no_memory_token()))
        } else if self.released(Seq::empty(), true).1 is None {
            (
                self.released(Seq::empty(), true).0.failed(),
                Some(Token::Fatal(ParseError::InternalError(self.source(LINE_BATCH_LOST, 6)))),
            )
        } else {
            self.released(Seq::empty(), true)
        }
    }

    /// What the resolver makes of the token `pulled` from the scanner while
    /// it collects an instruction. A token that belongs to the instruction
    /// is kept, and the step gives the marker for coming again: the
    /// resolver goes on to the next token, see `goes_on`, or has the caller
    /// come again where the instruction is complete. A token that ends the
    /// collecting is handed out behind the collected tokens, with the error
    /// that says what is wrong behind it, if there is one.
    pub open spec fn collect_step(self, pulled: Option<Token>, room: bool) -> (
        ResolverView,
        Option<Token>,
    ) {
        let (stepped, result) = self.substate_step(pulled);
        match result {
            IncludeResult::Progress(token) | IncludeResult::Finalized(token) => {
                match stepped.batched(token, room) {
                    (kept, None) => (kept, Some(Token::StateChange)),
                    (failed, Some(error)) => (failed, Some(error)),
                }
            },
            IncludeResult::Failed(token) => stepped.surfaced(seq![token], room),
            IncludeResult::FailedWith(token, error) => stepped.surfaced(seq![token, error], room),
        }
    }

    /// Whether the resolver waits for the file of an instruction.
    pub open spec fn awaits_source(self) -> bool {
        self.state is ResolveInclude && self.substate is ExpectSource
    }

    /// The bytes of the path of the file the resolver waits for.
    pub open spec fn request(self) -> Option<Seq<u8>> {
        if self.awaits_source() {
            match self.file {
                Some(span) => self.scanner.slice(span),
                None => None,
            }
        } else {
            None
        }
    }

    /// The name of the file the resolver waits for: the bytes of its path
    /// read as text. There is none where the resolver waits for no file, or
    /// where the bytes are not valid UTF-8.
    pub open spec fn filename(self) -> Option<Seq<char>> {
        match self.request() {
            Some(bytes) => if valid_utf8(bytes) {
                Some(decode_utf8(bytes))
            } else {
                None
            },
            None => None,
        }
    }

    /// The error for a file that the scanner cannot take: see
    /// `ScannerView::takes`.
    pub open spec fn push_refused(self) -> Token {
        Token::Fatal(ParseError::InternalError(self.source(LINE_PUSH_REFUSED, 9)))
    }

    /// What becomes of the resolver where the bytes of the file `filename`
    /// are pushed onto its scanner, with `room` saying whether memory was
    /// there for the records of the region. A file that the scanner cannot
    /// take, because tokens wait in its queue or because the global offset
    /// could not count the bytes, is refused: the resolver fails, and the
    /// scanner is left as it was.
    pub open spec fn pushed(self, filename: Seq<char>, bytes: Seq<u8>, room: bool) -> (
        ResolverView,
        Result<(), Token>,
    ) {
        if !self.scanner.takes(bytes) {
            (self.failed(), Err(self.push_refused()))
        } else {
            (
                self.with_scanner(self.scanner.pushed(Some(filename), bytes, room).0),
                self.scanner.pushed(Some(filename), bytes, room).1,
            )
        }
    }

    /// The error for a file that could not be had.
    pub open spec fn file_missing(self) -> Token {
        Token::Error(ParseError::InstructionError(self.source(LINE_FILE_MISSING, 8)))
    }

    /// What the resolver does where the file it waits for cannot be had: the
    /// collected tokens are handed out as they are, with an
    /// `Error(InstructionError)` behind them. A resolver that waits for no
    /// file does nothing.
    pub open spec fn rejected(self, room: bool) -> (ResolverView, Option<Token>) {
        if self.awaits_source() {
            self.surfaced(seq![self.file_missing()], room)
        } else {
            (self, None)
        }
    }

    /// What the resolver does with the bytes of the file it waits for: they
    /// are pushed onto the scanner under the name `filename`, and the
    /// collected tokens are handed out as consumed ones. A file without
    /// bytes is pushed like any other: the scanner returns from it at once.
    /// Where the push fails or is refused, see `pushed`, the resolver
    /// fails. A resolver that waits for no file does nothing.
    pub open spec fn supplied(
        self,
        filename: Seq<char>,
        bytes: Seq<u8>,
        room_push: bool,
        room: bool,
    ) -> (ResolverView, Option<Token>) {
        if !self.awaits_source() {
            (self, None)
        } else {
            match self.pushed(filename, bytes, room_push) {
                (pushed, Ok(())) => pushed.finalized(room),
                (refused, Err(error)) => (refused.failed(), Some(error)),
            }
        }
    }

    /// What the resolver does with what was found under the name of the
    /// file it waits for: the bytes `contents` are handed over under that
    /// name; where there are none, or where the path is no name, the file
    /// cannot be had.
    pub open spec fn answered(
        self,
        contents: Option<Seq<u8>>,
        room_push: bool,
        room: bool,
    ) -> (ResolverView, Option<Token>) {
        match (self.filename(), contents) {
            (Some(name), Some(bytes)) => self.supplied(name, bytes, room_push, room),
            _ => self.rejected(room),
        }
    }

    /// Whether `after` and `out` are an outcome of such an answer.
    pub open spec fn answer_follows(
        self,
        contents: Option<Seq<u8>>,
        after: ResolverView,
        out: Option<Token>,
    ) -> bool {
        ||| (after, out) == self.answered(contents, true, true)
        ||| (after, out) == self.answered(contents, true, false)
        ||| (after, out) == self.answered(contents, false, true)
    }

    /// Whether `after` and `out` are what a resolver that hands tokens on
    /// makes of the token `pulled` from the scanner, which is `scanner`
    /// afterwards.
    pub open spec fn passthrough_follows(
        self,
        scanner: ScannerView,
        pulled: Option<Token>,
        after: ResolverView,
        out: Option<Token>,
    ) -> bool {
        &&& self.scanner.next_follows(scanner, pulled)
        &&& {
            ||| (after, out) == self.with_scanner(scanner).passthrough_step(pulled, true)
            ||| (after, out) == self.with_scanner(scanner).passthrough_step(pulled, false)
        }
    }

    /// Whether `after` and `out` are what a resolver that collects an
    /// instruction makes of the token `pulled` from the scanner, which is
    /// `scanner` afterwards.
    pub open spec fn collect_follows(
        self,
        scanner: ScannerView,
        pulled: Option<Token>,
        after: ResolverView,
        out: Option<Token>,
    ) -> bool {
        &&& self.scanner.next_follows(scanner, pulled)
        &&& {
            ||| (after, out) == self.with_scanner(scanner).collect_step(pulled, true)
            ||| (after, out) == self.with_scanner(scanner).collect_step(pulled, false)
        }
    }

    /// Whether the resolver goes on collecting behind a step that left it
    /// as it is and gave `out`: the step gave the marker for coming again,
    /// for nothing but the next token of the instruction. The resolver
    /// then pulls that token itself.
    pub open spec fn goes_on(self, out: Option<Token>) -> bool {
        &&& out == Some(Token::StateChange)
        &&& self.state is ResolveInclude
        &&& !self.awaits_source()
    }

    /// Whether `after` and `out` are what a resolver that collects an
    /// instruction comes to with `n` pulls from the scanner behind the
    /// first: it pulls as long as the token belongs to the instruction, and
    /// stops where the instruction is complete or the collecting has ended.
    pub open spec fn collect_run(self, n: nat, after: ResolverView, out: Option<Token>) -> bool
        decreases n,
    {
        exists|pulled: Option<Token>, mid: ResolverView, given: Option<Token>|
            #[trigger] self.collect_follows(mid.scanner, pulled, mid, given) && if n == 0 {
                mid == after && given == out && !mid.goes_on(given)
            } else {
                mid.goes_on(given) && mid.collect_run((n - 1) as nat, after, out)
            }
    }

    /// Whether `after` and `out` are an outcome of handing over the bytes of
    /// a file.
    pub open spec fn supply_follows(
        self,
        filename: Seq<char>,
        bytes: Seq<u8>,
        after: ResolverView,
        out: Option<Token>,
    ) -> bool {
        ||| (after, out) == self.supplied(filename, bytes, true, true)
        ||| (after, out) == self.supplied(filename, bytes, true, false)
        ||| (after, out) == self.supplied(filename, bytes, false, true)
    }

    /// Whether `after` and `out` are an outcome of a pull.
    ///
    /// Tokens that wait to be handed out go first. Else a resolver that
    /// waits for a file takes the pull for the word that there is none; a
    /// resolver that failed has nothing to give; a resolver that hands
    /// tokens on pulls one token from the scanner; and a resolver that
    /// collects an instruction pulls tokens until the instruction is
    /// complete or the collecting has ended: see `collect_run`.
    pub open spec fn next_follows(self, after: ResolverView, out: Option<Token>) -> bool {
        if self.queue.pending.len() > 0 {
            after == (ResolverView { queue: self.queue.popped(), ..self }) && out
                == self.queue.front()
        } else if self.state is Failed {
            after == self && out is None
        } else if self.awaits_source() {
            (after, out) == self.rejected(true) || (after, out) == self.rejected(false)
        } else if self.state is Passthrough {
            exists|pulled: Option<Token>|
                self.passthrough_follows(after.scanner, pulled, after, out)
        } else {
            exists|n: nat| self.collect_run(n, after, out)
        }
    }
}

/// No token of a finished instruction leaves the resolver as content to
/// render: what was collected as content leaves as consumed.
pub proof fn lemma_phantomized_never_real(batch: Seq<Token>)
    ensures
        forall|i: int| 0 <= i < phantomized(batch).len() ==> !(#[trigger] phantomized(batch)[i]
            is Real),
        forall|i: int|
            0 <= i < phantomized(batch).len() ==> !(#[trigger] phantomized(batch)[i]
                is StateChange),
    decreases batch.len(),
{
    if batch.len() > 0 {
        lemma_phantomized_never_real(batch.drop_last());
    }
}

/// The tokens of a finished instruction leave in the order they were
/// collected in: where no marker was collected, every token leaves, content
/// as consumed content and everything else as it is.
pub proof fn lemma_phantomized_keeps_order(batch: Seq<Token>)
    requires
        forall|i: int| 0 <= i < batch.len() ==> !(#[trigger] batch[i] is StateChange),
    ensures
        phantomized(batch).len() == batch.len(),
        forall|i: int|
            0 <= i < batch.len() ==> #[trigger] phantomized(batch)[i] == consumed(batch[i]),
    decreases batch.len(),
{
    if batch.len() > 0 {
        assert(!(batch[batch.len() - 1] is StateChange));
        lemma_phantomized_keeps_order(batch.drop_last());
    }
}

/// A resolver that finishes an instruction hands out the tokens it
/// collected, in their order, as consumed tokens, and never as content to
/// render: the instruction, the whitespace behind it, its parentheses and
/// its path.
pub proof fn lemma_finalized_hands_out_consumed(v: ResolverView)
    requires
        v.queue.pending.len() == 0,
        v.batch.pending.len() > 0,
        v.finalized(true).1 is Some,
        !(v.finalized(true).0.state is Failed),
    ensures
        seq![v.finalized(true).1->0] + v.finalized(true).0.queue.pending == phantomized(
            v.batch.pending,
        ),
        !(v.finalized(true).1->0 is Real),
        forall|i: int|
            0 <= i < v.finalized(true).0.queue.pending.len() ==> !(
            #[trigger] v.finalized(true).0.queue.pending[i] is Real),
{
    let tokens = phantomized(v.batch.pending);
    lemma_phantomized_never_real(v.batch.pending);
    lemma_filled(v.queue, tokens + Seq::<Token>::empty());
    assert(tokens + Seq::<Token>::empty() =~= tokens);
    let queue = v.queue.filled(tokens);
    assert(queue.pending =~= tokens);
    let after = v.finalized(true).0;
    assert(after.queue.pending =~= tokens.drop_first());
    assert(seq![tokens[0]] + tokens.drop_first() =~= tokens);
    assert forall|i: int| 0 <= i < after.queue.pending.len() implies !(
    #[trigger] after.queue.pending[i] is Real) by {
        assert(after.queue.pending[i] == tokens[i + 1]);
    }
}

/// A step that ends the collecting is a run of its own.
pub proof fn lemma_collect_run_ends(
    v: ResolverView,
    pulled: Option<Token>,
    after: ResolverView,
    out: Option<Token>,
)
    requires
        v.collect_follows(after.scanner, pulled, after, out),
        !after.goes_on(out),
    ensures
        v.collect_run(0, after, out),
{
}

/// A step behind which the collecting goes on stands in front of the run
/// that follows it.
pub proof fn lemma_collect_run_goes_on(
    v: ResolverView,
    pulled: Option<Token>,
    mid: ResolverView,
    given: Option<Token>,
    n: nat,
    after: ResolverView,
    out: Option<Token>,
)
    requires
        v.collect_follows(mid.scanner, pulled, mid, given),
        mid.goes_on(given),
        mid.collect_run(n, after, out),
    ensures
        v.collect_run(n + 1, after, out),
{
    assert((n + 1 - 1) as nat == n);
}

} // verus!
