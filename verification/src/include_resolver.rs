//! The include resolver: a filter on top of the scanner that turns
//! `@include(path)` into consumed tokens and has the named file scanned in
//! its place.
//!
//! Reading a file is not done here. The resolver collects the tokens of an
//! instruction, says which file it wants, and goes on once the caller has
//! handed over the bytes of the file, or has said that there are none.

use vstd::prelude::*;
use vstd::string::StringSliceAdditionalSpecFns;
use crate::include_resolver::laws::{
    lemma_answer_settled, lemma_going_on_descends, lemma_reject_settled,
    lemma_resolver_pull_descends, lemma_resolver_pull_settled, lemma_supply_settled,
};
use crate::include_resolver::model::{
    lemma_collect_run_ends, lemma_collect_run_goes_on, phantomized, IncludeResolverState,
    IncludeResolverSubState, IncludeResult, ResolverView, LINE_BATCH_EMPTY, LINE_BATCH_LOST,
    LINE_FILE_MISSING, LINE_MISSING_ARGS, LINE_NOT_OPEN, LINE_NO_CLOSE, LINE_NO_PATH,
    LINE_PATH_LOST, LINE_PUSH_REFUSED,
};
use crate::parse_error::{Component, ParseError, Source};
use crate::path::{climbs, path_climbs};
use crate::span::Span;
use crate::text::from_utf8;
use crate::token::Token;
use crate::tokenbody::TokenBody;
use crate::tokenbuf::{lemma_filled_empty, lemma_filled_push, no_memory_token, TokenBuf};
use crate::tokenizer::{bytes_view, Tokenizer};

pub mod laws;
pub mod model;

verus! {

/// Why a template file has no path.
#[derive(Debug, Clone, Copy, PartialEq, Eq, Structural)]
pub enum FilePathError {
    /// No root directory was set.
    NoRootDir,
    /// The name of the file has a segment `..`.
    Climbs,
}

/// The include resolver.
#[derive(Debug)]
pub struct IncludeResolver {
    tokenizer: Tokenizer,
    state: IncludeResolverState,
    substate: IncludeResolverSubState,
    // Tokens to hand out before the scanner is asked again.
    tokenbuf: TokenBuf,
    // The tokens of the instruction being collected.
    batchbuf: TokenBuf,
    // The span of the path of the instruction being collected.
    tokenspan_file: Option<Span>,
    // The directory in which template files are looked for.
    root_dir: Option<String>,
    include_pos_zero: Option<usize>,
    // The global offset at which the stream of the scanner ends: what the
    // view of the scanner says it is, kept at hand to tell whether the
    // scanner can take a file.
    reach: usize,
}

impl View for IncludeResolver {
    type V = ResolverView;

    closed spec fn view(&self) -> ResolverView {
        ResolverView {
            scanner: self.tokenizer@,
            state: self.state,
            substate: self.substate,
            queue: self.tokenbuf@,
            batch: self.batchbuf@,
            file: self.tokenspan_file,
            root_dir: match self.root_dir {
                Some(dir) => Some(dir@),
                None => None,
            },
            include_pos_zero: self.include_pos_zero,
        }
    }
}

impl IncludeResolver {
    /// The scanner and the two queues are well-formed, the scanner is in
    /// order, and a resolver that collects an instruction knows what it
    /// waits for: see `ResolverView::wf`. A resolver keeps its scanner in
    /// order because nothing but the resolver pushes onto it, and the
    /// resolver pushes only what the scanner takes.
    pub closed spec fn wf(&self) -> bool {
        &&& self.tokenizer.wf()
        &&& self.tokenbuf.wf()
        &&& self.batchbuf.wf()
        &&& self@.wf()
        &&& self.reach == self.tokenizer@.reach()
    }

    /// What `wf` says of the resolver's view.
    pub proof fn lemma_wf(&self)
        requires
            self.wf(),
        ensures
            self@.wf(),
            self@.scanner.wf(),
            self@.scanner.ready(),
    {
        self.tokenizer.lemma_wf();
    }

    /// A resolver over a scanner that was given no source yet.
    pub fn new() -> (r: Self)
        ensures
            r.wf(),
            r@ == ResolverView::fresh(),
    {
        IncludeResolver {
            state: IncludeResolverState::Passthrough,
            substate: IncludeResolverSubState::Uninitialized,
            tokenizer: Tokenizer::new(),
            tokenbuf: TokenBuf::new(),
            batchbuf: TokenBuf::new(),
            tokenspan_file: None,
            root_dir: None,
            include_pos_zero: None,
            reach: 0,
        }
    }

    /// Sets the directory in which template files are looked for. The path
    /// is taken as it is.
    pub fn template_root_dir_set(&mut self, root_dir: &str)
        requires
            old(self).wf(),
        ensures
            final(self).wf(),
            final(self)@ == (ResolverView { root_dir: Some(root_dir@), ..old(self)@ }),
    {
        self.root_dir = Some(root_dir.to_owned());
    }

    /// Returns the scanner, to resolve the spans of delivered tokens with.
    pub fn tokenizer(&self) -> (t: &Tokenizer)
        requires
            self.wf(),
        ensures
            t.wf(),
            t@ == self@.scanner,
    {
        &self.tokenizer
    }

    /// Returns the path of the template file `filename`: the root directory,
    /// a `/`, and the name. A name with a segment `..` is refused, and there
    /// is no path before a root directory was set.
    pub fn file_path(&self, filename: &str) -> (path: Result<String, FilePathError>)
        ensures
            match path {
                Ok(p) => self@.root_dir is Some && !climbs(filename.spec_bytes()) && p@
                    == self@.root_dir->0 + "/"@ + filename@,
                Err(FilePathError::NoRootDir) => self@.root_dir is None,
                Err(FilePathError::Climbs) => self@.root_dir is Some && climbs(
                    filename.spec_bytes(),
                ),
            },
    {
        let dir = match &self.root_dir {
            None => {
                return Err(FilePathError::NoRootDir);
            },
            Some(dir) => dir,
        };
        if path_climbs(filename.as_bytes()) {
            return Err(FilePathError::Climbs);
        }
        let mut path = dir.clone();
        path.append("/");
        path.append(filename);
        Ok(path)
    }

    /// Pushes the bytes of the template file `filename` onto the scanner:
    /// what is left to do once a file was read. A file that the scanner
    /// cannot take is refused, and the resolver fails: see
    /// `ResolverView::pushed`. Behind a push that went through the resolver
    /// is in order, see `ResolverView::settled`.
    pub fn file_contents_push(&mut self, filename: &str, contents: Vec<u8>) -> (r: Result<
        (),
        Token,
    >)
        requires
            old(self).wf(),
        ensures
            final(self).wf(),
            (final(self)@, r) == old(self)@.pushed(filename@, contents@, true) || (final(self)@, r)
                == old(self)@.pushed(filename@, contents@, false),
            r is Ok ==> final(self)@.settled(),
    {
        if !self.scanner_takes(&contents) {
            return Err(self.refuse_push());
        }
        let len = contents.len();
        let r = self.tokenizer.src_push(Some(filename), contents);
        if r.is_ok() {
            self.reach = self.reach + len;
        }
        r
    }

    // Whether the scanner takes `contents` as a region: see
    // `ScannerView::takes`.
    fn scanner_takes(&self, contents: &Vec<u8>) -> (takes: bool)
        requires
            self.wf(),
        ensures
            takes == self@.scanner.takes(contents@),
    {
        proof {
            self.tokenizer.lemma_wf();
        }
        let queue = self.tokenizer.tokenbuf();
        proof {
            queue.lemma_wf_view();
        }
        queue.num_tokens() == 0 && self.tokenizer.num_regions() < usize::MAX && contents.len()
            <= usize::MAX - self.reach
    }

    // Fails the resolver for a file that the scanner cannot take.
    fn refuse_push(&mut self) -> (r: Token)
        requires
            old(self).wf(),
        ensures
            final(self).wf(),
            final(self)@ == old(self)@.failed(),
            r == old(self)@.push_refused(),
    {
        let error = ParseError::InternalError(self.source(LINE_PUSH_REFUSED, 9));
        self.state = IncludeResolverState::Failed;
        Token::Fatal(error)
    }

    // The origin of a diagnostic of the resolver.
    fn source(&self, line: u32, code: u16) -> (source: Source)
        ensures
            source == self@.source(line, code),
    {
        Source {
            pos_zero: match self.include_pos_zero {
                Some(pos) => pos,
                None => 0,
            },
            component: Component::IncludeResolver,
            line,
            code,
        }
    }

    /// Decides what the token `pulled` from the scanner means while a `(`
    /// is waited for: see `ResolverView::open_paren_step`.
    pub fn next_resolve_include_expect_open_paren(&mut self, pulled: Option<Token>) -> (r:
        IncludeResult)
        requires
            old(self).wf(),
        ensures
            final(self).wf(),
            (final(self)@, r) == old(self)@.open_paren_step(pulled),
    {
        let not_open = Token::Error(ParseError::InstructionNotOpen(self.source(LINE_NOT_OPEN, 1)));
        let token = match pulled {
            Some(token) => token,
            None => {
                return IncludeResult::Failed(not_open);
            },
        };
        match token {
            Token::Real(body) => match body {
                TokenBody::OpenParen(_) => {
                    self.substate = IncludeResolverSubState::ExpectPath;
                    IncludeResult::Progress(token)
                },
                TokenBody::WhiteSpace(_)
                | TokenBody::WhiteSpaceLd(_)
                | TokenBody::WhiteSpaceTr(_)
                | TokenBody::WhiteSpaceWhole(_) => IncludeResult::Progress(token),
                _ => IncludeResult::FailedWith(token, not_open),
            },
            Token::Phantom(_) | Token::StateChange | Token::Warning(_) => IncludeResult::Progress(
                token,
            ),
            Token::Fatal(_) | Token::Error(_) => IncludeResult::Failed(token),
        }
    }

    /// Decides what the token `pulled` from the scanner means while the
    /// path is waited for: see `ResolverView::path_step`.
    pub fn next_resolve_include_expect_path(&mut self, pulled: Option<Token>) -> (r: IncludeResult)
        requires
            old(self).wf(),
        ensures
            final(self).wf(),
            (final(self)@, r) == old(self)@.path_step(pulled),
    {
        let token = match pulled {
            Some(token) => token,
            None => {
                return IncludeResult::Failed(
                    Token::Error(ParseError::InstructionMissingArgs(self.source(LINE_NO_PATH, 2))),
                );
            },
        };
        match token {
            Token::Real(body) => match body {
                TokenBody::Defered(span) => {
                    self.substate = IncludeResolverSubState::ExpectCloseParen;
                    self.tokenspan_file = Some(span);
                    IncludeResult::Progress(token)
                },
                _ => IncludeResult::FailedWith(
                    token,
                    Token::Error(
                        ParseError::InstructionMissingArgs(self.source(LINE_MISSING_ARGS, 5)),
                    ),
                ),
            },
            Token::Phantom(_) | Token::StateChange | Token::Warning(_) => IncludeResult::Progress(
                token,
            ),
            Token::Fatal(_) | Token::Error(_) => IncludeResult::Failed(token),
        }
    }

    /// Decides what the token `pulled` from the scanner means while the
    /// `)` is waited for: see `ResolverView::close_paren_step`.
    pub fn next_resolve_include_expect_close_paren(&mut self, pulled: Option<Token>) -> (r:
        IncludeResult)
        requires
            old(self).wf(),
        ensures
            final(self).wf(),
            (final(self)@, r) == old(self)@.close_paren_step(pulled),
    {
        let open = Token::Error(ParseError::OpenInstruction(self.source(LINE_NO_CLOSE, 3)));
        let token = match pulled {
            Some(token) => token,
            None => {
                return IncludeResult::Failed(open);
            },
        };
        match token {
            Token::Real(body) => match body {
                TokenBody::CloseParen(_) => match self.tokenspan_file {
                    Some(span) => {
                        if self.tokenizer.span_slice(&span).is_some() {
                            self.substate = IncludeResolverSubState::ExpectSource;
                            IncludeResult::Finalized(token)
                        } else {
                            IncludeResult::FailedWith(
                                token,
                                Token::Error(
                                    ParseError::InternalError(self.source(LINE_PATH_LOST, 4)),
                                ),
                            )
                        }
                    },
                    None => IncludeResult::FailedWith(
                        token,
                        Token::Error(
                            ParseError::InstructionMissingArgs(self.source(LINE_MISSING_ARGS, 5)),
                        ),
                    ),
                },
                _ => IncludeResult::FailedWith(token, open),
            },
            Token::Phantom(_) | Token::StateChange | Token::Warning(_) => IncludeResult::Progress(
                token,
            ),
            Token::Fatal(_) | Token::Error(_) => IncludeResult::Failed(token),
        }
    }

    /// Decides what the token `pulled` from the scanner means for the
    /// instruction being collected, by what the resolver waits for.
    pub fn next_resolve_include_by_substate(&mut self, pulled: Option<Token>) -> (r: IncludeResult)
        requires
            old(self).wf(),
        ensures
            final(self).wf(),
            (final(self)@, r) == old(self)@.substate_step(pulled),
    {
        match self.substate {
            IncludeResolverSubState::ExpectOpenParen => {
                self.next_resolve_include_expect_open_paren(pulled)
            },
            IncludeResolverSubState::ExpectPath => self.next_resolve_include_expect_path(pulled),
            _ => self.next_resolve_include_expect_close_paren(pulled),
        }
    }

    // Puts `token` to the tokens of the instruction being collected: see
    // `ResolverView::batched`.
    fn batch(&mut self, token: Token) -> (r: Option<Token>)
        requires
            old(self).wf(),
        ensures
            final(self).wf(),
            (final(self)@, r) == old(self)@.batched(token, true) || (final(self)@, r)
                == old(self)@.batched(token, false),
    {
        if let Token::StateChange = token {
            return None;
        }
        match self.batchbuf.append(token) {
            Ok(()) => {
                proof {
                    self.batchbuf.lemma_wf_view();
                }
                None
            },
            Err(error) => {
                self.state = IncludeResolverState::Failed;
                Some(error)
            },
        }
    }

    // Moves the collected tokens, and `first` and `second` behind them, to
    // the tokens to hand out, and hands out the first: see
    // `ResolverView::released`. Room for the tokens must have been made.
    fn release(&mut self, first: Option<Token>, second: Option<Token>, consume: bool) -> (r:
        Option<Token>)
        requires
            old(self).wf(),
        ensures
            final(self).wf(),
            (final(self)@, r) == old(self)@.released(extra_of(first, second), consume),
    {
        let ghost before = self@;
        let ghost batch = before.batch.pending;
        let ghost mut moved = Seq::<Token>::empty();
        let ghost mut k: int = 0;
        proof {
            lemma_filled_empty(before.queue);
            self.batchbuf.lemma_wf_view();
            assert(batch.skip(0) =~= batch);
            assert(batch.take(0) =~= Seq::<Token>::empty());
        }
        while self.batchbuf.num_tokens() > 0
            invariant
                self.wf(),
                0 <= k <= batch.len(),
                self@ == (ResolverView {
                    queue: before.queue.filled(moved),
                    batch: self@.batch,
                    ..before
                }),
                self@.batch.pending == batch.skip(k),
                moved == if consume {
                    phantomized(batch.take(k))
                } else {
                    batch.take(k)
                },
                before.wf(),
                batch == before.batch.pending,
            decreases batch.len() - k,
        {
            if let Ok(Some(token)) = self.batchbuf.popleft() {
                proof {
                    assert(token == batch[k]);
                    assert(batch.skip(k).drop_first() =~= batch.skip(k + 1));
                    assert(batch.take(k + 1).drop_last() =~= batch.take(k));
                    assert(batch.take(k + 1).last() == token);
                    self.batchbuf.lemma_wf_view();
                }
                let out = if consume {
                    match token {
                        Token::Real(body) => Some(Token::Phantom(body)),
                        Token::StateChange => None,
                        other => Some(other),
                    }
                } else {
                    Some(token)
                };
                if let Some(out) = out {
                    let _ = self.tokenbuf.append_with_room(out, true);
                    proof {
                        lemma_filled_push(before.queue, moved, out);
                        self.tokenbuf.lemma_wf_view();
                        if !consume {
                            assert(batch.take(k + 1) =~= batch.take(k).push(token));
                        }
                        moved = moved.push(out);
                    }
                }
                proof {
                    k = k + 1;
                }
            }
        }
        proof {
            self.batchbuf.lemma_wf_view();
            assert(k == batch.len());
            assert(batch.take(k) =~= batch);
            assert(self@.batch.pending =~= Seq::<Token>::empty());
        }
        let ghost mut all = moved;
        proof {
            assert(all =~= moved + Seq::<Token>::empty());
        }
        if let Some(token) = first {
            let _ = self.tokenbuf.append_with_room(token, true);
            proof {
                lemma_filled_push(before.queue, all, token);
                self.tokenbuf.lemma_wf_view();
                all = all.push(token);
            }
        }
        if let Some(token) = second {
            let _ = self.tokenbuf.append_with_room(token, true);
            proof {
                lemma_filled_push(before.queue, all, token);
                self.tokenbuf.lemma_wf_view();
                all = all.push(token);
            }
        }
        proof {
            assert(all =~= moved + extra_of(first, second));
        }
        self.state = IncludeResolverState::Passthrough;
        self.substate = IncludeResolverSubState::Uninitialized;
        self.tokenspan_file = None;
        self.include_pos_zero = None;
        let r = match self.tokenbuf.popleft() {
            Ok(token) => token,
            Err(error) => Some(error),
        };
        proof {
            self.tokenbuf.lemma_wf_view();
        }
        r
    }

    // Ends a collecting that failed: room is made for the tokens to hand
    // out, and `surface_with_room` does the rest.
    fn surface(&mut self, first: Token, second: Option<Token>) -> (r: Option<Token>)
        requires
            old(self).wf(),
        ensures
            final(self).wf(),
            (final(self)@, r) == old(self)@.surfaced(extra_of(Some(first), second), true) || (
            final(self)@,
            r,
            ) == old(self)@.surfaced(extra_of(Some(first), second), false),
    {
        proof {
            self.batchbuf.lemma_wf_view();
        }
        let wanted = self.batchbuf.num_tokens();
        // At most two tokens are added to those that were collected. A
        // collection too large to count them cannot be moved.
        let room = wanted <= usize::MAX - 2 && self.tokenbuf.reserve(wanted + 2);
        self.surface_with_room(first, second, room)
    }

    /// Ends a collecting that failed, with `room` saying whether there is
    /// room for the tokens to hand out: the collected tokens, `first` and
    /// `second`. See `ResolverView::surfaced`.
    pub fn surface_with_room(
        &mut self,
        first: Token,
        second: Option<Token>,
        room: bool,
    ) -> (r: Option<Token>)
        requires
            old(self).wf(),
        ensures
            final(self).wf(),
            (final(self)@, r) == old(self)@.surfaced(extra_of(Some(first), second), room),
    {
        if !room {
            self.state = IncludeResolverState::Failed;
            self.tokenbuf.reset();
            proof {
                self.tokenbuf.lemma_wf_view();
            }
            return Some(TokenBuf::no_memory());
        }
        self.release(Some(first), second, false)
    }

    /// Ends a collecting that succeeded: the collected tokens are handed out
    /// as consumed ones, the first of them at once. Room is made for them,
    /// and `finalize_with_room` does the rest.
    pub fn next_resolve_include_finalized(&mut self) -> (r: Option<Token>)
        requires
            old(self).wf(),
        ensures
            final(self).wf(),
            (final(self)@, r) == old(self)@.finalized(true) || (final(self)@, r)
                == old(self)@.finalized(false),
    {
        proof {
            self.batchbuf.lemma_wf_view();
        }
        let wanted = self.batchbuf.num_tokens();
        let room = self.tokenbuf.reserve(wanted);
        self.finalize_with_room(room)
    }

    /// Ends a collecting that succeeded, with `room` saying whether there is
    /// room for the tokens to hand out. See `ResolverView::finalized`.
    pub fn finalize_with_room(&mut self, room: bool) -> (r: Option<Token>)
        requires
            old(self).wf(),
        ensures
            final(self).wf(),
            (final(self)@, r) == old(self)@.finalized(room),
    {
        proof {
            self.batchbuf.lemma_wf_view();
        }
        if self.batchbuf.num_tokens() < 1 {
            let error = ParseError::InternalError(self.source(LINE_BATCH_EMPTY, 7));
            self.state = IncludeResolverState::Failed;
            return Some(Token::Fatal(error));
        }
        if !room {
            self.state = IncludeResolverState::Failed;
            self.tokenbuf.reset();
            proof {
                self.tokenbuf.lemma_wf_view();
            }
            return Some(TokenBuf::no_memory());
        }
        let error = ParseError::InternalError(self.source(LINE_BATCH_LOST, 6));
        match self.release(None, None, true) {
            Some(token) => Some(token),
            None => {
                self.state = IncludeResolverState::Failed;
                Some(Token::Fatal(error))
            },
        }
    }

    /// Decides what to do with the token `pulled` from the scanner while
    /// tokens are handed on: see `ResolverView::passthrough_step`.
    pub fn passthrough(&mut self, pulled: Option<Token>) -> (r: Option<Token>)
        requires
            old(self).wf(),
        ensures
            final(self).wf(),
            (final(self)@, r) == old(self)@.passthrough_step(pulled, true) || (final(self)@, r)
                == old(self)@.passthrough_step(pulled, false),
    {
        match pulled {
            Some(Token::Real(TokenBody::Include(span))) => {
                self.state = IncludeResolverState::ResolveInclude;
                self.substate = IncludeResolverSubState::ExpectOpenParen;
                self.include_pos_zero = Some(span.pos_zero);
                match self.batch(Token::Phantom(TokenBody::Include(span))) {
                    None => Some(Token::StateChange),
                    Some(error) => Some(error),
                }
            },
            _ => pulled,
        }
    }

    /// Pulls one token from the scanner and hands it on, unless it is an
    /// `@include`, which starts the collecting.
    pub fn next_passthrough(&mut self) -> (r: Option<Token>)
        requires
            old(self).wf(),
        ensures
            final(self).wf(),
            exists|pulled: Option<Token>|
                old(self)@.passthrough_follows(final(self)@.scanner, pulled, final(self)@, r),
    {
        let ghost before = self@;
        let pulled = self.tokenizer.next();
        let ghost scanner = self.tokenizer@;
        let r = self.passthrough(pulled);
        assert(before.passthrough_follows(scanner, pulled, self@, r));
        r
    }

    /// Decides what to do with the token `pulled` from the scanner while an
    /// instruction is collected: see `ResolverView::collect_step`.
    pub fn collect(&mut self, pulled: Option<Token>) -> (r: Option<Token>)
        requires
            old(self).wf(),
        ensures
            final(self).wf(),
            (final(self)@, r) == old(self)@.collect_step(pulled, true) || (final(self)@, r)
                == old(self)@.collect_step(pulled, false),
    {
        match self.next_resolve_include_by_substate(pulled) {
            IncludeResult::Progress(token) | IncludeResult::Finalized(token) => {
                match self.batch(token) {
                    None => Some(Token::StateChange),
                    Some(error) => Some(error),
                }
            },
            IncludeResult::Failed(token) => self.surface(token, None),
            IncludeResult::FailedWith(token, error) => self.surface(token, Some(error)),
        }
    }

    /// Pulls tokens from the scanner for the instruction being collected,
    /// until the instruction is complete or the collecting has ended: see
    /// `ResolverView::collect_run`. Every token that belongs to the
    /// instruction takes the resolver closer to the end of its stream, see
    /// `ResolverView::distance`: so the collecting ends.
    pub fn next_resolve_include(&mut self) -> (r: Option<Token>)
        requires
            old(self).wf(),
        ensures
            final(self).wf(),
            exists|n: nat| old(self)@.collect_run(n, final(self)@, r),
        decreases old(self)@.distance(),
    {
        let ghost before = self@;
        let given = self.next_resolve_include_step();
        let ghost mid = self@;
        if self.goes_on(given) {
            let r = self.next_resolve_include();
            proof {
                let pulled = choose|pulled: Option<Token>|
                    before.collect_follows(mid.scanner, pulled, mid, given);
                let n = choose|n: nat| mid.collect_run(n, self@, r);
                lemma_collect_run_goes_on(before, pulled, mid, given, n, self@, r);
            }
            r
        } else {
            proof {
                let pulled = choose|pulled: Option<Token>|
                    before.collect_follows(mid.scanner, pulled, mid, given);
                lemma_collect_run_ends(before, pulled, mid, given);
            }
            given
        }
    }

    // Pulls one token from the scanner for the instruction being
    // collected.
    fn next_resolve_include_step(&mut self) -> (r: Option<Token>)
        requires
            old(self).wf(),
        ensures
            final(self).wf(),
            exists|pulled: Option<Token>|
                old(self)@.collect_follows(final(self)@.scanner, pulled, final(self)@, r),
            final(self)@.goes_on(r) ==> 0 <= final(self)@.distance() < old(self)@.distance(),
    {
        let ghost before = self@;
        let pulled = self.tokenizer.next();
        let ghost scanner = self.tokenizer@;
        let r = self.collect(pulled);
        proof {
            assert(before.collect_follows(scanner, pulled, self@, r));
            if self@.goes_on(r) {
                lemma_going_on_descends(before, scanner, pulled, self@, r);
            }
        }
        r
    }

    // Whether the resolver goes on collecting behind a step that gave
    // `out`: see `ResolverView::goes_on`.
    fn goes_on(&self, out: Option<Token>) -> (on: bool)
        ensures
            on == self@.goes_on(out),
    {
        match (out, self.state, self.substate) {
            (_, _, IncludeResolverSubState::ExpectSource) => false,
            (Some(Token::StateChange), IncludeResolverState::ResolveInclude, _) => true,
            _ => false,
        }
    }

    /// Returns the bytes of the path of the file that the resolver waits
    /// for, or `None` where it waits for no file.
    pub fn include_request(&self) -> (path: Option<&[u8]>)
        requires
            self.wf(),
        ensures
            bytes_view(path) == self@.request(),
    {
        match (self.state, self.substate) {
            (IncludeResolverState::ResolveInclude, IncludeResolverSubState::ExpectSource) => {
                match self.tokenspan_file {
                    Some(span) => self.tokenizer.span_slice(&span),
                    None => None,
                }
            },
            _ => None,
        }
    }

    /// Hands over the bytes of the file that the resolver waits for: see
    /// `ResolverView::supplied`. A resolver that is in order stays in
    /// order.
    pub fn include_supply(&mut self, filename: &str, contents: Vec<u8>) -> (r: Option<Token>)
        requires
            old(self).wf(),
        ensures
            final(self).wf(),
            old(self)@.supply_follows(filename@, contents@, final(self)@, r),
            old(self)@.settled() ==> final(self)@.settled(),
    {
        proof {
            if self@.settled() && self@.awaits_source() {
                lemma_supply_settled(self@, filename@, contents@, true, true);
                lemma_supply_settled(self@, filename@, contents@, true, false);
                lemma_supply_settled(self@, filename@, contents@, false, true);
            }
        }
        match (self.state, self.substate) {
            (IncludeResolverState::ResolveInclude, IncludeResolverSubState::ExpectSource) => {},
            _ => {
                return None;
            },
        }
        if let Err(error) = self.file_contents_push(filename, contents) {
            self.state = IncludeResolverState::Failed;
            return Some(error);
        }
        self.next_resolve_include_finalized()
    }

    /// Returns the name of the file that the resolver waits for: the bytes
    /// of its path as text. Returns `None` where it waits for no file, or
    /// where the bytes are not valid UTF-8.
    pub fn include_filename(&self) -> (name: Option<&str>)
        requires
            self.wf(),
        ensures
            match name {
                Some(text) => self@.filename() == Some(text@),
                None => self@.filename() is None,
            },
    {
        match self.include_request() {
            Some(path) => from_utf8(path),
            None => None,
        }
    }

    /// Hands over what was found under the name of the file that the
    /// resolver waits for, `None` where nothing was: see
    /// `ResolverView::answered`.
    pub fn include_answer(&mut self, contents: Option<Vec<u8>>) -> (r: Option<Token>)
        requires
            old(self).wf(),
        ensures
            final(self).wf(),
            old(self)@.answer_follows(found_view(contents), final(self)@, r),
            old(self)@.settled() ==> final(self)@.settled(),
    {
        proof {
            let found = found_view(contents);
            if self@.settled() && self@.awaits_source() {
                lemma_answer_settled(self@, found, true, true);
                lemma_answer_settled(self@, found, true, false);
                lemma_answer_settled(self@, found, false, true);
            }
        }
        let name = match self.include_filename() {
            Some(text) => Some(String::from_str(text)),
            None => None,
        };
        match (name, contents) {
            (Some(name), Some(bytes)) => self.include_supply(name.as_str(), bytes),
            _ => self.include_reject(),
        }
    }

    /// Tells the resolver that the file it waits for cannot be had: see
    /// `ResolverView::rejected`.
    pub fn include_reject(&mut self) -> (r: Option<Token>)
        requires
            old(self).wf(),
        ensures
            final(self).wf(),
            (final(self)@, r) == old(self)@.rejected(true) || (final(self)@, r)
                == old(self)@.rejected(false),
            old(self)@.settled() ==> final(self)@.settled(),
    {
        proof {
            if self@.settled() {
                lemma_reject_settled(self@, true);
                lemma_reject_settled(self@, false);
            }
        }
        match (self.state, self.substate) {
            (IncludeResolverState::ResolveInclude, IncludeResolverSubState::ExpectSource) => {},
            _ => {
                return None;
            },
        }
        let error = Token::Error(ParseError::InstructionError(self.source(LINE_FILE_MISSING, 8)));
        self.surface(error, None)
    }

    /// Returns the next token of the stream, or `None` where the stream has
    /// ended: see `ResolverView::next_follows`.
    ///
    /// After a `StateChange` the caller is to look whether the resolver
    /// waits for a file, with `include_request`, and to answer with
    /// `include_answer`, or with `include_supply` or `include_reject`.
    ///
    /// An instruction is collected within one pull: the resolver pulls
    /// from its scanner until the instruction is complete or the
    /// collecting has ended. A resolver that is in order, see
    /// `ResolverView::settled`, stays in order, and every token it gives
    /// takes it closer to the end of its stream, see
    /// `ResolverView::distance`, unless memory ran out.
    pub fn next(&mut self) -> (r: Option<Token>)
        requires
            old(self).wf(),
        ensures
            final(self).wf(),
            old(self)@.next_follows(final(self)@, r),
            old(self)@.settled() ==> final(self)@.settled(),
            old(self)@.settled() && r is Some && r != Some(no_memory_token())
                ==> final(self)@.distance() < old(self)@.distance(),
    {
        let ghost before = self@;
        let r = self.pull();
        proof {
            if before.settled() {
                lemma_resolver_pull_settled(before, self@, r);
                if r is Some && r != Some(no_memory_token()) {
                    lemma_resolver_pull_descends(before, self@, r);
                }
            }
        }
        r
    }

    // Pulls one token: one that waits to be handed out first, else what
    // the mode of the resolver makes of what the scanner gives next.
    fn pull(&mut self) -> (r: Option<Token>)
        requires
            old(self).wf(),
        ensures
            final(self).wf(),
            old(self)@.next_follows(final(self)@, r),
    {
        proof {
            self.tokenbuf.lemma_wf_view();
        }
        if self.tokenbuf.num_tokens() > 0 {
            let r = match self.tokenbuf.popleft() {
                Ok(token) => token,
                Err(error) => Some(error),
            };
            proof {
                self.tokenbuf.lemma_wf_view();
            }
            return r;
        }
        match self.state {
            IncludeResolverState::Passthrough => self.next_passthrough(),
            IncludeResolverState::ResolveInclude => {
                if let IncludeResolverSubState::ExpectSource = self.substate {
                    self.include_reject()
                } else {
                    self.next_resolve_include()
                }
            },
            IncludeResolverState::Failed => None,
        }
    }
}

/// The bytes that were found for a file, if any.
pub open spec fn found_view(contents: Option<Vec<u8>>) -> Option<Seq<u8>> {
    match contents {
        Some(bytes) => Some(bytes@),
        None => None,
    }
}

/// The tokens to hand out behind those that were collected.
pub open spec fn extra_of(first: Option<Token>, second: Option<Token>) -> Seq<Token> {
    match first {
        Some(a) => match second {
            Some(b) => seq![a, b],
            None => seq![a],
        },
        None => match second {
            Some(b) => seq![b],
            None => Seq::empty(),
        },
    }
}

} // verus!
