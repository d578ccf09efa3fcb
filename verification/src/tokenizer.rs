//! The scanner: it walks a stack of byte regions and hands out tokens.
//!
//! Positions only ever change when a token is delivered, and every delivery
//! goes through `return_tokenized`, which holds the token's span against the
//! scanner's own position.

use vstd::prelude::*;
use vstd::slice::slice_subrange;
use crate::parse_error::{Component, ParseError, Source};
use crate::reserve::reserve_step;
use crate::span::Span;
use crate::token::Token;
use crate::tokenbody::TokenBody;
use crate::tokenbuf::TokenBuf;
use crate::tokenizer::ending::{lemma_failed_is_ready, lemma_push_adds_reach};
use crate::tokenizer::model::{
    RegionMetaView, ScannerView, StateSnap, TokenizerState, LINE_DELIVER_INDEX,
    LINE_DELIVER_OVERRUN, LINE_DELIVER_POP, LINE_DELIVER_POSITION, LINE_SRC_PUSH_NO_MEMORY,
    LINE_SRC_PUSH_TOO_LONG,
};

pub mod args;
pub mod defered;
pub mod ending;
pub mod firm;
pub mod flow;
pub mod formatter;
pub mod ident;
pub mod instruction;
pub mod iterator;
pub mod laws;
pub mod model;
pub mod plan;
pub mod sound;
pub mod tidy;
pub mod whitespace;

verus! {

/// Number of slots by which the snapshot stack grows.
pub const SNAP_STEP: usize = 8;

/// Number of slots by which the region list and its records grow.
pub const REGION_STEP: usize = 16;

/// What is kept of a pushed region for later messages: where the scanner
/// stood when the region was pushed, and under which name.
#[derive(Debug)]
pub struct SrcRegionMeta {
    index: usize,
    pos_zero: usize,
    pos_region: usize,
    pos_line: usize,
    line: usize,
    filename: Option<String>,
}

impl View for SrcRegionMeta {
    type V = RegionMetaView;

    closed spec fn view(&self) -> RegionMetaView {
        RegionMetaView {
            index: self.index,
            pos_zero: self.pos_zero,
            pos_region: self.pos_region,
            pos_line: self.pos_line,
            line: self.line,
            filename: match self.filename {
                Some(name) => Some(name@),
                None => None,
            },
        }
    }
}

/// The name a region is pushed under, as a sequence of characters.
pub open spec fn name_view(filename: Option<&str>) -> Option<Seq<char>> {
    match filename {
        Some(name) => Some(name@),
        None => None,
    }
}

/// The bytes a lookup returned, as a sequence.
pub open spec fn bytes_view(bytes: Option<&[u8]>) -> Option<Seq<u8>> {
    match bytes {
        Some(b) => Some(b@),
        None => None,
    }
}

/// The scanner.
#[derive(Debug)]
pub struct Tokenizer {
    index: usize,
    pos_zero: usize,
    pos_region: usize,
    pos_line: usize,
    pos_max: usize,
    line: usize,
    state: TokenizerState,
    // Append only: a region stays after it is exhausted, and `index` says
    // which one is being scanned.
    region: Vec<Vec<u8>>,
    tokenbuf: TokenBuf,
    cnt_openparen: u32,
    cnt_closeparen: u32,
    state_snap: Vec<StateSnap>,
    region_meta: Vec<SrcRegionMeta>,
    parse_error_prev: ParseError,
    pos_zero_prev_instr: usize,
}

impl View for Tokenizer {
    type V = ScannerView;

    closed spec fn view(&self) -> ScannerView {
        ScannerView {
            state: self.state,
            index: self.index,
            pos_zero: self.pos_zero,
            pos_region: self.pos_region,
            pos_line: self.pos_line,
            pos_max: self.pos_max,
            line: self.line,
            regions: self.region@.map_values(|r: Vec<u8>| r@),
            queue: self.tokenbuf@,
            cnt_openparen: self.cnt_openparen,
            cnt_closeparen: self.cnt_closeparen,
            snaps: self.state_snap@,
            metas: self.region_meta@.map_values(|m: SrcRegionMeta| m@),
            last_error: self.parse_error_prev,
            pos_zero_prev_instr: self.pos_zero_prev_instr,
        }
    }
}

impl Tokenizer {
    /// The queue is well-formed, the positions are inside the current
    /// region, and there is a record for every region.
    pub closed spec fn wf(&self) -> bool {
        &&& self.tokenbuf.wf()
        &&& self@.wf()
        &&& self.region_meta@.len() == self.region@.len()
    }

    /// What `wf` says of the scanner's view.
    pub proof fn lemma_wf(&self)
        requires
            self.wf(),
        ensures
            self@.wf(),
            self@.metas.len() == self@.regions.len(),
            self@.queue.pending.len() <= self@.queue.backing,
            self@.queue.pending.len() == 0 <==> self@.queue.backing == 0,
    {
        self.tokenbuf.lemma_wf_view();
    }

    /// A scanner that was given no source yet.
    pub fn new() -> (t: Self)
        ensures
            t.wf(),
            t@ == ScannerView::fresh(false),
    {
        Self::with_guard(false)
    }

    /// A scanner that was given no source yet. With `guard` set its queue
    /// refuses a token while it is partially drained.
    pub fn with_guard(guard: bool) -> (t: Self)
        ensures
            t.wf(),
            t@ == ScannerView::fresh(guard),
    {
        let t = Tokenizer {
            state: TokenizerState::ExpectInput,
            index: 0,
            pos_zero: 0,
            pos_region: 0,
            pos_line: 0,
            pos_max: 0,
            line: 0,
            tokenbuf: TokenBuf::with_guard(guard),
            region: Vec::with_capacity(SNAP_STEP),
            cnt_openparen: 0,
            cnt_closeparen: 0,
            region_meta: Vec::with_capacity(SNAP_STEP),
            state_snap: Vec::with_capacity(SNAP_STEP),
            parse_error_prev: ParseError::NoError,
            pos_zero_prev_instr: 0,
        };
        assert(t@.regions =~= Seq::empty());
        assert(t@.metas =~= Seq::empty());
        assert(t@.snaps =~= Seq::empty());
        t
    }

    /// Returns the index of the region being scanned.
    pub fn index(&self) -> (n: usize)
        ensures
            n == self@.index,
    {
        self.index
    }

    /// Returns the global byte offset of the next token to leave.
    pub fn pos_zero(&self) -> (n: usize)
        ensures
            n == self@.pos_zero,
    {
        self.pos_zero
    }

    /// Returns the offset inside the current region of the next token to
    /// leave.
    pub fn pos_region(&self) -> (n: usize)
        ensures
            n == self@.pos_region,
    {
        self.pos_region
    }

    /// Returns the offset of the next token from the start of its line.
    pub fn pos_line(&self) -> (n: usize)
        ensures
            n == self@.pos_line,
    {
        self.pos_line
    }

    /// Returns the line of the next token to leave.
    pub fn line(&self) -> (n: usize)
        ensures
            n == self@.line,
    {
        self.line
    }

    /// Returns the number of regions that were pushed.
    pub fn num_regions(&self) -> (n: usize)
        ensures
            n == self@.regions.len(),
    {
        self.region.len()
    }

    /// Returns the number of pushes that were not returned from. The first
    /// push is never returned from.
    pub fn num_snapshots(&self) -> (n: usize)
        ensures
            n == self@.snaps.len(),
    {
        self.state_snap.len()
    }

    /// Returns the name that region `index` was pushed under, if it was
    /// pushed under one.
    pub fn region_filename(&self, index: usize) -> (name: Option<&str>)
        requires
            self.wf(),
        ensures
            match name {
                Some(text) => index < self@.metas.len() && self@.metas[index as int].filename
                    == Some(text@),
                None => index >= self@.metas.len() || self@.metas[index as int].filename
                    is None,
            },
    {
        if index >= self.region_meta.len() {
            return None;
        }
        match &self.region_meta[index].filename {
            Some(name) => Some(name.as_str()),
            None => None,
        }
    }

    /// Returns the mode the scanner is in.
    pub fn state(&self) -> (state: TokenizerState)
        ensures
            state == self@.state,
    {
        self.state
    }

    /// Returns the queue of the tokens that were recognised and not yet
    /// delivered.
    pub fn tokenbuf(&self) -> (queue: &TokenBuf)
        requires
            self.wf(),
        ensures
            queue.wf(),
            queue@ == self@.queue,
    {
        &self.tokenbuf
    }

    /// Puts the scanner into the failed state and hands `return_token` back,
    /// so that no fatal token leaves without the state being set.
    pub fn fail_token(&mut self, return_token: Token) -> (r: Token)
        requires
            old(self).wf(),
        ensures
            final(self).wf(),
            final(self)@ == old(self)@.failed(),
            r == return_token,
    {
        self.state = TokenizerState::Failed;
        return_token
    }

    /// Queues `tok` for delivery. Where the queue does not take it, the
    /// scanner fails and the queue's error token comes back.
    pub fn tokenbuf_push(&mut self, tok: Token) -> (r: Result<(), Token>)
        requires
            old(self).wf(),
        ensures
            final(self).wf(),
            (final(self)@, r) == old(self)@.queued(tok, true) || (final(self)@, r)
                == old(self)@.queued(tok, false),
    {
        match self.tokenbuf.append(tok) {
            Ok(()) => {
                proof {
                    self.tokenbuf.lemma_wf_view();
                }
                Ok(())
            },
            Err(token) => Err(self.fail_token(token)),
        }
    }

    /// Takes the oldest queued token out, without delivering it.
    pub fn tokenbuf_consume(&mut self) -> (r: Result<Option<Token>, Token>)
        requires
            old(self).wf(),
        ensures
            final(self).wf(),
            final(self)@ == old(self)@.with_queue(old(self)@.queue.popped()),
            r == Ok::<Option<Token>, Token>(old(self)@.queue.front()),
    {
        let r = self.tokenbuf.popleft();
        proof {
            self.tokenbuf.lemma_wf_view();
        }
        r
    }

    /// Pushes `buf` as a new region and makes it the current one. The
    /// position in the region that was current is put on record, to be
    /// returned to when the new region is exhausted.
    ///
    /// Nothing is pushed, and the scanner fails, where memory for the
    /// records cannot be reserved or where the global offset could not count
    /// `buf.len()` bytes more. A push that the scanner takes, see
    /// `ScannerView::takes`, leaves the scanner in order, and takes the
    /// offset at which the stream ends, see `ScannerView::reach`, on by the
    /// length of the region.
    pub fn src_push(&mut self, filename: Option<&str>, buf: Vec<u8>) -> (r: Result<(), Token>)
        requires
            old(self).wf(),
        ensures
            final(self).wf(),
            (final(self)@, r) == old(self)@.pushed(name_view(filename), buf@, true) || (
            final(self)@,
            r,
            ) == old(self)@.pushed(name_view(filename), buf@, false),
            r is Ok && old(self)@.takes(buf@) ==> final(self)@.sound() && final(self)@.reach()
                == old(self)@.reach() + buf@.len(),
            r is Err && old(self)@.ready() ==> final(self)@.ready() && final(self)@.reach()
                == old(self)@.reach(),
    {
        let mut room = reserve_step(&mut self.state_snap, SNAP_STEP);
        if room {
            room = reserve_step(&mut self.region_meta, REGION_STEP);
        }
        if room {
            room = reserve_step(&mut self.region, REGION_STEP);
        }
        let ghost before = self@;
        let ghost bytes = buf@;
        let r = self.src_push_with_room(filename, buf, room);
        proof {
            if r is Ok && before.takes(bytes) {
                lemma_push_adds_reach(before, name_view(filename), bytes);
            }
            if r is Err && before.ready() {
                lemma_failed_is_ready(before);
            }
        }
        r
    }

    /// The second half of `src_push`: `room` says whether memory could be
    /// reserved for the records of the region. See `ScannerView::pushed`.
    pub fn src_push_with_room(
        &mut self,
        filename: Option<&str>,
        buf: Vec<u8>,
        room: bool,
    ) -> (r: Result<(), Token>)
        requires
            old(self).wf(),
        ensures
            final(self).wf(),
            (final(self)@, r) == old(self)@.pushed(name_view(filename), buf@, room),
    {
        if !room {
            let source = Source {
                pos_zero: self.pos_zero,
                component: Component::Tokenizer,
                line: LINE_SRC_PUSH_NO_MEMORY,
                code: 0,
            };
            return Err(self.fail_token(Token::Fatal(ParseError::NoMemory(source))));
        }
        if buf.len() > usize::MAX - self.pos_zero {
            let source = Source {
                pos_zero: self.pos_zero,
                component: Component::Tokenizer,
                line: LINE_SRC_PUSH_TOO_LONG,
                code: 0,
            };
            return Err(self.fail_token(Token::Fatal(ParseError::NoMemory(source))));
        }
        self.state_snap.push(
            StateSnap {
                pos_region: self.pos_region,
                pos_line: self.pos_line,
                line: self.line,
                index: self.index,
            },
        );
        let fname = match filename {
            Some(name) => Some(name.to_owned()),
            None => None,
        };
        self.region_meta.push(
            SrcRegionMeta {
                index: self.index,
                pos_zero: self.pos_zero,
                pos_region: self.pos_region,
                pos_line: self.pos_line,
                line: self.line,
                filename: fname,
            },
        );
        self.pos_max = buf.len();
        self.index = self.region.len();
        self.region.push(buf);
        self.pos_region = 0;
        self.pos_line = 0;
        self.line = 0;
        if let TokenizerState::ExpectInput = self.state {
            self.state = TokenizerState::ExpectDefered;
        }
        proof {
            let want = old(self)@.pushed(name_view(filename), buf@, true).0;
            assert(self@.regions =~= want.regions);
            assert(self@.metas =~= want.metas);
            assert(self@.snaps =~= want.snaps);
            assert(self.region@.len() == self.region.len());
            assert forall|i: int| 0 <= i < self@.regions.len() implies (
            #[trigger] self@.regions[i]).len() <= usize::MAX by {
                if i < old(self)@.regions.len() {
                    assert(self@.regions[i] == old(self)@.regions[i]);
                }
            }
        }
        Ok(())
    }

    /// Returns the bytes that `span` points at, or `None` where the span is
    /// not inside a pushed region or no source was pushed yet. The scanner is
    /// only read.
    pub fn span_slice<'a>(&'a self, span: &Span) -> (r: Option<&'a [u8]>)
        ensures
            bytes_view(r) == self@.slice(*span),
    {
        if let TokenizerState::ExpectInput = self.state {
            return None;
        }
        if span.index >= self.region.len() {
            return None;
        }
        let src = &self.region[span.index];
        let len = src.len();
        let end = match span.pos_region.checked_add(span.length) {
            Some(end) => end,
            None => return None,
        };
        if end > len {
            return None;
        }
        Some(slice_subrange(src.as_slice(), span.pos_region, end))
    }

    // Fails a delivery: see `ScannerView::refused`.
    fn refuse(&mut self, tok: Token, line: u32) -> (r: Option<Token>)
        requires
            old(self).wf(),
        ensures
            final(self).wf(),
            (final(self)@, r) == old(self)@.refused(tok, true, line) || (final(self)@, r)
                == old(self)@.refused(tok, false, line),
    {
        let error = ParseError::InternalError(
            Source { pos_zero: self.pos_zero, component: Component::Tokenizer, line, code: 0 },
        );
        if let ParseError::InternalError(_) = self.parse_error_prev {
        } else {
            // Failing already: if this fails too there is nothing left to do.
            let _ = self.tokenbuf.append(tok);
            proof {
                self.tokenbuf.lemma_wf_view();
            }
            self.parse_error_prev = error;
        }
        self.state = TokenizerState::Failed;
        Some(Token::Fatal(error))
    }

    // Moves the positions past `tok`: see `ScannerView::passed`.
    fn pass(&mut self, tok: Token, span: Span)
        requires
            old(self).wf(),
            tok.span() == Some(span),
            old(self)@.can_pass(tok),
        ensures
            final(self)@ == old(self)@.passed(tok),
            final(self).wf(),
    {
        self.pos_region = self.pos_region + span.length;
        self.pos_zero = self.pos_zero + span.length;
        self.pos_line = self.pos_line + span.length;
        match tok {
            Token::Real(body) | Token::Phantom(body) => match body {
                TokenBody::Newline(_) => {
                    self.line = self.line + 1;
                    self.pos_line = 0;
                },
                TokenBody::Include(s) => {
                    // A scanner that failed stays failed, and one without
                    // source has nowhere to look for arguments.
                    if let TokenizerState::ExpectDefered = self.state {
                        self.state = TokenizerState::ExpectInstructionClose;
                    }
                    self.cnt_openparen = 0;
                    self.cnt_closeparen = 0;
                    self.pos_zero_prev_instr = s.pos_zero;
                },
                TokenBody::OpenParen(_) => {
                    self.cnt_openparen = if self.cnt_openparen == u32::MAX {
                        0
                    } else {
                        self.cnt_openparen + 1
                    };
                },
                _ => {},
            },
            _ => {},
        }
    }

    /// Delivers `tok`: the one way for a token to leave the scanner.
    ///
    /// A token with a span must start exactly where the scanner stands and
    /// end inside the current region. The scanner then moves past it; at the
    /// end of an included region it returns to the region and the position
    /// that are on record for it. A token that breaks these rules is put back
    /// into the queue, the scanner fails, and a `Fatal(InternalError)` leaves
    /// in its place. A token without a span leaves as it is.
    pub fn return_tokenized(&mut self, tok: Token) -> (r: Option<Token>)
        requires
            old(self).wf(),
        ensures
            final(self).wf(),
            (final(self)@, r) == old(self)@.delivered(tok, true) || (final(self)@, r)
                == old(self)@.delivered(tok, false),
    {
        let span = match tok.span_clone() {
            Some(span) => span,
            None => return Some(tok),
        };
        if self.index != span.index {
            return self.refuse(tok, LINE_DELIVER_INDEX);
        }
        if self.pos_region != span.pos_region || self.pos_line != span.pos_line || self.pos_zero
            != span.pos_zero || self.line != span.line {
            return self.refuse(tok, LINE_DELIVER_POSITION);
        }
        let rest = self.pos_max - self.pos_region;
        let is_newline = match tok {
            Token::Real(TokenBody::Newline(_)) | Token::Phantom(TokenBody::Newline(_)) => true,
            _ => false,
        };
        if span.length > rest {
            return self.refuse(tok, LINE_DELIVER_OVERRUN);
        }
        if is_newline && self.line >= usize::MAX - (rest - span.length) {
            return self.refuse(tok, LINE_DELIVER_OVERRUN);
        }
        if span.length == rest && self.index > 0 {
            // The token is the last of an included region.
            let n = self.state_snap.len();
            if n == 0 {
                return self.refuse(tok, LINE_DELIVER_POP);
            }
            let snap = self.state_snap[n - 1];
            if snap.index >= self.index {
                return self.refuse(tok, LINE_DELIVER_POP);
            }
            let below = self.region[snap.index].len();
            if snap.pos_line > snap.pos_region || snap.pos_region > below {
                return self.refuse(tok, LINE_DELIVER_POP);
            }
            let back = below - snap.pos_region;
            if self.pos_zero + span.length > usize::MAX - back || snap.line > usize::MAX - back {
                return self.refuse(tok, LINE_DELIVER_POP);
            }
            self.pass(tok, span);
            self.state_snap.pop();
            self.index = snap.index;
            self.pos_region = snap.pos_region;
            self.pos_line = snap.pos_line;
            self.line = snap.line;
            self.pos_max = below;
            assert(self@.snaps =~= old(self)@.passed(tok).snaps.drop_last());
        } else {
            self.pass(tok, span);
        }
        Some(tok)
    }
}

} // verus!
