//! The ordinary scan: runs of bytes that are left for later stages, cut at
//! newlines and at `@`.

use vstd::prelude::*;
use crate::parse_error::{Component, ParseError, Source};
use crate::span::Span;
use crate::token::Token;
use crate::tokenbody::TokenBody;
use crate::tokenbuf::lemma_filled_empty;
use crate::tokenizer::Tokenizer;
use crate::tokenizer::instruction::AT;
use crate::tokenizer::model::{ScannerView, TokenizerState};
use crate::tokenizer::plan::ScanPlan;
use crate::tokenizer::whitespace::NEWLINE;

verus! {

/// The offset of the first newline or `@` of `s` at or behind `from`, or the
/// length of `s` where there is none.
pub open spec fn first_break(s: Seq<u8>, from: int) -> int
    decreases s.len() - from,
{
    if from >= s.len() {
        s.len() as int
    } else if s[from] == NEWLINE || s[from] == AT {
        from
    } else {
        first_break(s, from + 1)
    }
}

/// Line of this file at which the end of an included region without a
/// snapshot that leads back is reported.
pub const LINE_REGION_END: u32 = 193;

impl ScannerView {
    /// Whether `after` and `out` are an outcome of a step of the ordinary
    /// scan. The scanner first returns from the included regions that it
    /// stands at the end of, see `unwound`; then it does the step that
    /// `defered_plan` says, from where it stands then.
    pub open spec fn defered_follows(self, after: ScannerView, out: Option<Token>) -> bool {
        let there = self.unwound();
        if there.exhausted() {
            (after, out) == there.stranded(LINE_REGION_END)
        } else {
            there.follows(there.defered_plan(), after, out)
        }
    }

    /// The step of the ordinary scan, for a scanner that does not stand at
    /// the end of an included region.
    ///
    /// At the end of the first region nothing is delivered. Else the scanner looks
    /// for the first newline or `@`. Without one, what is left of the region
    /// is delivered as one run. A newline is delivered behind the run in
    /// front of it, or by itself where no run is in front of it. For an `@`
    /// see `instruction_plan`.
    pub open spec fn defered_plan(self) -> ScanPlan {
        let s = self.current();
        let pos = self.pos_region as int;
        let stop = first_break(s, pos);
        if pos >= s.len() {
            ScanPlan::idle(self)
        } else if stop >= s.len() {
            ScanPlan::deliver(
                self,
                Seq::empty(),
                Token::Real(TokenBody::Defered(self.span_on_line(pos, s.len() - pos))),
            )
        } else if s[stop] == NEWLINE {
            if stop == pos {
                ScanPlan::deliver(
                    self,
                    Seq::empty(),
                    Token::Real(TokenBody::Newline(self.span_on_line(pos, 1))),
                )
            } else {
                ScanPlan::deliver(
                    self,
                    seq![Token::Real(TokenBody::Newline(self.span_on_line(stop, 1)))],
                    Token::Real(TokenBody::Defered(self.span_on_line(pos, stop - pos))),
                )
            }
        } else {
            self.instruction_plan(stop)
        }
    }
}

/// Returns the offset of the first newline or `@` of `src` at or behind
/// `from`, or the length of `src`.
pub fn find_break(src: &[u8], from: usize) -> (stop: usize)
    requires
        from <= src@.len(),
    ensures
        stop == first_break(src@, from as int),
        from <= stop <= src@.len(),
{
    let mut p = from;
    while p < src.len()
        invariant
            from <= p <= src@.len(),
            first_break(src@, from as int) == first_break(src@, p as int),
        decreases src@.len() - p,
    {
        if src[p] == NEWLINE || src[p] == AT {
            return p;
        }
        p = p + 1;
    }
    p
}

impl Tokenizer {
    /// One step of the ordinary scan: see `ScannerView::defered_follows`.
    /// The end of a region ends the stream only where it is the first
    /// region: from the end of any other the scanner returns to where that
    /// region was pushed, and scans on.
    pub fn defered_tokenize(&mut self) -> (r: Option<Token>)
        requires
            old(self).wf(),
        ensures
            final(self).wf(),
            old(self)@.defered_follows(final(self)@, r),
    {
        if let Some(error) = self.regions_return() {
            return Some(error);
        }
        self.defered_scan()
    }

    /// Returns from the included regions that the scanner stands at the end
    /// of: see `ScannerView::unwound`. Gives back the error where a region
    /// has no snapshot that leads back; the scanner has failed then.
    pub fn regions_return(&mut self) -> (r: Option<Token>)
        requires
            old(self).wf(),
        ensures
            final(self).wf(),
            match r {
                None => final(self)@ == old(self)@.unwound() && !final(self)@.exhausted(),
                Some(_) => old(self)@.unwound().exhausted() && (final(self)@, r) == old(
                    self,
                )@.unwound().stranded(LINE_REGION_END),
            },
    {
        while self.pos_region >= self.pos_max && self.index > 0
            invariant
                self.wf(),
                self@.unwound() == old(self)@.unwound(),
            decreases self.index,
        {
            let n = self.state_snap.len();
            let mut leads_back = false;
            if n > 0 {
                let snap = self.state_snap[n - 1];
                if snap.index < self.index {
                    let below = self.region[snap.index].len();
                    if snap.pos_line <= snap.pos_region && snap.pos_region <= below {
                        let back = below - snap.pos_region;
                        if self.pos_zero <= usize::MAX - back && snap.line <= usize::MAX - back {
                            leads_back = true;
                        }
                    }
                }
            }
            if !leads_back {
                return Some(self.strand());
            }
            let ghost before = self@;
            let snap = self.state_snap[n - 1];
            self.state_snap.pop();
            self.index = snap.index;
            self.pos_region = snap.pos_region;
            self.pos_line = snap.pos_line;
            self.line = snap.line;
            self.pos_max = self.region[snap.index].len();
            proof {
                assert(self@.snaps =~= before.snaps.drop_last());
                assert(self@ == before.returned());
            }
        }
        None
    }

    // Fails the scanner at the end of a region that nothing leads back
    // from: see `ScannerView::stranded`.
    fn strand(&mut self) -> (r: Token)
        requires
            old(self).wf(),
        ensures
            final(self).wf(),
            (final(self)@, Some(r)) == old(self)@.stranded(LINE_REGION_END),
    {
        let error = ParseError::InternalError(
            Source {
                pos_zero: self.pos_zero,
                component: Component::Tokenizer,
                line: LINE_REGION_END,
                code: 0,
            },
        );
        if let ParseError::InternalError(_) = self.parse_error_prev {
        } else {
            self.parse_error_prev = error;
        }
        self.state = TokenizerState::Failed;
        Token::Fatal(error)
    }

    // The step of the ordinary scan from where the scanner stands: see
    // `ScannerView::defered_plan`.
    fn defered_scan(&mut self) -> (r: Option<Token>)
        requires
            old(self).wf(),
        ensures
            final(self).wf(),
            old(self)@.follows(old(self)@.defered_plan(), final(self)@, r),
    {
        let ghost v = self@;
        let ghost plan = v.defered_plan();
        proof {
            lemma_filled_empty(v.queue);
        }
        if self.pos_region >= self.pos_max {
            return None;
        }
        let stop = find_break(self.region[self.index].as_slice(), self.pos_region);
        if stop >= self.pos_max {
            return self.return_tokenized(
                Token::Real(
                    TokenBody::Defered(
                        Span {
                            index: self.index,
                            pos_region: self.pos_region,
                            pos_zero: self.pos_zero,
                            pos_line: self.pos_line,
                            line: self.line,
                            length: self.pos_max - self.pos_region,
                        },
                    ),
                ),
            );
        }
        if self.region[self.index][stop] != NEWLINE {
            return self.instruction_tokenize(stop);
        }
        let len_defered = stop - self.pos_region;
        let newline = Token::Real(
            TokenBody::Newline(
                Span {
                    index: self.index,
                    pos_region: stop,
                    pos_zero: self.pos_zero + len_defered,
                    pos_line: self.pos_line + len_defered,
                    line: self.line,
                    length: 1,
                },
            ),
        );
        if len_defered == 0 {
            return self.return_tokenized(newline);
        }
        assert(plan.queued.take(1) =~= Seq::<Token>::empty().push(newline));
        if let Some(error) = self.enqueue(newline, Ghost(v), Ghost(plan), Ghost(Seq::empty())) {
            return Some(error);
        }
        assert(plan.queued =~= Seq::<Token>::empty().push(newline));
        self.return_tokenized(
            Token::Real(
                TokenBody::Defered(
                    Span {
                        index: self.index,
                        pos_region: self.pos_region,
                        pos_zero: self.pos_zero,
                        pos_line: self.pos_line,
                        line: self.line,
                        length: len_defered,
                    },
                ),
            ),
        )
    }
}

/// A step of the ordinary scan leaves the mode of the scanner as it is.
pub proof fn lemma_defered_state(v: ScannerView)
    ensures
        v.defered_plan().state == v.state,
{
}

} // verus!
