//! Instructions: what the scanner makes of an `@`.
//!
//! From the `@` the scanner looks ahead to the first `(` of the region.
//! Where that is the `(` of `@include(`, the instruction, the whitespace in
//! front of the `(` and the `(` become tokens. Where the name is not joined
//! to the `@`, or a `)` comes first, the `@` is a literal one. Where no `(`
//! follows at all, the rest of the region is left for later stages.

use vstd::prelude::*;
use crate::parse_error::{Component, ParseError, Source};
use crate::span::Span;
use crate::token::Token;
use crate::tokenbody::TokenBody;
use crate::tokenbuf::{lemma_filled_concat, lemma_filled_empty};
use crate::tokenizer::Tokenizer;
use crate::tokenizer::ident::{ident_match, spells_include, Ident};
use crate::tokenizer::model::ScannerView;
use crate::tokenizer::plan::{
    lemma_part_failed, lemma_starts_with_next, lemma_starts_with_part, starts_with, ScanPlan,
};
use crate::tokenizer::whitespace::{count_newlines, lemma_lines_whole, NEWLINE};

verus! {

/// Line of this file at which a `)` between an `@` and the first `(` behind
/// it is reported.
pub const LINE_BAD_PAREN: u32 = 570;

/// Line of this file at which whitespace between an instruction and its `(`
/// is reported.
pub const LINE_UNWANTED_WHITESPACE: u32 = 680;

/// The byte that starts an instruction.
pub const AT: u8 = 0x40;

/// The byte that opens the arguments of an instruction.
pub const OPEN_PAREN: u8 = 0x28;

/// The byte that closes the arguments of an instruction.
pub const CLOSE_PAREN: u8 = 0x29;

/// Whether `b` can stand in the name of an instruction: a letter of the
/// basic Latin alphabet.
pub open spec fn is_letter(b: u8) -> bool {
    (0x41 <= b <= 0x5A) || (0x61 <= b <= 0x7A)
}

/// The offset of the first `(` of `s` at or behind `from`, or the length of
/// `s` where there is none.
pub open spec fn first_open(s: Seq<u8>, from: int) -> int
    decreases s.len() - from,
{
    if from >= s.len() {
        s.len() as int
    } else if s[from] == OPEN_PAREN {
        from
    } else {
        first_open(s, from + 1)
    }
}

/// Whether `s` holds a `)` in `[from, to)`.
pub open spec fn has_close(s: Seq<u8>, from: int, to: int) -> bool
    decreases to - from,
{
    if to <= from {
        false
    } else {
        s[to - 1] == CLOSE_PAREN || has_close(s, from, to - 1)
    }
}

/// The offset of the first letter of `s` in `[from, to)`.
pub open spec fn first_letter(s: Seq<u8>, from: int, to: int) -> Option<int>
    decreases to - from,
{
    if to <= from {
        None
    } else {
        match first_letter(s, from, to - 1) {
            Some(first) => Some(first),
            None => if is_letter(s[to - 1]) {
                Some(to - 1)
            } else {
                None
            },
        }
    }
}

/// The offset of the last letter of `s` in `[from, to)`.
pub open spec fn last_letter(s: Seq<u8>, from: int, to: int) -> Option<int>
    decreases to - from,
{
    if to <= from {
        None
    } else if is_letter(s[to - 1]) {
        Some(to - 1)
    } else {
        last_letter(s, from, to - 1)
    }
}

/// The offset behind the last newline of `s` in `[from, to)`: where the line
/// of the byte at `to` starts, if it starts in the range.
pub open spec fn line_start(s: Seq<u8>, from: int, to: int) -> Option<int>
    decreases to - from,
{
    if to <= from {
        None
    } else if s[to - 1] == NEWLINE {
        Some(to)
    } else {
        line_start(s, from, to - 1)
    }
}

/// What stands between an `@` and the first `(` behind it.
#[derive(Debug, Clone, Copy)]
pub struct Gap {
    /// Whether a `)` stands there.
    pub close: bool,
    /// The offsets of the first and the last letter.
    pub letters: Option<(usize, usize)>,
    /// The number of newlines.
    pub lines: usize,
    /// The offset behind the last newline.
    pub line_start: Option<usize>,
}

impl Gap {
    /// Whether the gap is that of `s` in `[from, to)`.
    pub open spec fn is_of(self, s: Seq<u8>, from: int, to: int) -> bool {
        &&& self.close == has_close(s, from, to)
        &&& match self.letters {
            Some((first, last)) => first_letter(s, from, to) == Some(first as int)
                && last_letter(s, from, to) == Some(last as int),
            None => first_letter(s, from, to) is None && last_letter(s, from, to) is None,
        }
        &&& self.lines == count_newlines(s, from, to)
        &&& match self.line_start {
            Some(start) => line_start(s, from, to) == Some(start as int),
            None => line_start(s, from, to) is None,
        }
    }
}

impl ScannerView {
    /// The step for an `@` at `at` that starts no instruction: the `@` is
    /// delivered as a literal one, behind the run in front of it if there is
    /// one, and `notes` follow it.
    pub open spec fn literal_plan(self, at: int, notes: Seq<Token>) -> ScanPlan {
        let token = Token::Real(TokenBody::UnescapedAt(self.span_on_line(at, 1)));
        if at > self.pos_region {
            ScanPlan::deliver(
                self,
                seq![token] + notes,
                Token::Real(
                    TokenBody::Defered(
                        self.span_on_line(self.pos_region as int, at - self.pos_region),
                    ),
                ),
            )
        } else {
            ScanPlan::deliver(self, notes, token)
        }
    }

    /// The error for a `)` between the `@` at `at` and the first `(`.
    pub open spec fn bad_paren_error(self, at: int) -> Token {
        Token::Error(
            ParseError::InstructionError(
                Source {
                    pos_zero: (self.pos_zero + (at - self.pos_region)) as usize,
                    component: Component::Tokenizer,
                    line: LINE_BAD_PAREN,
                    code: 0,
                },
            ),
        )
    }

    /// The step for a region that has no `(` behind an `@`: what is left of
    /// the region is delivered as one run.
    pub open spec fn unfinished_plan(self) -> ScanPlan {
        ScanPlan::deliver(
            self,
            Seq::empty(),
            Token::Real(TokenBody::Defered(self.span_on_line(self.pos_region as int, self.rest()))),
        )
    }

    /// The tokens for the whitespace between the name of an instruction,
    /// which ends at `ident_end`, and its `(` at `open`.
    pub open spec fn gap_whitespace(self, ident_end: int, open: int) -> Seq<Token> {
        let from = ident_end + 1;
        self.whitespace_plan(
            self.index,
            from,
            open - from,
            self.line as int,
            self.line + count_newlines(self.current(), from, open),
        ).queued
    }

    /// The warning for whitespace between the name of an instruction and
    /// its `(`, if there is any.
    pub open spec fn gap_warning(self, ident_end: int, open: int) -> Seq<Token> {
        let from = ident_end + 1;
        if open > from {
            seq![
                Token::Warning(
                    ParseError::UnwantedWhiteSpace(
                        Source {
                            pos_zero: (self.pos_zero + (from - self.pos_region)) as usize,
                            component: Component::Tokenizer,
                            line: LINE_UNWANTED_WHITESPACE,
                            code: 2,
                        },
                    ),
                ),
            ]
        } else {
            Seq::empty()
        }
    }

    /// The token for the `(` at `open` of an instruction whose name ends at
    /// `ident_end`. Its column counts from the last newline in front of it,
    /// or goes on from the scanner's where there is none.
    pub open spec fn open_token(self, ident_end: int, open: int) -> Token {
        let s = self.current();
        let from = ident_end + 1;
        let col = match line_start(s, from, open) {
            Some(start) => open - start,
            None => self.pos_line + (open - self.pos_region),
        };
        Token::Real(
            TokenBody::OpenParen(
                self.span_at(open, col, self.line + count_newlines(s, from, open), 1),
            ),
        )
    }

    /// The tokens from behind the name of an instruction, which ends at
    /// `ident_end`, to its `(` at `open`: the whitespace between the two,
    /// a warning if there is any, and the `(`.
    pub open spec fn paren_tokens(self, ident_end: int, open: int) -> Seq<Token> {
        self.gap_whitespace(ident_end, open) + self.gap_warning(ident_end, open) + seq![
            self.open_token(ident_end, open),
        ]
    }

    /// The step for `@include` at `at`, with the name's last byte at
    /// `ident_end` and the `(` at `open`. Where the scanner stands on the
    /// `@`, the instruction is delivered and the rest is queued; else the run
    /// in front of the `@` is delivered and everything is queued.
    pub open spec fn include_plan(self, at: int, ident_end: int, open: int) -> ScanPlan {
        let instruction = Token::Real(
            TokenBody::Include(self.span_on_line(at, ident_end - at + 1)),
        );
        if at > self.pos_region {
            ScanPlan::deliver(
                self,
                seq![instruction] + self.paren_tokens(ident_end, open),
                Token::Real(
                    TokenBody::Defered(
                        self.span_on_line(self.pos_region as int, at - self.pos_region),
                    ),
                ),
            )
        } else {
            ScanPlan::deliver(self, self.paren_tokens(ident_end, open), instruction)
        }
    }

    /// The step for an `@` at `at` with the first `(` behind it at `open`
    /// and no `)` between the two. Where the name of an instruction is
    /// joined to the `@`, the instruction is delivered; any other `@` is a
    /// literal one, also where a name is joined to it that is not the name
    /// of an instruction: the scan goes on behind the `@`.
    pub open spec fn correct_paren_plan(self, at: int, open: int) -> ScanPlan {
        let s = self.current();
        match first_letter(s, at + 1, open) {
            Some(first) => if first == at + 1 && spells_include(
                s,
                first,
                last_letter(s, at + 1, open)->0,
            ) {
                self.include_plan(at, last_letter(s, at + 1, open)->0, open)
            } else {
                self.literal_plan(at, Seq::empty())
            },
            None => self.literal_plan(at, Seq::empty()),
        }
    }

    /// The step for an `@` at `at`.
    pub open spec fn instruction_plan(self, at: int) -> ScanPlan {
        let s = self.current();
        let open = first_open(s, at + 1);
        if open >= s.len() {
            self.unfinished_plan()
        } else if has_close(s, at + 1, open) {
            self.literal_plan(at, seq![self.bad_paren_error(at)])
        } else {
            self.correct_paren_plan(at, open)
        }
    }
}

/// A range holds no more newlines than bytes.
pub proof fn lemma_count_newlines_bound(s: Seq<u8>, from: int, to: int)
    requires
        from <= to,
    ensures
        count_newlines(s, from, to) <= to - from,
    decreases to - from,
{
    if from < to {
        lemma_count_newlines_bound(s, from, to - 1);
    }
}

/// The letters of a range stand inside it, the first not behind the last.
pub proof fn lemma_letters(s: Seq<u8>, from: int, to: int)
    ensures
        first_letter(s, from, to) is Some <==> last_letter(s, from, to) is Some,
        first_letter(s, from, to) is Some ==> from <= first_letter(s, from, to)->0
            <= last_letter(s, from, to)->0 < to,
    decreases to - from,
{
    if from < to {
        lemma_letters(s, from, to - 1);
    }
}

/// The line of the byte behind a range starts inside the range, if at all.
pub proof fn lemma_line_start(s: Seq<u8>, from: int, to: int)
    ensures
        line_start(s, from, to) is Some <==> count_newlines(s, from, to) > 0,
        line_start(s, from, to) is Some ==> from < line_start(s, from, to)->0 <= to,
    decreases to - from,
{
    if from < to {
        lemma_line_start(s, from, to - 1);
    }
}

/// Returns the offset of the first `(` of `src` at or behind `from`, or the
/// length of `src`.
pub fn find_open(src: &[u8], from: usize) -> (open: usize)
    requires
        from <= src@.len(),
    ensures
        open == first_open(src@, from as int),
        from <= open <= src@.len(),
{
    let mut p = from;
    while p < src.len()
        invariant
            from <= p <= src@.len(),
            first_open(src@, from as int) == first_open(src@, p as int),
        decreases src@.len() - p,
    {
        if src[p] == OPEN_PAREN {
            return p;
        }
        p = p + 1;
    }
    p
}

/// Looks at the bytes of `src` in `[from, to)`: is there a `)`, where are
/// the letters, how many newlines are there and where does the last line
/// start.
pub fn scan_gap(src: &[u8], from: usize, to: usize) -> (gap: Gap)
    requires
        from <= to <= src@.len(),
    ensures
        gap.is_of(src@, from as int, to as int),
{
    let mut gap = Gap { close: false, letters: None, lines: 0, line_start: None };
    let mut p = from;
    while p < to
        invariant
            from <= p <= to <= src@.len(),
            gap.is_of(src@, from as int, p as int),
        decreases to - p,
    {
        let byte = src[p];
        proof {
            lemma_count_newlines_bound(src@, from as int, p as int);
        }
        if byte == NEWLINE {
            gap.lines = gap.lines + 1;
            gap.line_start = Some(p + 1);
        } else if byte == CLOSE_PAREN {
            gap.close = true;
        } else if (0x41 <= byte && byte <= 0x5A) || (0x61 <= byte && byte <= 0x7A) {
            gap.letters = match gap.letters {
                Some((first, _)) => Some((first, p)),
                None => Some((p, p)),
            };
        }
        p = p + 1;
    }
    gap
}

/// The whitespace between the name of an instruction and its `(` is split
/// into tokens without an error, whatever the queue holds.
pub proof fn lemma_gap_whole(v: ScannerView, now: ScannerView, ident_end: int, open: int)
    requires
        now == v.with_queue(now.queue),
        v.pos_region <= ident_end < open,
        v.index < v.regions.len(),
    ensures
        now.whitespace_plan(
            v.index,
            ident_end + 1,
            open - ident_end - 1,
            v.line as int,
            v.line + count_newlines(v.current(), ident_end + 1, open),
        ) == (ScanPlan { queued: v.gap_whitespace(ident_end, open), ..ScanPlan::idle(now) }),
{
    let from = ident_end + 1;
    lemma_lines_whole(
        v.current(),
        v.index,
        v.base(),
        from,
        open,
        v.pos_line + (from - v.pos_region),
        v.line as int,
    );
}

/// The notes of a literal `@`, as a sequence.
pub open spec fn notes_of(note: Option<Token>) -> Seq<Token> {
    match note {
        Some(token) => seq![token],
        None => Seq::empty(),
    }
}

impl Tokenizer {
    /// Delivers what is left of the current region as one run: the step for
    /// an `@` that no `(` follows.
    pub fn instruction_tokenize_unfinished(&mut self) -> (r: Option<Token>)
        requires
            old(self).wf(),
        ensures
            final(self).wf(),
            old(self)@.follows(old(self)@.unfinished_plan(), final(self)@, r),
    {
        proof {
            lemma_filled_empty(self@.queue);
        }
        self.return_tokenized(
            Token::Real(
                TokenBody::Defered(
                    Span {
                        index: self.index,
                        pos_region: self.pos_region,
                        pos_zero: self.pos_zero,
                        pos_line: self.pos_line,
                        line: self.line,
                        length: self.pos_max - self.pos_region,
                    },
                ),
            ),
        )
    }

    // Delivers the `@` at `pos_at` as a literal one: see `literal_plan`.
    fn literal_at(&mut self, pos_at: usize, note: Option<Token>) -> (r: Option<Token>)
        requires
            old(self).wf(),
            old(self)@.pos_region <= pos_at < old(self)@.pos_max,
        ensures
            final(self).wf(),
            old(self)@.follows(
                old(self)@.literal_plan(pos_at as int, notes_of(note)),
                final(self)@,
                r,
            ),
    {
        let ghost v = self@;
        let ghost plan = v.literal_plan(pos_at as int, notes_of(note));
        let ghost mut done = Seq::<Token>::empty();
        proof {
            lemma_filled_empty(v.queue);
        }
        let ahead = pos_at - self.pos_region;
        let at_token = Token::Real(
            TokenBody::UnescapedAt(
                Span {
                    index: self.index,
                    pos_region: pos_at,
                    pos_zero: self.pos_zero + ahead,
                    pos_line: self.pos_line + ahead,
                    line: self.line,
                    length: 1,
                },
            ),
        );
        if ahead > 0 {
            assert(plan.queued.take(1) =~= done.push(at_token));
            if let Some(error) = self.enqueue(at_token, Ghost(v), Ghost(plan), Ghost(done)) {
                return Some(error);
            }
            proof {
                done = done.push(at_token);
            }
        }
        if let Some(token) = note {
            assert(plan.queued.take(done.len() as int + 1) =~= done.push(token));
            if let Some(error) = self.enqueue(token, Ghost(v), Ghost(plan), Ghost(done)) {
                return Some(error);
            }
            proof {
                done = done.push(token);
            }
        }
        assert(plan.queued =~= done);
        if ahead > 0 {
            self.return_tokenized(
                Token::Real(
                    TokenBody::Defered(
                        Span {
                            index: self.index,
                            pos_region: self.pos_region,
                            pos_zero: self.pos_zero,
                            pos_line: self.pos_line,
                            line: self.line,
                            length: ahead,
                        },
                    ),
                ),
            )
        } else {
            self.return_tokenized(at_token)
        }
    }

    /// The step for an `@` at `pos_at` with a `)` between it and the first
    /// `(`: the `@` is a literal one, and an `Error(InstructionError)`
    /// follows it.
    pub fn instruction_tokenize_bad_paren(&mut self, pos_at: usize) -> (r: Option<Token>)
        requires
            old(self).wf(),
            old(self)@.pos_region <= pos_at < old(self)@.pos_max,
        ensures
            final(self).wf(),
            old(self)@.follows(
                old(self)@.literal_plan(
                    pos_at as int,
                    seq![old(self)@.bad_paren_error(pos_at as int)],
                ),
                final(self)@,
                r,
            ),
    {
        let note = Token::Error(
            ParseError::InstructionError(
                Source {
                    pos_zero: self.pos_zero + (pos_at - self.pos_region),
                    component: Component::Tokenizer,
                    line: LINE_BAD_PAREN,
                    code: 0,
                },
            ),
        );
        self.literal_at(pos_at, Some(note))
    }

    /// The step for an `@` at `pos_at` whose name, if it has one, is not
    /// joined to it: the `@` is a literal one.
    pub fn instruction_tokenize_whitespace_before_instruction(&mut self, pos_at: usize) -> (r:
        Option<Token>)
        requires
            old(self).wf(),
            old(self)@.pos_region <= pos_at < old(self)@.pos_max,
        ensures
            final(self).wf(),
            old(self)@.follows(
                old(self)@.literal_plan(pos_at as int, Seq::empty()),
                final(self)@,
                r,
            ),
    {
        self.literal_at(pos_at, None)
    }

    // Queues the tokens from behind the name of an instruction to its `(`:
    // see `paren_tokens`. `done` tokens of `plan` are queued already.
    fn instruction_queue_paren(
        &mut self,
        ident_end: usize,
        open: usize,
        gap: Gap,
        Ghost(v): Ghost<ScannerView>,
        Ghost(plan): Ghost<ScanPlan>,
        Ghost(done): Ghost<Seq<Token>>,
    ) -> (r: Option<Token>)
        requires
            old(self).wf(),
            old(self)@ == v.with_queue(v.queue.filled(done)),
            done.len() > 0 ==> v.queue.accepts(),
            v.pos_region <= ident_end < open < v.pos_max,
            gap.lines == count_newlines(v.current(), ident_end + 1, open as int),
            match gap.line_start {
                Some(start) => line_start(v.current(), ident_end + 1, open as int) == Some(
                    start as int,
                ),
                None => line_start(v.current(), ident_end + 1, open as int) is None,
            },
            starts_with(plan.queued, done + v.paren_tokens(ident_end as int, open as int)),
        ensures
            final(self).wf(),
            r is None ==> final(self)@ == v.with_queue(
                v.queue.filled(done + v.paren_tokens(ident_end as int, open as int)),
            ) && v.queue.accepts(),
            r is Some ==> v.follows(plan, final(self)@, r),
    {
        let ghost s = v.current();
        let ghost space = v.gap_whitespace(ident_end as int, open as int);
        let ghost warn = v.gap_warning(ident_end as int, open as int);
        let ghost paren_token = v.open_token(ident_end as int, open as int);
        let ghost now = self@;
        let from = ident_end + 1;
        let len_whitespace = open - from;
        proof {
            lemma_count_newlines_bound(s, from as int, open as int);
            lemma_line_start(s, from as int, open as int);
            assert(done + v.paren_tokens(ident_end as int, open as int) =~= (done + space) + (warn
                + seq![paren_token]));
            lemma_starts_with_part(plan.queued, done + space, warn + seq![paren_token]);
        }
        let line_open = self.line + gap.lines;
        let ghost part = now.whitespace_plan(
            v.index,
            from as int,
            len_whitespace as int,
            v.line as int,
            line_open as int,
        );
        proof {
            lemma_gap_whole(v, now, ident_end as int, open as int);
        }
        if let Some(error) = self.whitespace_into_tokenbuf(
            self.index,
            from,
            len_whitespace,
            self.line,
            line_open,
        ) {
            proof {
                lemma_part_failed(v, done, part, plan, self@, error);
            }
            return Some(error);
        }
        let ghost mut queued = done + space;
        proof {
            lemma_filled_concat(v.queue, done, space);
            if space.len() > 0 && done.len() == 0 {
                assert(done =~= Seq::empty());
                assert(now == v);
            }
            assert(self@ == now.loaded(part));
            assert(self@ == v.with_queue(v.queue.filled(queued)));
        }
        if len_whitespace > 0 {
            let warning = Token::Warning(
                ParseError::UnwantedWhiteSpace(
                    Source {
                        pos_zero: self.pos_zero + (from - self.pos_region),
                        component: Component::Tokenizer,
                        line: LINE_UNWANTED_WHITESPACE,
                        code: 2,
                    },
                ),
            );
            proof {
                assert(warn[0] == warning);
                lemma_starts_with_next(plan.queued, queued, warn + seq![paren_token]);
            }
            if let Some(error) = self.enqueue(warning, Ghost(v), Ghost(plan), Ghost(queued)) {
                return Some(error);
            }
            proof {
                assert(queued.push(warning) =~= queued + warn);
                queued = queued.push(warning);
            }
        } else {
            assert(queued =~= queued + warn);
        }
        let col = match gap.line_start {
            Some(start) => open - start,
            None => self.pos_line + (open - self.pos_region),
        };
        let paren = Token::Real(
            TokenBody::OpenParen(
                Span {
                    index: self.index,
                    pos_region: open,
                    pos_zero: self.pos_zero + (open - self.pos_region),
                    pos_line: col,
                    line: line_open,
                    length: 1,
                },
            ),
        );
        proof {
            assert(paren == paren_token);
            assert(done + v.paren_tokens(ident_end as int, open as int) =~= queued + seq![
                paren_token,
            ]);
            lemma_starts_with_next(plan.queued, queued, seq![paren_token]);
            assert(queued.push(paren) =~= done + v.paren_tokens(ident_end as int, open as int));
        }
        if let Some(error) = self.enqueue(paren, Ghost(v), Ghost(plan), Ghost(queued)) {
            return Some(error);
        }
        None
    }

    /// The step for `@include` at `pos_at` where a run stands between the
    /// scanner and the `@`: the instruction, the whitespace behind it and
    /// the `(` at `open` are queued, and the run is delivered.
    pub fn instruction_tokenize_correct_paren_defered(
        &mut self,
        pos_at: usize,
        ident_end: usize,
        open: usize,
        gap: Gap,
    ) -> (r: Option<Token>)
        requires
            old(self).wf(),
            old(self)@.pos_region < pos_at <= ident_end < open < old(self)@.pos_max,
            gap.is_of(old(self)@.current(), ident_end + 1, open as int),
        ensures
            final(self).wf(),
            old(self)@.follows(
                old(self)@.include_plan(pos_at as int, ident_end as int, open as int),
                final(self)@,
                r,
            ),
    {
        let ghost v = self@;
        let ghost plan = v.include_plan(pos_at as int, ident_end as int, open as int);
        let ghost tokens = v.paren_tokens(ident_end as int, open as int);
        proof {
            lemma_filled_empty(v.queue);
        }
        let ahead = pos_at - self.pos_region;
        let instruction = Token::Real(
            TokenBody::Include(
                Span {
                    index: self.index,
                    pos_region: pos_at,
                    pos_zero: self.pos_zero + ahead,
                    pos_line: self.pos_line + ahead,
                    line: self.line,
                    length: ident_end - pos_at + 1,
                },
            ),
        );
        assert(plan.queued.take(1) =~= Seq::<Token>::empty().push(instruction));
        if let Some(error) = self.enqueue(instruction, Ghost(v), Ghost(plan), Ghost(Seq::empty())) {
            return Some(error);
        }
        let ghost done = Seq::<Token>::empty().push(instruction);
        assert(plan.queued =~= done + tokens);
        assert(plan.queued.take((done + tokens).len() as int) =~= done + tokens);
        if let Some(error) = self.instruction_queue_paren(
            ident_end,
            open,
            gap,
            Ghost(v),
            Ghost(plan),
            Ghost(done),
        ) {
            return Some(error);
        }
        self.return_tokenized(
            Token::Real(
                TokenBody::Defered(
                    Span {
                        index: self.index,
                        pos_region: self.pos_region,
                        pos_zero: self.pos_zero,
                        pos_line: self.pos_line,
                        line: self.line,
                        length: ahead,
                    },
                ),
            ),
        )
    }

    /// The step for `@include` where the scanner stands on the `@`: the
    /// whitespace behind the instruction and the `(` at `open` are queued,
    /// and the instruction is delivered.
    pub fn instruction_tokenize_correct_paren_now(
        &mut self,
        ident_end: usize,
        open: usize,
        gap: Gap,
    ) -> (r: Option<Token>)
        requires
            old(self).wf(),
            old(self)@.pos_region <= ident_end < open < old(self)@.pos_max,
            gap.is_of(old(self)@.current(), ident_end + 1, open as int),
        ensures
            final(self).wf(),
            old(self)@.follows(
                old(self)@.include_plan(
                    old(self)@.pos_region as int,
                    ident_end as int,
                    open as int,
                ),
                final(self)@,
                r,
            ),
    {
        let ghost v = self@;
        let ghost plan = v.include_plan(v.pos_region as int, ident_end as int, open as int);
        let ghost tokens = v.paren_tokens(ident_end as int, open as int);
        proof {
            lemma_filled_empty(v.queue);
            assert(Seq::<Token>::empty() + tokens =~= tokens);
            assert(plan.queued.take(tokens.len() as int) =~= tokens);
        }
        if let Some(error) = self.instruction_queue_paren(
            ident_end,
            open,
            gap,
            Ghost(v),
            Ghost(plan),
            Ghost(Seq::empty()),
        ) {
            return Some(error);
        }
        self.return_tokenized(
            Token::Real(
                TokenBody::Include(
                    Span {
                        index: self.index,
                        pos_region: self.pos_region,
                        pos_zero: self.pos_zero,
                        pos_line: self.pos_line,
                        line: self.line,
                        length: ident_end - self.pos_region + 1,
                    },
                ),
            ),
        )
    }

    /// The step for an `@` at `pos_at` with the first `(` behind it at
    /// `open` and no `)` between the two; `gap` says what stands between
    /// them. A name joined to the `@` is matched against the names of the
    /// instructions; where it is none of them, the `@` is a literal one,
    /// as any other `@` is.
    pub fn instruction_tokenize_correct_paren(
        &mut self,
        pos_at: usize,
        open: usize,
        gap: Gap,
    ) -> (r: Option<Token>)
        requires
            old(self).wf(),
            old(self)@.pos_region <= pos_at < open < old(self)@.pos_max,
            gap.is_of(old(self)@.current(), pos_at + 1, open as int),
        ensures
            final(self).wf(),
            old(self)@.follows(
                old(self)@.correct_paren_plan(pos_at as int, open as int),
                final(self)@,
                r,
            ),
    {
        proof {
            lemma_letters(self@.current(), pos_at + 1, open as int);
            lemma_filled_empty(self@.queue);
        }
        match gap.letters {
            Some((first, last)) => {
                if first == pos_at + 1 {
                    match ident_match(self.region[self.index].as_slice(), first, last) {
                        Ident::Include(_, ident_end) => {
                            let tail = scan_gap(
                                self.region[self.index].as_slice(),
                                ident_end + 1,
                                open,
                            );
                            if pos_at > self.pos_region {
                                self.instruction_tokenize_correct_paren_defered(
                                    pos_at,
                                    ident_end,
                                    open,
                                    tail,
                                )
                            } else {
                                self.instruction_tokenize_correct_paren_now(ident_end, open, tail)
                            }
                        },
                        Ident::Unknown => {
                            self.instruction_tokenize_whitespace_before_instruction(pos_at)
                        },
                    }
                } else {
                    self.instruction_tokenize_whitespace_before_instruction(pos_at)
                }
            },
            None => self.instruction_tokenize_whitespace_before_instruction(pos_at),
        }
    }

    /// The step for an `@` at `pos_at` of the current region, at or behind
    /// the scanner's position.
    ///
    /// The scanner looks ahead to the first `(`. Without one, what is left
    /// of the region is delivered as one run. With a `)` in front of it the
    /// `@` is a literal one and an error follows it. Else see
    /// `instruction_tokenize_correct_paren`.
    pub fn instruction_tokenize(&mut self, pos_at: usize) -> (r: Option<Token>)
        requires
            old(self).wf(),
            old(self)@.pos_region <= pos_at < old(self)@.pos_max,
        ensures
            final(self).wf(),
            old(self)@.follows(old(self)@.instruction_plan(pos_at as int), final(self)@, r),
    {
        let open = find_open(self.region[self.index].as_slice(), pos_at + 1);
        if open >= self.pos_max {
            return self.instruction_tokenize_unfinished();
        }
        let gap = scan_gap(self.region[self.index].as_slice(), pos_at + 1, open);
        if gap.close {
            return self.instruction_tokenize_bad_paren(pos_at);
        }
        self.instruction_tokenize_correct_paren(pos_at, open, gap)
    }
}

} // verus!
