//! Whitespace between an instruction and its opening parenthesis, split into
//! whitespace and newline tokens.
//!
//! Nothing here moves the scanner: positions change when a token is
//! delivered. The functions only queue tokens for the bytes they are given,
//! which they take for whitespace without looking.

use vstd::prelude::*;
use crate::parse_error::{Component, ParseError, Source};
use crate::span::Span;
use crate::token::Token;
use crate::tokenbody::TokenBody;
use crate::tokenbuf::{lemma_filled_concat, lemma_filled_empty, lemma_filled_push};
use crate::tokenizer::Tokenizer;
use crate::tokenizer::model::{internal_error, ScannerView, TokenizerState};
use crate::tokenizer::plan::{lemma_part_failed, lemma_push_failed, starts_with, Ending, ScanPlan};

verus! {

/// Line of this file at which a line of whitespace without a newline is
/// reported.
pub const LINE_WS_NEWLINE: u32 = 335;

/// The byte that ends a line.
pub const NEWLINE: u8 = 0x0A;

/// The offset of the first newline of `s` in `[from, to)`, or `to` where
/// there is none.
pub open spec fn first_newline(s: Seq<u8>, from: int, to: int) -> int
    decreases to - from,
{
    if from >= to {
        to
    } else if s[from] == NEWLINE {
        from
    } else {
        first_newline(s, from + 1, to)
    }
}

/// The number of newlines of `s` in `[from, to)`.
pub open spec fn count_newlines(s: Seq<u8>, from: int, to: int) -> nat
    decreases to - from,
{
    if from >= to {
        0
    } else if s[to - 1] == NEWLINE {
        count_newlines(s, from, to - 1) + 1
    } else {
        count_newlines(s, from, to - 1)
    }
}

/// A span of the region `index`, where `base` is the global offset of the
/// region's first byte as the scanner counts it now.
pub open spec fn span_of(index: usize, base: int, pos: int, col: int, line: int, len: int) -> Span {
    Span {
        index,
        pos_region: pos as usize,
        pos_line: col as usize,
        pos_zero: (base + pos) as usize,
        line: line as usize,
        length: len as usize,
    }
}

/// The tokens for one line of whitespace that starts at `pos`, in column
/// `col` of line `line`, and ends in a newline at `nl`: the whitespace, if
/// there is any, and the newline. Whitespace from column zero on is all its
/// line holds; other whitespace trails what stands before it.
pub open spec fn line_tokens(
    index: usize,
    base: int,
    pos: int,
    nl: int,
    col: int,
    line: int,
) -> Seq<Token> {
    let newline = Token::Real(
        TokenBody::Newline(span_of(index, base, nl, col + (nl - pos), line, 1)),
    );
    if nl > pos {
        let span = span_of(index, base, pos, col, line, nl - pos);
        if col == 0 {
            seq![Token::Real(TokenBody::WhiteSpaceWhole(span)), newline]
        } else {
            seq![Token::Real(TokenBody::WhiteSpaceTr(span)), newline]
        }
    } else {
        seq![newline]
    }
}

/// The tokens for whitespace without a newline that starts at `pos` and
/// ends before `end`: none for no bytes; else whitespace that leads to what
/// follows it in the region, or plain whitespace at the region's end.
pub open spec fn last_tokens(
    s: Seq<u8>,
    index: usize,
    base: int,
    pos: int,
    end: int,
    col: int,
    line: int,
) -> Seq<Token> {
    if pos < end {
        let span = span_of(index, base, pos, col, line, end - pos);
        if s.len() > end {
            seq![Token::Real(TokenBody::WhiteSpaceLd(span))]
        } else {
            seq![Token::Real(TokenBody::WhiteSpace(span))]
        }
    } else {
        Seq::empty()
    }
}

/// The tokens for the whitespace of `s` in `[pos, end)`, which is said to
/// hold `lines` newlines, and whether it holds that many.
pub open spec fn lines_tokens(
    s: Seq<u8>,
    index: usize,
    base: int,
    pos: int,
    end: int,
    col: int,
    line: int,
    lines: nat,
) -> (Seq<Token>, bool)
    decreases lines,
{
    if lines == 0 {
        (last_tokens(s, index, base, pos, end, col, line), true)
    } else {
        let nl = first_newline(s, pos, end);
        if nl >= end {
            (Seq::empty(), false)
        } else {
            let rest = lines_tokens(s, index, base, nl + 1, end, 0, line + 1, (lines - 1) as nat);
            (line_tokens(index, base, pos, nl, col, line) + rest.0, rest.1)
        }
    }
}

impl ScannerView {
    /// The global offset of the first byte of the current region, as the
    /// scanner counts it now.
    pub open spec fn base(self) -> int {
        self.pos_zero - self.pos_region
    }

    /// The step that queues `tokens`. It fails the scanner where `whole` is
    /// not set: the bytes did not hold the newlines they were said to hold.
    pub open spec fn whitespace_step(self, tokens: Seq<Token>, whole: bool) -> ScanPlan {
        if whole {
            ScanPlan { queued: tokens, ..ScanPlan::idle(self) }
        } else {
            ScanPlan {
                queued: tokens,
                state: TokenizerState::Failed,
                ending: Ending::Deliver(
                    Token::Fatal(internal_error(self.pos_zero, LINE_WS_NEWLINE)),
                ),
                ..ScanPlan::idle(self)
            }
        }
    }

    /// What `tokenizer_line_tokenize` does.
    pub open spec fn line_plan(
        self,
        index: usize,
        pos: int,
        end: int,
        col: int,
        line: int,
    ) -> ScanPlan {
        let nl = first_newline(self.regions[index as int], pos, end);
        if nl >= end {
            self.whitespace_step(Seq::empty(), false)
        } else {
            self.whitespace_step(line_tokens(index, self.base(), pos, nl, col, line), true)
        }
    }

    /// What `tokenizer_whitespace_tokenize` does.
    pub open spec fn lines_plan(
        self,
        index: usize,
        pos: int,
        end: int,
        col: int,
        line: int,
        lines: nat,
    ) -> ScanPlan {
        let found = lines_tokens(
            self.regions[index as int],
            index,
            self.base(),
            pos,
            end,
            col,
            line,
            lines,
        );
        self.whitespace_step(found.0, found.1)
    }

    /// What `whitespace_into_tokenbuf` does: nothing for no bytes; one
    /// whitespace token where the bytes are said to hold no newline; else
    /// tokens line by line.
    pub open spec fn whitespace_plan(
        self,
        index: usize,
        pos: int,
        len: int,
        line_start: int,
        line_end: int,
    ) -> ScanPlan {
        let ahead = pos - self.pos_region;
        if len < 1 {
            ScanPlan::idle(self)
        } else if line_start == line_end {
            self.whitespace_step(
                seq![
                    Token::Real(
                        TokenBody::WhiteSpace(
                            span_of(
                                index,
                                self.base(),
                                pos,
                                self.pos_line + ahead,
                                line_start,
                                len,
                            ),
                        ),
                    ),
                ],
                true,
            )
        } else {
            self.lines_plan(
                index,
                pos,
                pos + len,
                self.pos_line + ahead,
                line_start,
                (line_end - line_start) as nat,
            )
        }
    }

    /// Whether the bytes `[pos, end)` of region `index` lie ahead of the
    /// scanner and can be counted in the machine's integers.
    pub open spec fn reaches(self, index: usize, pos: int, end: int) -> bool {
        &&& index < self.regions.len()
        &&& self.pos_region <= pos <= end <= self.regions[index as int].len()
        &&& self.pos_zero + (end - self.pos_region) <= usize::MAX
        &&& self.pos_line + (end - self.pos_region) <= usize::MAX
    }
}

/// The error of a step, as an option.
pub open spec fn error_of<T>(r: Result<T, Token>) -> Option<Token> {
    match r {
        Ok(_) => None,
        Err(token) => Some(token),
    }
}

/// Returns the offset of the first newline of `src` in `[from, to)`, or `to`
/// where there is none.
pub fn find_newline(src: &[u8], from: usize, to: usize) -> (nl: usize)
    requires
        from <= to <= src@.len(),
    ensures
        nl == first_newline(src@, from as int, to as int),
        from <= nl <= to,
{
    let mut p = from;
    while p < to
        invariant
            from <= p <= to <= src@.len(),
            first_newline(src@, from as int, to as int) == first_newline(src@, p as int, to as int),
        decreases to - p,
    {
        if src[p] == NEWLINE {
            return p;
        }
        p = p + 1;
    }
    p
}

/// Queues the tokens for one line of whitespace of region `index`: the
/// line starts at `pos`, in column `col` of line `line`, and ends in the
/// first newline before `pos_end`. Returns the offset after that newline.
///
/// Where there is no newline before `pos_end`, nothing is queued, the
/// scanner fails and a `Fatal(InternalError)` comes back.
pub fn tokenizer_line_tokenize(
    t: &mut Tokenizer,
    index: usize,
    pos: usize,
    pos_end: usize,
    col: usize,
    line: usize,
) -> (r: Result<usize, Token>)
    requires
        old(t).wf(),
        old(t)@.reaches(index, pos as int, pos_end as int),
        col + (pos_end - pos) <= usize::MAX,
    ensures
        final(t).wf(),
        old(t)@.follows(
            old(t)@.line_plan(index, pos as int, pos_end as int, col as int, line as int),
            final(t)@,
            error_of(r),
        ),
        r is Ok ==> r->Ok_0 == first_newline(
            old(t)@.regions[index as int],
            pos as int,
            pos_end as int,
        ) + 1 && pos < r->Ok_0 <= pos_end,
{
    let ghost v = t@;
    let ghost plan = v.line_plan(index, pos as int, pos_end as int, col as int, line as int);
    let nl = find_newline(t.region[index].as_slice(), pos, pos_end);
    if nl >= pos_end {
        let error = Token::Fatal(
            ParseError::InternalError(
                Source {
                    pos_zero: t.pos_zero,
                    component: Component::Tokenizer,
                    line: LINE_WS_NEWLINE,
                    code: 0,
                },
            ),
        );
        proof {
            lemma_filled_empty(v.queue);
        }
        return Err(t.fail_token(error));
    }
    let len_wsp = nl - pos;
    let zero = t.pos_zero + (pos - t.pos_region);
    let ghost mut done = Seq::<Token>::empty();
    proof {
        lemma_filled_empty(v.queue);
    }
    if len_wsp > 0 {
        let span = Span {
            index,
            pos_region: pos,
            pos_zero: zero,
            pos_line: col,
            line,
            length: len_wsp,
        };
        let tok = if col == 0 {
            Token::Real(TokenBody::WhiteSpaceWhole(span))
        } else {
            Token::Real(TokenBody::WhiteSpaceTr(span))
        };
        assert(plan.queued.take(1) =~= done.push(tok));
        if let Some(error) = t.enqueue(tok, Ghost(v), Ghost(plan), Ghost(done)) {
            return Err(error);
        }
        proof {
            done = done.push(tok);
        }
    }
    let newline = Token::Real(
        TokenBody::Newline(
            Span {
                index,
                pos_region: nl,
                pos_zero: zero + len_wsp,
                pos_line: col + len_wsp,
                line,
                length: 1,
            },
        ),
    );
    assert(plan.queued.take(done.len() as int + 1) =~= done.push(newline));
    if let Some(error) = t.enqueue(newline, Ghost(v), Ghost(plan), Ghost(done)) {
        return Err(error);
    }
    assert(plan.queued =~= done.push(newline));
    Ok(nl + 1)
}

/// Queues the tokens for the whitespace `[pos, pos_end)` of region `index`,
/// which starts in column `col` of line `line_start` and is said to reach
/// line `line_end`: for each newline the whitespace in front of it and the
/// newline, then the whitespace that is left.
///
/// Returns the error token where a token did not find its place in the
/// queue, or where the bytes hold fewer newlines than was said; the scanner
/// has failed then.
pub fn tokenizer_whitespace_tokenize(
    t: &mut Tokenizer,
    index: usize,
    pos: usize,
    pos_end: usize,
    col: usize,
    line_start: usize,
    line_end: usize,
) -> (r: Option<Token>)
    requires
        old(t).wf(),
        old(t)@.reaches(index, pos as int, pos_end as int),
        col + (pos_end - pos) <= usize::MAX,
        line_start <= line_end,
    ensures
        final(t).wf(),
        old(t)@.follows(
            old(t)@.lines_plan(
                index,
                pos as int,
                pos_end as int,
                col as int,
                line_start as int,
                (line_end - line_start) as nat,
            ),
            final(t)@,
            r,
        ),
{
    let ghost v = t@;
    let ghost s = v.regions[index as int];
    let ghost full = lines_tokens(
        s,
        index,
        v.base(),
        pos as int,
        pos_end as int,
        col as int,
        line_start as int,
        (line_end - line_start) as nat,
    );
    let ghost plan = v.whitespace_step(full.0, full.1);
    let ghost mut done = Seq::<Token>::empty();
    let mut p = pos;
    let mut c = col;
    let mut l = line_start;
    proof {
        lemma_filled_empty(v.queue);
        assert(done + full.0 =~= full.0);
    }
    while l < line_end
        invariant
            t.wf(),
            t@ == v.with_queue(v.queue.filled(done)),
            done.len() > 0 ==> v.queue.accepts(),
            v.reaches(index, pos as int, pos_end as int),
            pos <= p <= pos_end,
            line_start <= l <= line_end,
            c + (pos_end - p) <= usize::MAX,
            v == old(t)@,
            s == v.regions[index as int],
            full == lines_tokens(
                s,
                index,
                v.base(),
                pos as int,
                pos_end as int,
                col as int,
                line_start as int,
                (line_end - line_start) as nat,
            ),
            plan == v.whitespace_step(full.0, full.1),
            ({
                let tail = lines_tokens(
                    s,
                    index,
                    v.base(),
                    p as int,
                    pos_end as int,
                    c as int,
                    l as int,
                    (line_end - l) as nat,
                );
                full.0 == done + tail.0 && full.1 == tail.1
            }),
        decreases line_end - l,
    {
        let ghost now = t@;
        let ghost part = now.line_plan(index, p as int, pos_end as int, c as int, l as int);
        let ghost nl = first_newline(s, p as int, pos_end as int);
        let ghost rest = lines_tokens(
            s,
            index,
            v.base(),
            nl + 1,
            pos_end as int,
            0,
            l + 1,
            (line_end - l - 1) as nat,
        );
        match tokenizer_line_tokenize(t, index, p, pos_end, c, l) {
            Err(error) => {
                proof {
                    if nl >= pos_end {
                        assert(full.0 =~= done);
                        lemma_filled_empty(now.queue);
                        assert(part.queued.len() == 0);
                        assert(t@ == now.loaded(part));
                        assert(t@ == v.loaded(plan));
                    } else {
                        assert(plan.queued.take((done + part.queued).len() as int) =~= done
                            + part.queued);
                        lemma_part_failed(v, done, part, plan, t@, error);
                    }
                }
                return Some(error);
            },
            Ok(next) => {
                proof {
                    lemma_filled_concat(v.queue, done, part.queued);
                    assert(done + (part.queued + rest.0) =~= (done + part.queued) + rest.0);
                    if part.queued.len() > 0 && done.len() == 0 {
                        assert(done =~= Seq::empty());
                        assert(now == v);
                    }
                    done = done + part.queued;
                }
                p = next;
                c = 0;
                l = l + 1;
            },
        }
    }
    if p != pos_end {
        let span = Span {
            index,
            pos_region: p,
            pos_zero: t.pos_zero + (p - t.pos_region),
            pos_line: c,
            line: l,
            length: pos_end - p,
        };
        let tok = if t.region[index].len() > pos_end {
            Token::Real(TokenBody::WhiteSpaceLd(span))
        } else {
            Token::Real(TokenBody::WhiteSpace(span))
        };
        assert(plan.queued.take(done.len() as int + 1) =~= done.push(tok));
        if let Some(error) = t.enqueue(tok, Ghost(v), Ghost(plan), Ghost(done)) {
            return Some(error);
        }
        assert(plan.queued =~= done.push(tok));
    } else {
        assert(plan.queued =~= done);
    }
    None
}

/// The newlines of a range are those of its two parts.
pub proof fn lemma_count_newlines_split(s: Seq<u8>, from: int, mid: int, to: int)
    requires
        from <= mid <= to,
    ensures
        count_newlines(s, from, to) == count_newlines(s, from, mid) + count_newlines(s, mid, to),
    decreases to - mid,
{
    if mid < to {
        lemma_count_newlines_split(s, from, mid, to - 1);
    }
}

/// The first newline of a range stands inside the range or at its end, with
/// no newline in front of it.
pub proof fn lemma_first_newline(s: Seq<u8>, from: int, to: int)
    requires
        from <= to,
    ensures
        from <= first_newline(s, from, to) <= to,
        count_newlines(s, from, first_newline(s, from, to)) == 0,
        first_newline(s, from, to) < to ==> s[first_newline(s, from, to)] == NEWLINE,
    decreases to - from,
{
    if from < to && s[from] != NEWLINE {
        lemma_first_newline(s, from + 1, to);
        let k = first_newline(s, from + 1, to);
        lemma_count_newlines_split(s, from, from + 1, k);
        assert(count_newlines(s, from, from) == 0);
    }
}

/// Whitespace that is said to hold as many newlines as it does hold is
/// split into tokens without an error.
pub proof fn lemma_lines_whole(
    s: Seq<u8>,
    index: usize,
    base: int,
    pos: int,
    end: int,
    col: int,
    line: int,
)
    requires
        pos <= end,
    ensures
        lines_tokens(s, index, base, pos, end, col, line, count_newlines(s, pos, end)).1,
    decreases end - pos,
{
    let lines = count_newlines(s, pos, end);
    if lines > 0 {
        let nl = first_newline(s, pos, end);
        lemma_first_newline(s, pos, end);
        lemma_count_newlines_split(s, pos, nl, end);
        if nl < end {
            lemma_count_newlines_split(s, nl, nl + 1, end);
            assert(count_newlines(s, nl, nl) == 0);
            lemma_lines_whole(s, index, base, nl + 1, end, 0, line + 1);
        }
    }
}

impl Tokenizer {
    // Queues `tok` as the next token of `plan`, of which `done` are queued
    // already. A failure is an outcome of the plan.
    pub(crate) fn enqueue(
        &mut self,
        tok: Token,
        Ghost(v): Ghost<ScannerView>,
        Ghost(plan): Ghost<ScanPlan>,
        Ghost(done): Ghost<Seq<Token>>,
    ) -> (r: Option<Token>)
        requires
            old(self).wf(),
            old(self)@ == v.with_queue(v.queue.filled(done)),
            done.len() > 0 ==> v.queue.accepts(),
            starts_with(plan.queued, done.push(tok)),
        ensures
            final(self).wf(),
            r is None ==> final(self)@ == v.with_queue(v.queue.filled(done.push(tok)))
                && v.queue.accepts(),
            r is Some ==> v.follows(plan, final(self)@, r),
    {
        match self.tokenbuf_push(tok) {
            Ok(()) => {
                proof {
                    lemma_filled_push(v.queue, done, tok);
                    if done.len() == 0 {
                        // Nothing was queued before: the queue that took the
                        // token is the one the plan starts from.
                        assert(done =~= Seq::empty());
                    }
                }
                None
            },
            Err(error) => {
                proof {
                    lemma_push_failed(v, plan, done, tok, self@, error);
                }
                Some(error)
            },
        }
    }

    /// Queues the tokens for the whitespace of region `index` that starts at
    /// `pos_region` and is `len_region` bytes long. The bytes are taken for
    /// whitespace without looking; `line_start` is the line of the first of
    /// them and `line_end` the line of the byte after the last.
    ///
    /// Where the two lines are the same, one `WhiteSpace` token is queued.
    /// Else the bytes are split at their newlines, see
    /// `tokenizer_whitespace_tokenize`. The positions of the scanner stay as
    /// they are. Returns the error token where something went wrong; the
    /// scanner has failed then.
    pub fn whitespace_into_tokenbuf(
        &mut self,
        index: usize,
        pos_region: usize,
        len_region: usize,
        line_start: usize,
        line_end: usize,
    ) -> (r: Option<Token>)
        requires
            old(self).wf(),
            old(self)@.reaches(index, pos_region as int, pos_region + len_region),
            line_start <= line_end,
        ensures
            final(self).wf(),
            old(self)@.follows(
                old(self)@.whitespace_plan(
                    index,
                    pos_region as int,
                    len_region as int,
                    line_start as int,
                    line_end as int,
                ),
                final(self)@,
                r,
            ),
    {
        let ghost v = self@;
        proof {
            lemma_filled_empty(v.queue);
        }
        if len_region < 1 {
            return None;
        }
        let len_token = pos_region - self.pos_region;
        if line_start == line_end {
            let tok = Token::Real(
                TokenBody::WhiteSpace(
                    Span {
                        index,
                        pos_region,
                        pos_zero: self.pos_zero + len_token,
                        pos_line: self.pos_line + len_token,
                        line: line_start,
                        length: len_region,
                    },
                ),
            );
            let ghost plan = v.whitespace_plan(
                index,
                pos_region as int,
                len_region as int,
                line_start as int,
                line_end as int,
            );
            assert(plan.queued.take(1) =~= Seq::<Token>::empty().push(tok));
            if let Some(error) = self.enqueue(tok, Ghost(v), Ghost(plan), Ghost(Seq::empty())) {
                return Some(error);
            }
            assert(plan.queued =~= Seq::<Token>::empty().push(tok));
            return None;
        }
        assert(self.region@[index as int]@.len() == self.region@[index as int].len());
        tokenizer_whitespace_tokenize(
            self,
            index,
            pos_region,
            pos_region + len_region,
            self.pos_line + len_token,
            line_start,
            line_end,
        )
    }
}

} // verus!
