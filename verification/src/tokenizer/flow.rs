//! The scanner never trips over its own tokens: what a step queues and
//! delivers leaves the scanner one token behind the other, each from where
//! the one before it ended.

use vstd::prelude::*;
use crate::token::Token;
use crate::tokenbody::TokenBody;
use crate::tokenizer::args::ArgsScan;
use crate::tokenizer::defered::first_break;
use crate::tokenizer::ident::spells_include;
use crate::tokenizer::instruction::{
    first_letter, first_open, has_close, last_letter, lemma_count_newlines_bound, lemma_letters,
    lemma_line_start, line_start, AT, CLOSE_PAREN, OPEN_PAREN,
};
use crate::tokenizer::laws::{lemma_exhausted_returns, lemma_passed_keeps_stack};
use crate::tokenizer::model::{count_up, ScannerView};
use crate::tokenizer::plan::{Ending, ScanPlan};
use crate::tokenizer::whitespace::{
    count_newlines, first_newline, last_tokens, lemma_count_newlines_split, lemma_first_newline,
    line_tokens, lines_tokens, span_of, NEWLINE,
};

verus! {

/// Whether no token of `tokens` has a span.
pub open spec fn spanless(tokens: Seq<Token>) -> bool {
    forall|i: int| 0 <= i < tokens.len() ==> (#[trigger] tokens[i]).span() is None
}

impl ScanPlan {
    /// The tokens of the step in the order they leave the scanner: the one
    /// that is delivered at once, then the queued ones.
    pub open spec fn order(self) -> Seq<Token> {
        match self.ending {
            Ending::Deliver(token) => seq![token] + self.queued,
            _ => self.queued,
        }
    }
}

impl ScannerView {
    /// The scanner behind `token`, as far as the current region goes.
    pub open spec fn behind(self, token: Token) -> ScannerView {
        if token.span() is Some {
            self.passed(token)
        } else {
            self
        }
    }

    /// The scanner behind all of `tokens`, as far as the current region
    /// goes.
    pub open spec fn through(self, tokens: Seq<Token>) -> ScannerView
        decreases tokens.len(),
    {
        if tokens.len() == 0 {
            self
        } else {
            self.behind(tokens[0]).through(tokens.drop_first())
        }
    }

    /// Whether `tokens` can leave the scanner one after the other: each
    /// token with a span starts where the scanner stands then and ends
    /// inside the current region, and none follows one that ends an included
    /// region.
    pub open spec fn flows(self, tokens: Seq<Token>) -> bool
        decreases tokens.len(),
    {
        if tokens.len() == 0 {
            true
        } else {
            let token = tokens[0];
            let more = tokens.drop_first();
            match token.span() {
                None => self.flows(more),
                Some(span) => {
                    &&& self.stands_at(span)
                    &&& self.can_pass(token)
                    &&& if self.passed(token).exhausted() {
                        spanless(more)
                    } else {
                        self.passed(token).flows(more)
                    }
                },
            }
        }
    }

    /// Whether the deliveries of `tokens`, one after the other, all go
    /// through: each token leaves as itself.
    pub open spec fn delivers(self, tokens: Seq<Token>) -> bool
        decreases tokens.len(),
    {
        if tokens.len() == 0 {
            true
        } else {
            &&& self.delivered(tokens[0], true).1 == Some(tokens[0])
            &&& self.delivered(tokens[0], true) == self.delivered(tokens[0], false)
            &&& self.delivered(tokens[0], true).0.delivers(tokens.drop_first())
        }
    }
}

/// Tokens without spans leave the scanner from anywhere.
pub proof fn lemma_spanless_flows(v: ScannerView, tokens: Seq<Token>)
    requires
        spanless(tokens),
    ensures
        v.flows(tokens),
        v.delivers(tokens),
        v.through(tokens) == v,
    decreases tokens.len(),
{
    if tokens.len() > 0 {
        assert(tokens[0].span() is None);
        assert forall|i: int| 0 <= i < tokens.drop_first().len() implies (
        #[trigger] tokens.drop_first()[i]).span() is None by {
            assert(tokens.drop_first()[i] == tokens[i + 1]);
        }
        lemma_spanless_flows(v, tokens.drop_first());
    }
}

/// Whether tokens can leave a scanner only depends on where it stands.
pub proof fn lemma_flows_frame(v: ScannerView, w: ScannerView, tokens: Seq<Token>)
    requires
        v.place() == w.place(),
    ensures
        v.flows(tokens) == w.flows(tokens),
        v.through(tokens).place() == w.through(tokens).place(),
    decreases tokens.len(),
{
    if tokens.len() > 0 {
        lemma_flows_frame(v.behind(tokens[0]), w.behind(tokens[0]), tokens.drop_first());
    }
}

/// Two runs of tokens flow one behind the other if the first flows and the
/// second flows from behind it.
pub proof fn lemma_flows_concat(v: ScannerView, first: Seq<Token>, second: Seq<Token>)
    requires
        v.flows(first),
        v.through(first).exhausted() ==> spanless(second),
        !v.through(first).exhausted() ==> v.through(first).flows(second),
    ensures
        v.flows(first + second),
        v.through(first + second) == v.through(first).through(second),
    decreases first.len(),
{
    if first.len() == 0 {
        assert(first + second =~= second);
        if v.exhausted() {
            lemma_spanless_flows(v, second);
        }
    } else {
        let token = first[0];
        let more = first.drop_first();
        assert((first + second).drop_first() =~= more + second);
        assert((first + second)[0] == token);
        if token.span() is Some && v.passed(token).exhausted() {
            // Nothing with a span is left in the first run, and the scanner
            // stays at the end of its region.
            lemma_spanless_flows(v.passed(token), more);
            assert(spanless(more + second)) by {
                assert forall|i: int| 0 <= i < (more + second).len() implies (#[trigger] (more
                    + second)[i]).span() is None by {
                    if i < more.len() {
                        assert((more + second)[i] == more[i]);
                    } else {
                        assert((more + second)[i] == second[i - more.len()]);
                    }
                }
            }
            lemma_spanless_flows(v.passed(token), more + second);
            lemma_spanless_flows(v.passed(token), second);
        } else {
            lemma_flows_concat(v.behind(token), more, second);
        }
    }
}

/// A scanner over a stack delivers every run of tokens that flows from
/// where it stands.
pub proof fn lemma_flow_is_delivered(v: ScannerView, tokens: Seq<Token>)
    requires
        v.wf(),
        v.stacked(),
        v.flows(tokens),
    ensures
        v.delivers(tokens),
    decreases tokens.len(),
{
    if tokens.len() > 0 {
        let token = tokens[0];
        let more = tokens.drop_first();
        match token.span() {
            None => {
                lemma_flow_is_delivered(v, more);
            },
            Some(span) => {
                if v.passed(token).exhausted() {
                    lemma_exhausted_returns(v, token);
                    lemma_spanless_flows(v.passed(token).returned(), more);
                } else {
                    lemma_passed_keeps_stack(v, token);
                    lemma_flow_is_delivered(v.passed(token), more);
                }
            },
        }
    }
}

/// A token that starts where the scanner stands, and a run of tokens that
/// flows from behind it, flow one behind the other.
pub proof fn lemma_flows_cons(v: ScannerView, token: Token, more: Seq<Token>)
    requires
        match token.span() {
            None => v.flows(more),
            Some(span) => {
                &&& v.stands_at(span)
                &&& v.can_pass(token)
                &&& if v.passed(token).exhausted() {
                    spanless(more)
                } else {
                    v.passed(token).flows(more)
                }
            },
        },
    ensures
        v.flows(seq![token] + more),
        v.through(seq![token] + more) == v.behind(token).through(more),
{
    let tokens = seq![token] + more;
    assert(tokens[0] == token);
    assert(tokens.drop_first() =~= more);
}

/// Where the last line of a range starts does not depend on what stands in
/// front of its last newline.
pub proof fn lemma_line_start_behind(s: Seq<u8>, from: int, nl: int, to: int)
    requires
        from <= nl < to,
        s[nl] == NEWLINE,
    ensures
        line_start(s, from, to) == match line_start(s, nl + 1, to) {
            Some(start) => Some(start),
            None => Some(nl + 1),
        },
    decreases to - nl,
{
    if nl + 1 < to {
        lemma_line_start_behind(s, from, nl, to - 1);
    }
}

/// Whether the scanner `w` stands at offset `pos` of the region `s`, which
/// is column `col` of line `line`, with the first byte of the region at the
/// global offset `base`.
#[verifier::opaque]
pub open spec fn stands_in(
    w: ScannerView,
    s: Seq<u8>,
    base: int,
    pos: int,
    col: int,
    line: int,
) -> bool {
    &&& w.wf()
    &&& w.regions.len() > 0
    &&& w.current() == s
    &&& w.base() == base
    &&& w.pos_region == pos
    &&& w.pos_line == col
    &&& w.line == line
}

/// A token for `len` bytes at the place of the scanner, which do not reach
/// the end of the region, can leave, and takes the scanner as many bytes
/// on; onto the next line if it is a newline.
pub proof fn lemma_step(
    w: ScannerView,
    s: Seq<u8>,
    base: int,
    pos: int,
    col: int,
    line: int,
    token: Token,
    len: int,
)
    requires
        stands_in(w, s, base, pos, col, line),
        0 <= len,
        pos + len <= s.len(),
        token.body()->0 is Newline ==> len == 1,
        token.span() == Some(span_of(w.index, base, pos, col, line, len)),
    ensures
        w.stands_at(token.span()->0),
        w.can_pass(token),
        pos + len < s.len() ==> !w.passed(token).exhausted(),
        w.passed(token).index == w.index,
        w.passed(token).regions == w.regions,
        w.passed(token).snaps == w.snaps,
        stands_in(
            w.passed(token),
            s,
            base,
            pos + len,
            if token.body()->0 is Newline {
                0
            } else {
                col + len
            },
            if token.body()->0 is Newline {
                line + 1
            } else {
                line
            },
        ),
{
    reveal(stands_in);
}

/// The token for whitespace without a newline, in front of other bytes of
/// the region, flows from where the whitespace starts and takes the scanner
/// to where it ends.
pub proof fn lemma_last_flow(
    w: ScannerView,
    s: Seq<u8>,
    base: int,
    pos: int,
    end: int,
    col: int,
    line: int,
)
    requires
        stands_in(w, s, base, pos, col, line),
        pos <= end < s.len(),
    ensures
        ({
            let tokens = last_tokens(s, w.index, base, pos, end, col, line);
            &&& w.flows(tokens)
            &&& stands_in(w.through(tokens), s, base, end, col + (end - pos), line)
            &&& w.through(tokens).index == w.index
            &&& w.through(tokens).regions == w.regions
            &&& w.through(tokens).snaps == w.snaps
        }),
{
    let tokens = last_tokens(s, w.index, base, pos, end, col, line);
    if pos < end {
        let token = tokens[0];
        assert(tokens =~= seq![token] + Seq::<Token>::empty());
        lemma_step(w, s, base, pos, col, line, token, end - pos);
        lemma_flows_cons(w, token, Seq::empty());
    }
}

/// The tokens for one line of whitespace flow from where the line starts
/// and take the scanner behind its newline.
pub proof fn lemma_line_flow(
    w: ScannerView,
    s: Seq<u8>,
    base: int,
    pos: int,
    nl: int,
    col: int,
    line: int,
    more: Seq<Token>,
)
    requires
        stands_in(w, s, base, pos, col, line),
        pos <= nl,
        nl + 1 < s.len(),
        forall|after: ScannerView|
            after.index == w.index && #[trigger] stands_in(after, s, base, nl + 1, 0, line + 1)
                ==> after.flows(more),
    ensures
        w.flows(line_tokens(w.index, base, pos, nl, col, line) + more),
        w.through(line_tokens(w.index, base, pos, nl, col, line) + more) == w.through(
            line_tokens(w.index, base, pos, nl, col, line),
        ).through(more),
        stands_in(
            w.through(line_tokens(w.index, base, pos, nl, col, line)),
            s,
            base,
            nl + 1,
            0,
            line + 1,
        ),
        w.through(line_tokens(w.index, base, pos, nl, col, line)).index == w.index,
        w.through(line_tokens(w.index, base, pos, nl, col, line)).regions == w.regions,
        w.through(line_tokens(w.index, base, pos, nl, col, line)).snaps == w.snaps,
{
    let head = line_tokens(w.index, base, pos, nl, col, line);
    let newline = head.last();
    if nl > pos {
        let white = head[0];
        lemma_step(w, s, base, pos, col, line, white, nl - pos);
        let mid = w.passed(white);
        lemma_step(mid, s, base, nl, col + (nl - pos), line, newline, 1);
        assert(head =~= seq![white] + (seq![newline] + Seq::<Token>::empty()));
        lemma_flows_cons(mid, newline, Seq::empty());
        lemma_flows_cons(w, white, seq![newline] + Seq::<Token>::empty());
    } else {
        lemma_step(w, s, base, nl, col, line, newline, 1);
        assert(head =~= seq![newline] + Seq::<Token>::empty());
        lemma_flows_cons(w, newline, Seq::empty());
    }
    lemma_flows_concat(w, head, more);
}

/// The tokens for whitespace in front of other bytes of the region flow
/// from where the whitespace starts, and take the scanner to where it ends:
/// onto the line of the byte behind it, into the column of that byte.
pub proof fn lemma_lines_flow(
    w: ScannerView,
    s: Seq<u8>,
    base: int,
    pos: int,
    end: int,
    col: int,
    line: int,
)
    requires
        stands_in(w, s, base, pos, col, line),
        pos <= end < s.len(),
    ensures
        ({
            let tokens = lines_tokens(
                s,
                w.index,
                base,
                pos,
                end,
                col,
                line,
                count_newlines(s, pos, end),
            ).0;
            &&& w.flows(tokens)
            &&& stands_in(
                w.through(tokens),
                s,
                base,
                end,
                match line_start(s, pos, end) {
                    Some(start) => end - start,
                    None => col + (end - pos),
                },
                line + count_newlines(s, pos, end),
            )
            &&& w.through(tokens).index == w.index
            &&& w.through(tokens).regions == w.regions
            &&& w.through(tokens).snaps == w.snaps
        }),
    decreases end - pos,
{
    let lines = count_newlines(s, pos, end);
    lemma_line_start(s, pos, end);
    if lines == 0 {
        lemma_last_flow(w, s, base, pos, end, col, line);
    } else {
        let nl = first_newline(s, pos, end);
        lemma_first_newline(s, pos, end);
        lemma_count_newlines_split(s, pos, nl, end);
        assert(nl < end);
        lemma_count_newlines_split(s, nl, nl + 1, end);
        assert(count_newlines(s, nl, nl) == 0);
        lemma_line_start_behind(s, pos, nl, end);
        let head = line_tokens(w.index, base, pos, nl, col, line);
        let rest = lines_tokens(s, w.index, base, nl + 1, end, 0, line + 1, (lines - 1) as nat).0;
        assert forall|after: ScannerView|
            after.index == w.index && #[trigger] stands_in(
                after,
                s,
                base,
                nl + 1,
                0,
                line + 1,
            ) implies after.flows(rest) by {
            lemma_lines_flow(after, s, base, nl + 1, end, 0, line + 1);
        }
        lemma_line_flow(w, s, base, pos, nl, col, line, rest);
        lemma_lines_flow(w.through(head), s, base, nl + 1, end, 0, line + 1);
    }
}

/// A well-formed scanner over a region stands in that region.
pub proof fn lemma_stands_in(v: ScannerView)
    requires
        v.wf(),
        v.regions.len() > 0,
    ensures
        stands_in(v, v.current(), v.base(), v.pos_region as int, v.pos_line as int, v.line as int),
        v.current().len() == v.pos_max,
{
    reveal(stands_in);
}

/// What `stands_in` says of the place of a scanner.
pub proof fn lemma_stands_in_place(
    w: ScannerView,
    s: Seq<u8>,
    base: int,
    pos: int,
    col: int,
    line: int,
)
    requires
        stands_in(w, s, base, pos, col, line),
    ensures
        w.wf(),
        w.current() == s,
        w.pos_region == pos,
        w.pos_line == col,
        w.line == line,
        w.pos_zero == base + pos,
        pos <= s.len(),
        s.len() == w.pos_max,
{
    reveal(stands_in);
}

/// The first `(` behind an offset stands behind it, with no `(` between
/// the two.
pub proof fn lemma_first_open(s: Seq<u8>, from: int)
    requires
        0 <= from <= s.len(),
    ensures
        from <= first_open(s, from) <= s.len(),
        first_open(s, from) < s.len() ==> s[first_open(s, from)] == OPEN_PAREN,
    decreases s.len() - from,
{
    if from < s.len() && s[from] != OPEN_PAREN {
        lemma_first_open(s, from + 1);
    }
}

/// The first newline or `@` behind an offset stands behind it.
pub proof fn lemma_first_break(s: Seq<u8>, from: int)
    requires
        0 <= from <= s.len(),
    ensures
        from <= first_break(s, from) <= s.len(),
        first_break(s, from) < s.len() ==> s[first_break(s, from)] == NEWLINE || s[first_break(
            s,
            from,
        )] == AT,
    decreases s.len() - from,
{
    if from < s.len() && !(s[from] == NEWLINE || s[from] == AT) {
        lemma_first_break(s, from + 1);
    }
}

/// The tokens for the whitespace between the name of an instruction and its
/// `(` flow from behind the name, and take the scanner to the `(`.
pub proof fn lemma_gap_flow(v: ScannerView, w: ScannerView, ident_end: int, open: int)
    requires
        v.wf(),
        v.regions.len() > 0,
        v.pos_region <= ident_end < open < v.pos_max,
        w.index == v.index,
        stands_in(
            w,
            v.current(),
            v.base(),
            ident_end + 1,
            v.pos_line + (ident_end + 1 - v.pos_region),
            v.line as int,
        ),
    ensures
        ({
            let tokens = v.gap_whitespace(ident_end, open);
            let s = v.current();
            &&& w.flows(tokens)
            &&& stands_in(
                w.through(tokens),
                s,
                v.base(),
                open,
                match line_start(s, ident_end + 1, open) {
                    Some(start) => open - start,
                    None => v.pos_line + (open - v.pos_region),
                },
                v.line + count_newlines(s, ident_end + 1, open),
            )
            &&& w.through(tokens).index == v.index
            &&& w.through(tokens).regions == w.regions
            &&& w.through(tokens).snaps == w.snaps
        }),
{
    let s = v.current();
    let from = ident_end + 1;
    let col = v.pos_line + (from - v.pos_region);
    let tokens = v.gap_whitespace(ident_end, open);
    let lines = count_newlines(s, from, open);
    lemma_line_start(s, from, open);
    lemma_stands_in(v);
    if open - from < 1 {
        assert(tokens =~= Seq::<Token>::empty());
    } else if lines == 0 {
        let token = tokens[0];
        assert(tokens =~= seq![token] + Seq::<Token>::empty());
        lemma_step(w, s, v.base(), from, col, v.line as int, token, open - from);
        lemma_flows_cons(w, token, Seq::empty());
    } else {
        lemma_lines_flow(w, s, v.base(), from, open, col, v.line as int);
    }
}

/// The tokens from behind the name of an instruction to its `(` flow from
/// behind the name.
pub proof fn lemma_paren_flow(v: ScannerView, w: ScannerView, ident_end: int, open: int)
    requires
        v.wf(),
        v.regions.len() > 0,
        v.pos_region <= ident_end < open < v.pos_max,
        w.index == v.index,
        stands_in(
            w,
            v.current(),
            v.base(),
            ident_end + 1,
            v.pos_line + (ident_end + 1 - v.pos_region),
            v.line as int,
        ),
    ensures
        w.flows(v.paren_tokens(ident_end, open)),
{
    let s = v.current();
    let space = v.gap_whitespace(ident_end, open);
    let warning = v.gap_warning(ident_end, open);
    let paren = v.open_token(ident_end, open);
    lemma_gap_flow(v, w, ident_end, open);
    lemma_stands_in(v);
    lemma_count_newlines_bound(s, ident_end + 1, open);
    let at_paren = w.through(space);
    let col = match line_start(s, ident_end + 1, open) {
        Some(start) => open - start,
        None => v.pos_line + (open - v.pos_region),
    };
    let line = v.line + count_newlines(s, ident_end + 1, open);
    lemma_line_start(s, ident_end + 1, open);
    lemma_stands_in_place(at_paren, s, v.base(), open, col, line);
    assert(paren.span() == Some(span_of(at_paren.index, v.base(), open, col, line, 1)));
    lemma_step(at_paren, s, v.base(), open, col, line, paren, 1);
    lemma_flows_cons(at_paren, paren, Seq::empty());
    assert(seq![paren] + Seq::<Token>::empty() =~= seq![paren]);
    // The warning has no span.
    lemma_spanless_flows(at_paren, warning);
    lemma_flows_concat(at_paren, warning, seq![paren]);
    lemma_flows_concat(w, space, warning + seq![paren]);
    assert(v.paren_tokens(ident_end, open) =~= space + (warning + seq![paren]));
}

/// A token for bytes on the line of the scanner, from the scanner's place
/// on, is the token for those bytes of the region.
pub proof fn lemma_span_on_line(v: ScannerView, pos: int, len: int)
    requires
        v.wf(),
        v.pos_region <= pos,
        0 <= len,
        pos + len <= v.pos_max,
    ensures
        v.span_on_line(pos, len) == span_of(
            v.index,
            v.base(),
            pos,
            v.pos_line + (pos - v.pos_region),
            v.line as int,
            len,
        ),
{
}

/// The run in front of an offset of the region, if there is one, flows from
/// where the scanner stands and takes the scanner to that offset.
pub proof fn lemma_run_flow(v: ScannerView, at: int, more: Seq<Token>)
    requires
        v.wf(),
        v.regions.len() > 0,
        v.pos_region <= at < v.pos_max,
        forall|w: ScannerView|
            w.index == v.index && #[trigger] stands_in(
                w,
                v.current(),
                v.base(),
                at,
                v.pos_line + (at - v.pos_region),
                v.line as int,
            ) ==> w.flows(more),
    ensures
        at > v.pos_region ==> v.flows(
            seq![
                Token::Real(
                    TokenBody::Defered(v.span_on_line(v.pos_region as int, at - v.pos_region)),
                ),
            ] + more,
        ),
        at == v.pos_region ==> v.flows(more),
{
    lemma_stands_in(v);
    if at > v.pos_region {
        let run = Token::Real(
            TokenBody::Defered(v.span_on_line(v.pos_region as int, at - v.pos_region)),
        );
        lemma_span_on_line(v, v.pos_region as int, at - v.pos_region);
        lemma_step(
            v,
            v.current(),
            v.base(),
            v.pos_region as int,
            v.pos_line as int,
            v.line as int,
            run,
            at - v.pos_region,
        );
        lemma_flows_cons(v, run, more);
    }
}

/// The tokens of a literal `@` flow from where the scanner stands.
pub proof fn lemma_literal_flows(v: ScannerView, at: int, notes: Seq<Token>)
    requires
        v.wf(),
        v.regions.len() > 0,
        v.pos_region <= at < v.pos_max,
        spanless(notes),
    ensures
        v.flows(v.literal_plan(at, notes).order()),
{
    let s = v.current();
    let col = v.pos_line + (at - v.pos_region);
    let token = Token::Real(TokenBody::UnescapedAt(v.span_on_line(at, 1)));
    let more = seq![token] + notes;
    lemma_span_on_line(v, at, 1);
    assert forall|w: ScannerView|
        w.index == v.index && #[trigger] stands_in(
            w,
            s,
            v.base(),
            at,
            col,
            v.line as int,
        ) implies w.flows(more) by {
        lemma_step(w, s, v.base(), at, col, v.line as int, token, 1);
        lemma_spanless_flows(w.passed(token), notes);
        lemma_flows_cons(w, token, notes);
    }
    lemma_run_flow(v, at, more);
    if at > v.pos_region {
        let run = Token::Real(
            TokenBody::Defered(v.span_on_line(v.pos_region as int, at - v.pos_region)),
        );
        assert(v.literal_plan(at, notes).order() =~= seq![run] + more);
    } else {
        assert(v.literal_plan(at, notes).order() =~= more);
    }
}

/// The tokens of `@include` up to its `(` flow from where the scanner
/// stands.
pub proof fn lemma_include_flows(v: ScannerView, at: int, ident_end: int, open: int)
    requires
        v.wf(),
        v.regions.len() > 0,
        v.pos_region <= at <= ident_end < open < v.pos_max,
    ensures
        v.flows(v.include_plan(at, ident_end, open).order()),
{
    let s = v.current();
    let col = v.pos_line + (at - v.pos_region);
    let instruction = Token::Real(TokenBody::Include(v.span_on_line(at, ident_end - at + 1)));
    let tail = v.paren_tokens(ident_end, open);
    let more = seq![instruction] + tail;
    lemma_span_on_line(v, at, ident_end - at + 1);
    assert forall|w: ScannerView|
        w.index == v.index && #[trigger] stands_in(
            w,
            s,
            v.base(),
            at,
            col,
            v.line as int,
        ) implies w.flows(more) by {
        lemma_step(w, s, v.base(), at, col, v.line as int, instruction, ident_end - at + 1);
        lemma_paren_flow(v, w.passed(instruction), ident_end, open);
        lemma_flows_cons(w, instruction, tail);
    }
    lemma_run_flow(v, at, more);
    if at > v.pos_region {
        let run = Token::Real(
            TokenBody::Defered(v.span_on_line(v.pos_region as int, at - v.pos_region)),
        );
        assert(v.include_plan(at, ident_end, open).order() =~= seq![run] + more);
    } else {
        assert(v.include_plan(at, ident_end, open).order() =~= more);
    }
}

/// The tokens of the step for an `@` flow from where the scanner stands.
pub proof fn lemma_instruction_flows(v: ScannerView, at: int)
    requires
        v.wf(),
        v.regions.len() > 0,
        v.pos_region <= at < v.pos_max,
    ensures
        v.flows(v.instruction_plan(at).order()),
{
    let s = v.current();
    let open = first_open(s, at + 1);
    lemma_stands_in(v);
    lemma_first_open(s, at + 1);
    if open >= s.len() {
        let run = Token::Real(
            TokenBody::Defered(v.span_on_line(v.pos_region as int, v.rest())),
        );
        lemma_span_on_line(v, v.pos_region as int, v.rest());
        lemma_step(
            v,
            s,
            v.base(),
            v.pos_region as int,
            v.pos_line as int,
            v.line as int,
            run,
            v.rest(),
        );
        lemma_flows_cons(v, run, Seq::empty());
        assert(v.unfinished_plan().order() =~= seq![run] + Seq::<Token>::empty());
    } else if has_close(s, at + 1, open) {
        lemma_literal_flows(v, at, seq![v.bad_paren_error(at)]);
    } else {
        lemma_letters(s, at + 1, open);
        match first_letter(s, at + 1, open) {
            Some(first) => {
                if first == at + 1 {
                    let last = last_letter(s, at + 1, open)->0;
                    if spells_include(s, first, last) {
                        lemma_include_flows(v, at, last, open);
                    } else {
                        lemma_literal_flows(v, at, Seq::empty());
                    }
                } else {
                    lemma_literal_flows(v, at, Seq::empty());
                }
            },
            None => {
                lemma_literal_flows(v, at, Seq::empty());
            },
        }
    }
}

/// The tokens of a step of the ordinary scan flow from where the scanner
/// stands.
pub proof fn lemma_defered_flows(v: ScannerView)
    requires
        v.wf(),
    ensures
        v.flows(v.defered_plan().order()),
{
    let s = v.current();
    let pos = v.pos_region as int;
    if pos >= s.len() {
        assert(ScanPlan::idle(v).order() =~= Seq::<Token>::empty());
    } else {
        let stop = first_break(s, pos);
        lemma_stands_in(v);
        lemma_first_break(s, pos);
        if stop >= s.len() {
            let run = Token::Real(TokenBody::Defered(v.span_on_line(pos, s.len() - pos)));
            lemma_span_on_line(v, pos, s.len() - pos);
            lemma_step(v, s, v.base(), pos, v.pos_line as int, v.line as int, run, s.len() - pos);
            lemma_flows_cons(v, run, Seq::empty());
            assert(v.defered_plan().order() =~= seq![run] + Seq::<Token>::empty());
        } else if s[stop] == NEWLINE {
            let newline = Token::Real(TokenBody::Newline(v.span_on_line(stop, 1)));
            lemma_span_on_line(v, stop, 1);
            let tail = seq![newline] + Seq::<Token>::empty();
            assert forall|w: ScannerView|
                w.index == v.index && #[trigger] stands_in(
                    w,
                    s,
                    v.base(),
                    stop,
                    v.pos_line + (stop - v.pos_region),
                    v.line as int,
                ) implies w.flows(tail) by {
                lemma_step(
                    w,
                    s,
                    v.base(),
                    stop,
                    v.pos_line + (stop - v.pos_region),
                    v.line as int,
                    newline,
                    1,
                );
                lemma_flows_cons(w, newline, Seq::empty());
            }
            lemma_run_flow(v, stop, tail);
            if stop == pos {
                assert(v.defered_plan().order() =~= tail);
            } else {
                let run = Token::Real(TokenBody::Defered(v.span_on_line(pos, stop - pos)));
                assert(v.defered_plan().order() =~= seq![run] + tail);
            }
        } else {
            lemma_instruction_flows(v, stop);
        }
    }
}

/// A scan of arguments that queued a token does not deliver the closing
/// parenthesis at once.
pub proof fn lemma_args_signals(v: ScannerView, s: Seq<u8>, pos: int, a: ArgsScan)
    requires
        a.any,
    ensures
        !(v.args_tail(s, pos, a).ending is Deliver),
    decreases s.len() - pos,
{
    if pos < s.len() {
        if s[pos] == NEWLINE {
            lemma_args_signals(
                v,
                s,
                pos + 1,
                ArgsScan { run_start: pos + 1, col: 0, line: a.line + 1, any: true, ..a },
            );
        } else if s[pos] == OPEN_PAREN {
            lemma_args_signals(v, s, pos + 1, ArgsScan { open: count_up(a.open), ..a });
        } else if s[pos] == CLOSE_PAREN {
            let counted = ArgsScan { close: count_up(a.close), ..a };
            if counted.close != counted.open {
                lemma_args_signals(v, s, pos + 1, counted);
            }
        } else {
            lemma_args_signals(v, s, pos + 1, a);
        }
    }
}

/// The run that a scan of arguments has read flows from where it starts,
/// with what flows from behind it.
pub proof fn lemma_args_run_flow(
    v: ScannerView,
    w: ScannerView,
    pos: int,
    a: ArgsScan,
    more: Seq<Token>,
)
    requires
        v.wf(),
        v.regions.len() > 0,
        w.index == v.index,
        stands_in(w, v.current(), v.base(), a.run_start, a.col, a.line),
        v.pos_region <= a.run_start <= pos <= v.pos_max,
        pos == v.pos_max ==> spanless(more),
        forall|u: ScannerView|
            u.index == v.index && #[trigger] stands_in(
                u,
                v.current(),
                v.base(),
                pos,
                a.col + (pos - a.run_start),
                a.line,
            ) ==> u.flows(more),
    ensures
        w.flows(seq![v.args_run(a, pos)] + more),
{
    let run = v.args_run(a, pos);
    lemma_stands_in(v);
    lemma_stands_in_place(w, v.current(), v.base(), a.run_start, a.col, a.line);
    assert(run.span() == Some(
        span_of(w.index, v.base(), a.run_start, a.col, a.line, pos - a.run_start),
    ));
    lemma_step(w, v.current(), v.base(), a.run_start, a.col, a.line, run, pos - a.run_start);
    lemma_flows_cons(w, run, more);
}

/// The tokens of a scan of arguments flow from where the run being read
/// starts.
pub proof fn lemma_args_flow(v: ScannerView, w: ScannerView, pos: int, a: ArgsScan)
    requires
        v.wf(),
        v.regions.len() > 0,
        w.index == v.index,
        stands_in(w, v.current(), v.base(), a.run_start, a.col, a.line),
        v.pos_region <= a.run_start <= pos <= v.pos_max,
    ensures
        w.flows(v.args_tail(v.current(), pos, a).order()),
    decreases v.pos_max - pos,
{
    let s = v.current();
    let plan = v.args_tail(s, pos, a);
    let run = v.args_run(a, pos);
    let col = a.col + (pos - a.run_start);
    lemma_stands_in(v);
    lemma_stands_in_place(w, s, v.base(), a.run_start, a.col, a.line);
    if pos >= s.len() {
        let error = seq![v.open_instruction_error()];
        if a.run_start < pos {
            assert forall|u: ScannerView|
                u.index == v.index && #[trigger] stands_in(
                    u,
                    s,
                    v.base(),
                    pos,
                    col,
                    a.line,
                ) implies u.flows(error) by {
                lemma_spanless_flows(u, error);
            }
            lemma_args_run_flow(v, w, pos, a, error);
            assert(plan.order() =~= seq![run] + error);
        } else {
            lemma_spanless_flows(w, error);
            assert(plan.order() =~= error);
        }
    } else if s[pos] == NEWLINE {
        let next = ArgsScan { run_start: pos + 1, col: 0, line: a.line + 1, any: true, ..a };
        let rest = v.args_tail(s, pos + 1, next);
        let newline = Token::Real(TokenBody::Newline(v.args_byte(a, pos)));
        lemma_args_signals(v, s, pos + 1, next);
        assert(plan.order() =~= seq![run] + (seq![newline] + rest.order()));
        assert(newline.span() == Some(span_of(v.index, v.base(), pos, col, a.line, 1)));
        assert forall|u: ScannerView|
            u.index == v.index && #[trigger] stands_in(
                u,
                s,
                v.base(),
                pos,
                col,
                a.line,
            ) implies u.flows(seq![newline] + rest.order()) by {
            lemma_step(u, s, v.base(), pos, col, a.line, newline, 1);
            if pos + 1 == s.len() {
                assert(rest.order() =~= seq![v.open_instruction_error()]);
                lemma_spanless_flows(u.passed(newline), rest.order());
            } else {
                lemma_args_flow(v, u.passed(newline), pos + 1, next);
            }
            lemma_flows_cons(u, newline, rest.order());
        }
        lemma_args_run_flow(v, w, pos, a, seq![newline] + rest.order());
    } else if s[pos] == OPEN_PAREN {
        lemma_args_flow(v, w, pos + 1, ArgsScan { open: count_up(a.open), ..a });
    } else if s[pos] == CLOSE_PAREN {
        let counted = ArgsScan { close: count_up(a.close), ..a };
        if counted.close == counted.open {
            let paren = Token::Real(TokenBody::CloseParen(v.args_byte(a, pos)));
            assert(paren.span() == Some(span_of(v.index, v.base(), pos, col, a.line, 1)));
            assert forall|u: ScannerView|
                u.index == v.index && #[trigger] stands_in(
                    u,
                    s,
                    v.base(),
                    pos,
                    col,
                    a.line,
                ) implies u.flows(seq![paren] + Seq::<Token>::empty()) by {
                lemma_step(u, s, v.base(), pos, col, a.line, paren, 1);
                lemma_flows_cons(u, paren, Seq::empty());
            }
            if a.run_start < pos {
                lemma_args_run_flow(v, w, pos, a, seq![paren] + Seq::<Token>::empty());
                assert(plan.order() =~= seq![run] + (seq![paren] + Seq::<Token>::empty()));
            } else {
                assert(plan.order() =~= seq![paren] + Seq::<Token>::empty());
            }
        } else {
            lemma_args_flow(v, w, pos + 1, counted);
        }
    } else {
        lemma_args_flow(v, w, pos + 1, a);
    }
}

/// The tokens of a step of the scan of arguments flow from where the
/// scanner stands.
pub proof fn lemma_args_plan_flows(v: ScannerView)
    requires
        v.wf(),
    ensures
        v.flows(v.args_plan().order()),
{
    if v.regions.len() == 0 {
        let error = seq![v.open_instruction_error()];
        assert(v.args_plan().order() =~= error);
        lemma_spanless_flows(v, error);
    } else {
        lemma_stands_in(v);
        lemma_args_flow(
            v,
            v,
            v.pos_region as int,
            ArgsScan {
                run_start: v.pos_region as int,
                col: v.pos_line as int,
                line: v.line as int,
                open: v.cnt_openparen,
                close: v.cnt_closeparen,
                any: false,
            },
        );
    }
}

} // verus!
