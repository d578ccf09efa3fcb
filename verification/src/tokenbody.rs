//! Lexical categories, each with the span it covers.

use vstd::prelude::*;
use crate::span::{Span, SpanFormatter};

verus! {

/// What a content token is, and where its bytes are.
#[derive(Debug, Clone, Copy, PartialEq, Eq, Structural)]
pub enum TokenBody {
    /// The `@include` instruction, without its opening parenthesis.
    Include(Span),
    /// The start of an opening tag, such as `<div`.
    TagOpenStart(Span),
    /// The `>` that ends an opening tag.
    TagOpenEnd(Span),
    /// The start of a closing tag, `</`.
    TagCloseStart(Span),
    /// A closing tag, such as `</div>` or `/>`.
    TagClose(Span),
    /// The escape `@@`.
    EscapedAt(Span),
    /// An `@` that starts no instruction and was not escaped.
    UnescapedAt(Span),
    /// A run whose further scanning is left to a later stage.
    Defered(Span),
    /// The `(` that opens the arguments of an instruction.
    OpenParen(Span),
    /// The `)` that closes the arguments of an instruction.
    CloseParen(Span),
    /// A `<` without known context.
    Lt(Span),
    /// A `>` without known context.
    Gt(Span),
    /// Spaces and tabs on a line that has no newline after them.
    WhiteSpace(Span),
    /// Spaces and tabs in front of other bytes of their line.
    WhiteSpaceLd(Span),
    /// Spaces and tabs between other bytes of their line and its newline.
    WhiteSpaceTr(Span),
    /// Spaces and tabs that are all their line holds.
    WhiteSpaceWhole(Span),
    /// A newline byte.
    Newline(Span),
    /// The path of a template file, as given to `@include`.
    FilePath(Span),
}

impl TokenBody {
    /// The span the body covers.
    pub open spec fn span(self) -> Span {
        match self {
            TokenBody::Include(s)
            | TokenBody::TagOpenStart(s)
            | TokenBody::TagOpenEnd(s)
            | TokenBody::TagCloseStart(s)
            | TokenBody::TagClose(s)
            | TokenBody::EscapedAt(s)
            | TokenBody::UnescapedAt(s)
            | TokenBody::Defered(s)
            | TokenBody::OpenParen(s)
            | TokenBody::CloseParen(s)
            | TokenBody::Lt(s)
            | TokenBody::Gt(s)
            | TokenBody::WhiteSpace(s)
            | TokenBody::WhiteSpaceLd(s)
            | TokenBody::WhiteSpaceTr(s)
            | TokenBody::WhiteSpaceWhole(s)
            | TokenBody::Newline(s)
            | TokenBody::FilePath(s) => s,
        }
    }

    /// Returns a copy of the span the body covers.
    pub fn span_clone(&self) -> (span: Span)
        ensures
            span == self.span(),
    {
        match self {
            TokenBody::Include(s)
            | TokenBody::TagOpenStart(s)
            | TokenBody::TagOpenEnd(s)
            | TokenBody::TagCloseStart(s)
            | TokenBody::TagClose(s)
            | TokenBody::EscapedAt(s)
            | TokenBody::UnescapedAt(s)
            | TokenBody::Defered(s)
            | TokenBody::OpenParen(s)
            | TokenBody::CloseParen(s)
            | TokenBody::Lt(s)
            | TokenBody::Gt(s)
            | TokenBody::WhiteSpace(s)
            | TokenBody::WhiteSpaceLd(s)
            | TokenBody::WhiteSpaceTr(s)
            | TokenBody::WhiteSpaceWhole(s)
            | TokenBody::Newline(s)
            | TokenBody::FilePath(s) => *s,
        }
    }
}

impl TokenBody {
    /// The name of the category.
    pub open spec fn name(self) -> Seq<char> {
        match self {
            TokenBody::Include(_) => "Include"@,
            TokenBody::TagOpenStart(_) => "TagOpenStart"@,
            TokenBody::TagOpenEnd(_) => "TagOpenEnd"@,
            TokenBody::TagCloseStart(_) => "TagCloseStart"@,
            TokenBody::TagClose(_) => "TagClose"@,
            TokenBody::EscapedAt(_) => "EscapedAt"@,
            TokenBody::UnescapedAt(_) => "UnescapedAt"@,
            TokenBody::Defered(_) => "Defered"@,
            TokenBody::OpenParen(_) => "OpenParen"@,
            TokenBody::CloseParen(_) => "CloseParen"@,
            TokenBody::Lt(_) => "Lt"@,
            TokenBody::Gt(_) => "Gt"@,
            TokenBody::WhiteSpace(_) => "WhiteSpace"@,
            TokenBody::WhiteSpaceLd(_) => "WhiteSpaceLd"@,
            TokenBody::WhiteSpaceTr(_) => "WhiteSpaceTr"@,
            TokenBody::WhiteSpaceWhole(_) => "WhiteSpaceWhole"@,
            TokenBody::Newline(_) => "Newline"@,
            TokenBody::FilePath(_) => "FilePath"@,
        }
    }

    /// The body as text: the name of its category and, in parentheses, the
    /// text `span_text` of its span.
    pub open spec fn text(self, span_text: Seq<char>) -> Seq<char> {
        self.name() + "("@ + span_text + ")"@
    }

    /// Returns the name of the category.
    pub fn name_str(&self) -> (r: &'static str)
        ensures
            r@ == self.name(),
    {
        match self {
            TokenBody::Include(_) => "Include",
            TokenBody::TagOpenStart(_) => "TagOpenStart",
            TokenBody::TagOpenEnd(_) => "TagOpenEnd",
            TokenBody::TagCloseStart(_) => "TagCloseStart",
            TokenBody::TagClose(_) => "TagClose",
            TokenBody::EscapedAt(_) => "EscapedAt",
            TokenBody::UnescapedAt(_) => "UnescapedAt",
            TokenBody::Defered(_) => "Defered",
            TokenBody::OpenParen(_) => "OpenParen",
            TokenBody::CloseParen(_) => "CloseParen",
            TokenBody::Lt(_) => "Lt",
            TokenBody::Gt(_) => "Gt",
            TokenBody::WhiteSpace(_) => "WhiteSpace",
            TokenBody::WhiteSpaceLd(_) => "WhiteSpaceLd",
            TokenBody::WhiteSpaceTr(_) => "WhiteSpaceTr",
            TokenBody::WhiteSpaceWhole(_) => "WhiteSpaceWhole",
            TokenBody::Newline(_) => "Newline",
            TokenBody::FilePath(_) => "FilePath",
        }
    }

    /// Returns the body as text, given the text of its span.
    pub fn fmt_with(&self, span_text: &str) -> (r: String)
        ensures
            r@ == self.text(span_text@),
    {
        let mut r = String::new();
        r.append(self.name_str());
        assert(r@ =~= self.name());
        r.append("(");
        r.append(span_text);
        r.append(")");
        r
    }

    /// Returns the body as text, with its span shown by `bufowner`.
    pub fn fmt<F: SpanFormatter>(&self, bufowner: &F) -> (r: String)
        ensures
            r@ == self.text(bufowner.span_text(self.span())),
    {
        let span = self.span_clone();
        let span_text = bufowner.fmt_into(&span);
        self.fmt_with(span_text.as_str())
    }
}

} // verus!
