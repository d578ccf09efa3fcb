//! The items of the token stream: content, consumed content and diagnostics.

use vstd::prelude::*;
use crate::parse_error::ParseError;
use crate::span::{Span, SpanFormatter};
use crate::tokenbody::TokenBody;

verus! {

/// One item of the token stream.
#[derive(Debug, Clone, Copy, PartialEq, Eq, Structural)]
pub enum Token {
    /// Content of the template.
    Real(TokenBody),
    /// A recognised entity whose bytes were consumed and must not be
    /// rendered, such as a resolved `@include`.
    Phantom(TokenBody),
    /// A diagnostic after which the emitting component stops.
    Fatal(ParseError),
    /// A defect of the template that does not stop the scan.
    Error(ParseError),
    /// A remark on the template.
    Warning(ParseError),
    /// A marker that a component changed state; consumers skip it.
    StateChange,
}

impl Token {
    /// Whether the token stands for bytes of the source.
    pub open spec fn is_content(self) -> bool {
        self is Real || self is Phantom
    }

    /// The body of a content token.
    pub open spec fn body(self) -> Option<TokenBody> {
        match self {
            Token::Real(body) | Token::Phantom(body) => Some(body),
            _ => None,
        }
    }

    /// The span of a content token. Diagnostics and markers have none.
    pub open spec fn span(self) -> Option<Span> {
        match self {
            Token::Real(body) | Token::Phantom(body) => Some(body.span()),
            _ => None,
        }
    }

    /// The number of source bytes the token stands for.
    pub open spec fn content_len(self) -> nat {
        match self.span() {
            Some(span) => span.length as nat,
            None => 0,
        }
    }

    /// Returns a copy of the span of a content token, and `None` for every
    /// other token.
    pub fn span_clone(&self) -> (span: Option<Span>)
        ensures
            span == self.span(),
    {
        match self {
            Token::Real(body) | Token::Phantom(body) => Some(body.span_clone()),
            Token::Fatal(_) | Token::Error(_) | Token::Warning(_) => None,
            Token::StateChange => None,
        }
    }
}

impl Token {
    /// The token as text: the name of its kind and, in parentheses, what it
    /// carries. `body_text` is the text of the body of a content token.
    pub open spec fn text(self, body_text: Seq<char>) -> Seq<char> {
        match self {
            Token::Real(_) => "Real("@ + body_text + ")"@,
            Token::Phantom(_) => "Phantom("@ + body_text + ")"@,
            Token::Fatal(error) => "Fatal("@ + error.text(false) + ")"@,
            Token::Error(error) => "Error("@ + error.text(false) + ")"@,
            Token::Warning(error) => "Warning("@ + error.text(true) + ")"@,
            Token::StateChange => "StateChange"@,
        }
    }

    /// Returns the token as text, given the text of the body of a content
    /// token.
    pub fn fmt_with(&self, body_text: &str) -> (r: String)
        ensures
            r@ == self.text(body_text@),
    {
        let mut r = String::new();
        assert(r@ + "StateChange"@ =~= "StateChange"@);
        match self {
            Token::Real(_) => {
                r.append("Real(");
                assert(r@ =~= "Real("@);
                r.append(body_text);
            },
            Token::Phantom(_) => {
                r.append("Phantom(");
                assert(r@ =~= "Phantom("@);
                r.append(body_text);
            },
            Token::Fatal(error) => {
                r.append("Fatal(");
                assert(r@ =~= "Fatal("@);
                let inner = error.fmt(false);
                r.append(inner.as_str());
            },
            Token::Error(error) => {
                r.append("Error(");
                assert(r@ =~= "Error("@);
                let inner = error.fmt(false);
                r.append(inner.as_str());
            },
            Token::Warning(error) => {
                r.append("Warning(");
                assert(r@ =~= "Warning("@);
                let inner = error.fmt(true);
                r.append(inner.as_str());
            },
            Token::StateChange => {
                r.append("StateChange");
                return r;
            },
        }
        r.append(")");
        r
    }

    /// Returns the token as text, with the span of a content token shown by
    /// `bufowner`.
    pub fn fmt<F: SpanFormatter>(&self, bufowner: &F) -> (r: String)
        ensures
            r@ == self.text(
                match self.body() {
                    Some(body) => body.text(bufowner.span_text(body.span())),
                    None => Seq::empty(),
                },
            ),
    {
        match self {
            Token::Real(body) | Token::Phantom(body) => {
                let body_text = body.fmt(bufowner);
                self.fmt_with(body_text.as_str())
            },
            _ => self.fmt_with(""),
        }
    }
}

} // verus!
