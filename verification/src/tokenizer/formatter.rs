//! Spans as text, with the bytes they cover.

use vstd::prelude::*;
use vstd::utf8::{decode_utf8, valid_utf8};
use crate::span::{Span, SpanFormatter};
use crate::text::{debug_quoted, from_utf8, quoted};
use crate::tokenizer::Tokenizer;
use crate::tokenizer::model::ScannerView;

verus! {

impl ScannerView {
    /// The bytes that `span` points at as quoted text, where there are such
    /// bytes and they are text.
    pub open spec fn quoted_slice(self, span: Span) -> Option<Seq<char>> {
        match self.slice(span) {
            Some(bytes) => if valid_utf8(bytes) {
                Some(debug_quoted(decode_utf8(bytes)))
            } else {
                None
            },
            None => None,
        }
    }
}

impl SpanFormatter for Tokenizer {
    /// The fields of `span` and, where it points at text of a region, that
    /// text in quotes.
    open spec fn span_text(&self, span: Span) -> Seq<char> {
        span.text(self@.quoted_slice(span))
    }

    /// Returns `span` as text: its fields and, where it points at text of a
    /// region, that text in quotes.
    fn fmt_into(&self, span: &Span) -> (r: String) {
        let text = match self.span_slice(span) {
            Some(slice) => match from_utf8(slice) {
                Some(text) => Some(quoted(text)),
                None => None,
            },
            None => None,
        };
        match &text {
            Some(quoted_text) => span.fmt_with(Some(quoted_text.as_str())),
            None => span.fmt_with(None),
        }
    }
}

} // verus!
