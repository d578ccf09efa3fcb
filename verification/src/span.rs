//! Location of a run of bytes inside the pushed source regions.

use vstd::prelude::*;
use crate::text::{decimal, push_decimal};

verus! {

/// A pointer into the source: which region, where in it, and how many bytes.
///
/// All positions count raw bytes; no text encoding is considered.
#[derive(Debug, Clone, Copy, PartialEq, Eq, Structural)]
pub struct Span {
    /// Index of the region the span starts in.
    pub index: usize,
    /// Byte offset of the span inside its region.
    pub pos_region: usize,
    /// Byte offset of the span from the start of its line.
    pub pos_line: usize,
    /// Byte offset of the span counted over all regions, in delivery order.
    pub pos_zero: usize,
    /// Line of the region on which the span starts, counted from zero.
    pub line: usize,
    /// Number of bytes the span covers.
    pub length: usize,
}

impl Span {
    /// The offset one past the last byte of the span, inside its region.
    pub open spec fn end(self) -> int {
        self.pos_region + self.length
    }

    /// Whether the span lies inside a region of `region_len` bytes and does
    /// not claim a column past its own offset.
    pub open spec fn fits(self, region_len: int) -> bool {
        &&& self.end() <= region_len
        &&& self.pos_line <= self.pos_region
    }
}

impl Span {
    /// The span as text: its fields by name and, where `quoted` is there,
    /// the bytes it covers as quoted text.
    pub open spec fn text(self, quoted: Option<Seq<char>>) -> Seq<char> {
        "Span { index: "@ + decimal(self.index as nat) + ", length: "@ + decimal(
            self.length as nat,
        ) + ", pos_region: "@ + decimal(self.pos_region as nat) + ", pos_line: "@ + decimal(
            self.pos_line as nat,
        ) + ", pos_zero: "@ + decimal(self.pos_zero as nat) + ", line: "@ + decimal(
            self.line as nat,
        ) + match quoted {
            Some(text) => ", text: "@ + text,
            None => Seq::empty(),
        } + " }"@
    }

    /// Returns the span as text. `quoted` is the text of the bytes that the
    /// span covers, in quotes, where it is known.
    pub fn fmt_with(&self, quoted: Option<&str>) -> (r: String)
        ensures
            r@ == self.text(
                match quoted {
                    Some(text) => Some(text@),
                    None => None,
                },
            ),
    {
        let mut r = String::new();
        r.append("Span { index: ");
        push_decimal(&mut r, self.index);
        r.append(", length: ");
        push_decimal(&mut r, self.length);
        r.append(", pos_region: ");
        push_decimal(&mut r, self.pos_region);
        r.append(", pos_line: ");
        push_decimal(&mut r, self.pos_line);
        r.append(", pos_zero: ");
        push_decimal(&mut r, self.pos_zero);
        r.append(", line: ");
        push_decimal(&mut r, self.line);
        let ghost fields = r@;
        match quoted {
            Some(text) => {
                r.append(", text: ");
                r.append(text);
                assert(r@ =~= fields + (", text: "@ + text@));
            },
            None => {
                assert(r@ =~= fields + Seq::<char>::empty());
            },
        }
        r.append(" }");
        r
    }
}

/// Something that can show a span as text, such as the owner of the bytes
/// that spans point into.
///
/// What is built around the text of a span is stated over `span_text`. An
/// implementor in verified code proves that `fmt_into` returns that text;
/// of an implementor in ordinary code it is taken on trust, and `span_text`
/// needs a body there that is never run.
pub trait SpanFormatter {
    /// What the formatter shows `span` as.
    spec fn span_text(&self, span: Span) -> Seq<char>;

    /// Returns `span` as text.
    fn fmt_into(&self, span: &Span) -> (r: String)
        ensures
            r@ == self.span_text(*span),
    ;
}

} // verus!
