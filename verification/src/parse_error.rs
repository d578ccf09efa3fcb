//! Diagnostics that travel in the token stream.

use vstd::prelude::*;
use crate::text::{decimal, push_decimal};

verus! {

/// The part of the library a diagnostic was emitted by.
#[derive(Debug, Clone, Copy, PartialEq, Eq, Structural)]
pub enum Component {
    Tokenizer,
    TokenBuf,
    IncludeResolver,
}

/// Where a diagnostic comes from.
#[derive(Debug, Clone, Copy, PartialEq, Eq, Structural)]
pub struct Source {
    /// Global byte offset the diagnostic is about. The token buffer knows no
    /// offsets and always reports zero.
    pub pos_zero: usize,
    /// The component that emitted the diagnostic.
    pub component: Component,
    /// Line of the emitting site in the source of the component.
    pub line: u32,
    /// Code of the diagnostic, stable per component.
    pub code: u16,
}

/// The kinds of diagnostic. Severity is given by the token that carries one.
#[derive(Debug, Clone, Copy, PartialEq, Eq, Structural)]
pub enum ParseError {
    /// Memory for a buffer could not be reserved.
    NoMemory(Source),
    /// A component reached a state that its own rules do not allow.
    InternalError(Source),
    /// An instruction is malformed.
    InstructionError(Source),
    /// An instruction was opened and never closed, as in `@include(`.
    OpenInstruction(Source),
    /// An instruction that takes arguments is not followed by `(`.
    InstructionNotOpen(Source),
    /// An instruction that takes arguments was given none.
    InstructionMissingArgs(Source),
    /// Whitespace stands where none is wanted.
    UnwantedWhiteSpace(Source),
    /// Tokens were asked for before any source was pushed.
    NoInput(Source),
    /// No diagnostic: the initial value of an error slot.
    NoError,
}

impl ParseError {
    /// The origin record of the diagnostic, if it has one.
    pub open spec fn source(self) -> Option<Source> {
        match self {
            ParseError::NoMemory(s)
            | ParseError::InternalError(s)
            | ParseError::InstructionError(s)
            | ParseError::OpenInstruction(s)
            | ParseError::InstructionNotOpen(s)
            | ParseError::InstructionMissingArgs(s)
            | ParseError::UnwantedWhiteSpace(s)
            | ParseError::NoInput(s) => Some(s),
            ParseError::NoError => None,
        }
    }

    /// Returns the origin record of the diagnostic, if it has one.
    pub fn source_clone(&self) -> (r: Option<Source>)
        ensures
            r == self.source(),
    {
        match self {
            ParseError::NoMemory(s)
            | ParseError::InternalError(s)
            | ParseError::InstructionError(s)
            | ParseError::OpenInstruction(s)
            | ParseError::InstructionNotOpen(s)
            | ParseError::InstructionMissingArgs(s)
            | ParseError::UnwantedWhiteSpace(s)
            | ParseError::NoInput(s) => Some(*s),
            ParseError::NoError => None,
        }
    }
}

impl Component {
    /// The name of the component.
    pub open spec fn name(self) -> Seq<char> {
        match self {
            Component::Tokenizer => "Tokenizer"@,
            Component::TokenBuf => "TokenBuf"@,
            Component::IncludeResolver => "IncludeResolver"@,
        }
    }

    /// Returns the name of the component.
    pub fn name_str(&self) -> (r: &'static str)
        ensures
            r@ == self.name(),
    {
        match self {
            Component::Tokenizer => "Tokenizer",
            Component::TokenBuf => "TokenBuf",
            Component::IncludeResolver => "IncludeResolver",
        }
    }
}

impl Source {
    /// The origin record as text: its fields by name.
    pub open spec fn text(self) -> Seq<char> {
        "Source { pos_zero: "@ + decimal(self.pos_zero as nat) + ", component: "@
            + self.component.name() + ", line: "@ + decimal(self.line as nat) + ", code: "@
            + decimal(self.code as nat) + " }"@
    }

    /// Returns the origin record as text.
    pub fn fmt(&self) -> (r: String)
        ensures
            r@ == self.text(),
    {
        let mut r = String::new();
        r.append("Source { pos_zero: ");
        push_decimal(&mut r, self.pos_zero);
        r.append(", component: ");
        r.append(self.component.name_str());
        r.append(", line: ");
        push_decimal(&mut r, self.line as usize);
        r.append(", code: ");
        push_decimal(&mut r, self.code as usize);
        r.append(" }");
        r
    }
}

impl ParseError {
    /// The name of the kind of diagnostic. Two kinds go by another name
    /// where they come as a warning.
    pub open spec fn name(self, warning: bool) -> Seq<char> {
        match self {
            ParseError::NoMemory(_) => "NoMemory"@,
            ParseError::InternalError(_) => if warning {
                "InternalWarning"@
            } else {
                "InternalError"@
            },
            ParseError::InstructionError(_) => if warning {
                "InstructionWarning"@
            } else {
                "InstructionError"@
            },
            ParseError::OpenInstruction(_) => "OpenInstruction"@,
            ParseError::InstructionNotOpen(_) => "InstructionNotOpen"@,
            ParseError::InstructionMissingArgs(_) => "InstructionMissingArgs"@,
            ParseError::UnwantedWhiteSpace(_) => "UnwantedWhiteSpace"@,
            ParseError::NoInput(_) => "NoInput"@,
            ParseError::NoError => "None"@,
        }
    }

    /// The diagnostic as text: the name of its kind and, in parentheses,
    /// its origin.
    pub open spec fn text(self, warning: bool) -> Seq<char> {
        match self.source() {
            Some(source) => self.name(warning) + "("@ + source.text() + ")"@,
            None => self.name(warning),
        }
    }

    /// Returns the name of the kind of diagnostic.
    pub fn name_str(&self, warning: bool) -> (r: &'static str)
        ensures
            r@ == self.name(warning),
    {
        match self {
            ParseError::NoMemory(_) => "NoMemory",
            ParseError::InternalError(_) => if warning {
                "InternalWarning"
            } else {
                "InternalError"
            },
            ParseError::InstructionError(_) => if warning {
                "InstructionWarning"
            } else {
                "InstructionError"
            },
            ParseError::OpenInstruction(_) => "OpenInstruction",
            ParseError::InstructionNotOpen(_) => "InstructionNotOpen",
            ParseError::InstructionMissingArgs(_) => "InstructionMissingArgs",
            ParseError::UnwantedWhiteSpace(_) => "UnwantedWhiteSpace",
            ParseError::NoInput(_) => "NoInput",
            ParseError::NoError => "None",
        }
    }

    /// Returns the diagnostic as text. `warning` says whether it comes as a
    /// warning.
    pub fn fmt(&self, warning: bool) -> (r: String)
        ensures
            r@ == self.text(warning),
    {
        let mut r = String::new();
        r.append(self.name_str(warning));
        assert(r@ =~= self.name(warning));
        if let Some(source) = self.source_clone() {
            r.append("(");
            let inner = source.fmt();
            r.append(inner.as_str());
            r.append(")");
        }
        r
    }
}

} // verus!
