//! Scanning core of a template pipeline: raw template bytes in, a linear
//! stream of annotated tokens out.
//!
//! Templates are text with instructions that start with an at-sign, such as
//! `@include(path)`. Three parts work bottom-up:
//!
//! - [`tokenbuf`]: a queue of tokens between recognition and delivery;
//! - [`tokenizer`]: the scanner, which walks a stack of byte regions and
//!   keeps track of where it stands;
//! - [`include_resolver`]: a filter on top of the scanner that consumes
//!   `@include(path)` and has the named file scanned in its place.
//!
//! Tokens are pulled one at a time. Diagnostics travel in the stream, between
//! the content they are about. Nothing here reads a file: the resolver says
//! which file it wants and is handed its bytes.
//!
//! What the functions do is stated over views of the data: a queue is a
//! sequence of pending tokens, a scanner is its positions, its regions and
//! its queue. The laws that hold of every stream stand beside the scanner:
//! see [`tokenizer::laws`], [`tokenizer::sound`], [`tokenizer::firm`] and
//! [`tokenizer::ending`].

pub mod span;
pub mod parse_error;
pub mod path;
pub mod tokenbody;
pub mod token;
pub mod reserve;
pub mod text;
pub mod tokenbuf;
pub mod tokenizer;
pub mod include_resolver;
