//! Text-preserving edits of Nix source files.
//!
//! A file is parsed by rnix into a lossless syntax tree, held here as its
//! preorder walk: a sequence of node openings, tokens and node closings. An
//! attribute is located in that sequence by name, the value node below it is
//! replaced by the top-level contents of a freshly parsed expression, and the
//! sequence is written back out as text. Everything outside the replaced span
//! is kept byte for byte.
mod args;
mod edit;
mod home;
mod inputs;
mod laws;
mod locate;
mod syntax;
mod walk_facts;

pub use args::{value_parser_for_pathbuf, ArgError};
pub use edit::replace_attr;
pub use home::{flake_home_literal, replace_flake_home};
pub use inputs::replace_inputs;
pub use locate::ValueKind;
pub use syntax::{is_parseable, Element, ElementView, SyntaxTree, MAX_NESTING_TOKENS, MAX_TEXT_BYTES};
