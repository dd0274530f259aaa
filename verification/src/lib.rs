//! A text-templating engine. A template holds literal text and directives
//! of the form `{{prefixes:specifier/postfixes}}`. The specifier is a key
//! that a caller-supplied provider resolves to a value; the prefixes steer
//! how the value is rendered, the postfixes transform the rendered text.
//!
//! The stages, leaves first:
//!
//! - [`grid`] indexes a template by rows and columns;
//! - [`lexer`] turns the grid into tokens, each with its position;
//! - [`parser`] turns tokens into nodes: text, escaped characters and
//!   directives;
//! - [`specifier`] compiles the raw prefix and postfix of a directive into
//!   flags;
//! - [`formatting`] and [`formatters`] say how values render under flags;
//! - [`provider`] is the protocol through which keys become values;
//! - [`template`] renders nodes, and goes the whole way from template text
//!   to rendered text.
//!
//! Every stage states what it returns as a function of what it is given,
//! and [`laws`] states what holds of the stages together. [`derive`] plans
//! the provider of a record from its fields.

pub mod derive;
pub mod errors;
pub mod formatters;
pub mod formatting;
pub mod grid;
pub mod laws;
pub mod lexer;
pub mod parser;
pub mod prelude;
pub mod provider;
pub mod specifier;
pub mod template;
pub mod text;
pub mod util;

pub use errors::{CurlyError, CurlyErrorKind, CurlyFmtResult, CurlyResult};
pub use provider::Provider;
