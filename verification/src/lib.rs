//! A message-template engine in the style of ICU MessageFormat: literal text
//! interleaved with named arguments and `select` / `plural` / `selectordinal`
//! sub-message dispatch.
//!
//! A source string is parsed into a tree of [`Token`]s, from which the roles
//! of its arguments can be derived and which can be rendered against a set of
//! bound values.

pub mod args;
pub mod ast;
pub mod diagnostics;
pub mod error;
pub mod lexer;
pub mod locale;
pub mod output;
pub mod parser;
pub mod plural;
pub mod render;
pub mod text;

pub use args::{ArgumentRequirements, Requirement, TokenSlice};
pub use ast::{ArgType, PluralCase, PluralCategory, SelectCase, Token};
pub use diagnostics::{diagnose, Diagnostic};
pub use error::{ErrorDetail, ErrorKind, ParseError, Span};
pub use locale::{ConfigFile, StringItem, StringSet};
pub use output::{BuildStr, OutputType};
pub use parser::parse;
pub use render::{render, satisfies, try_render, Binding, Value};
