//! A parser for POSIX-flavoured line patterns (the front end of a grep-like
//! tool): pattern text in, syntax tree or a classified error out.
pub mod alternation;
pub mod ast;
pub mod bracket;
pub mod cursor;
pub mod frame;
pub mod laws;
pub mod parser;
pub mod pattern;
pub mod repetition;
pub mod text;

pub use ast::{Anchor, Expression, ParsingError, Pattern, PredefinedSet, Range, Repetition, Sets, SubPattern};
pub use parser::process;
