//! A parser-combinator core: a backtracking cursor over a stream of tokens,
//! combinators that build collections from repeated parses, and the validation
//! rules of a multi-case `switch` dispatch construct.

pub mod input;
pub mod collection;
pub mod parser;
pub mod combinators;
pub mod syntax;
pub mod switch;
