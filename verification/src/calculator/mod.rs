pub mod error;
pub mod expression;
pub mod lexer;
pub mod parser;
pub mod rpn;
pub mod token;

pub use expression::{contains_variable, parse_expression};
pub use token::Token;
