pub mod basic;
pub mod lexer;
pub mod monkey;
pub mod text;
pub mod token;

pub use lexer::Lexer;
pub use token::{Token, Tokenize};
