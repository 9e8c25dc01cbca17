pub mod chars;
pub mod error;
pub mod model;
pub mod laws;
pub mod lexer;
pub mod token;

pub use error::LexError;
pub use lexer::{tokenize, Lexer};
pub use token::{Decimal, Token, TokenKind};
