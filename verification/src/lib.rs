//! A minimal stack-based scripting language: a tokenizer that turns source
//! text into a flat token sequence, and an evaluator that runs that sequence
//! from its end towards its front against a value stack.

pub mod decimal;
pub mod evaluator;
pub mod render;
pub mod text;
pub mod token;
pub mod tokenizer;
pub mod value;

pub use crate::evaluator::{checked_evaluate, evaluate};
pub use crate::token::{Error, Instruction, Token, TokenView};
pub use crate::tokenizer::{checked_tokenize, tokenize};
pub use crate::value::{Value, ValueView};
