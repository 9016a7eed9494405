//! Carlo: a calculator language for physics and engineering notes.
//!
//! Source text flows through the tokenizer, the Pratt parser and the
//! evaluator, and comes out as plain text or LaTeX.

pub mod cli;
pub mod environment;
pub mod error;
pub mod expression;
pub mod laws;
pub mod number;
pub mod parser;
pub mod render;
pub mod text;
pub mod token;
pub mod tokenizer;
pub mod units;

pub use cli::{CliArgs, Flag, Subcommand};
pub use environment::{Environment, Resolution};
pub use error::Error;
pub use expression::{BinaryOperation, Expression};
pub use number::Ratio;
pub use parser::Parser;
pub use render::latex_identifier;
pub use token::{Token, TokenClass};
pub use tokenizer::{Charstream, Tokenstream};
pub use units::POWER_ONE;
