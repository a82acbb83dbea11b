//! A small s-expression teaching language: a lexer, a parser that lowers
//! surface syntax to a linear operation IR, and a stack machine that runs it.

pub mod ast;
pub mod diagnostics;
pub mod env;
pub mod eval;
pub mod lexer;
pub mod natives;
pub mod parser;
pub mod render;
pub mod runner;
pub mod span;
pub mod text;
pub mod token;
pub mod value;

pub use ast::{
    Ast, Binding, Builtin, Closure, Decimal, Env, MatchBranch, NativeFn, Operation, OperationKind,
    Statement, StatementKind, Struct, Value,
};
pub use diagnostics::{ErrorCode, ErrorLevel, ParseError, RuntimeError};
pub use lexer::{tokenize, Lexer};
pub use parser::{parse, Parser, ParserValue, ParserValueKind, TokenStream};
pub use runner::{Engine, ExecutionStack, Output, Runner};
pub use span::Span;
pub use token::{Delimiter, LiteralKind, Token, TokenKind};
pub mod laws;
