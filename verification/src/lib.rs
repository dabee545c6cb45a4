//! The evaluation core of a small dynamically-typed, C-like scripting
//! language: a recursive-descent parser from tokens to an abstract syntax
//! tree, and a tree-walking interpreter for that tree.
//!
//! Scanning raw source text into tokens, and presenting diagnostics or
//! program output on a terminal, are left to the host around this crate.

pub mod ast;
pub mod environment;
pub mod interpreter;
pub mod laws;
pub mod native_functions;
pub mod parser;
pub mod numbers;
pub mod runtime_error;
pub mod semantics;
pub mod token;
pub mod value;

pub use ast::Expr;
pub use ast::LoxFunctionNode;
pub use ast::Stmt;
pub use environment::Environment;
pub use interpreter::Control;
pub use interpreter::Failure;
pub use interpreter::Interpreter;
pub use native_functions::global_env;
pub use native_functions::globals;
pub use parser::Parser;
pub use parser::ParseError;
pub use parser::SyntaxError;
pub use runtime_error::RuntimeError;
pub use runtime_error::RuntimeErrorTrait;
pub use token::Literal;
pub use token::Token;
pub use token::TokenType;
pub use value::LoxCallable;
pub use value::LoxFunction;
pub use value::LoxNativeFunction;
pub use value::Value;
