//! Front end, semantic passes, intermediate representation and C back end
//! of the Qu language compiler.

pub mod span;
pub mod storage;
pub mod text;
pub mod diagnostics;
pub mod token;
pub mod lexer;
pub mod token_stream;
pub mod ast;
pub mod layout;
pub mod scope;
pub mod symbol;
pub mod module;
pub mod symbol_analyzer;
pub mod type_checker;
pub mod parse_context;
pub mod parser;
pub mod ir;
pub mod backend;
pub mod parse_state;
pub mod frontend;
pub mod context;
