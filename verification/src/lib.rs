pub mod ast;
pub mod lexer;
pub mod text;
pub mod grammar;
pub mod parser;
pub mod precedence;
pub mod statement_forms;
pub mod semantics;
pub mod semantic_analyzer;
