//! The front of a compiler for a small dynamically-typed scripting
//! language: a verified lexer, the scope tree that variable analysis
//! builds and code generation replays, the AST model, and a declarative
//! recursive-descent parser with a verified token cursor.
pub mod frame_stack;
pub mod parser;
pub mod syntax_tree;
pub mod tokenizer;
