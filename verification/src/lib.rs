pub mod ast;
pub mod ast_build;
pub mod diagnostics;
pub mod eval;
pub mod generic_laws;
pub mod generics;
pub mod lexer;
pub mod lsp;
pub mod module_resolve;
pub mod names;
pub mod numerals;
pub mod parser;
pub mod sources;
pub mod stdlib;
pub mod text;
pub mod text_laws;
pub mod types;
