pub mod agreement;
pub mod ast;
pub mod code;
pub mod compiler;
pub mod early_return;
pub mod errors;
pub mod eval;
pub mod grammar;
pub mod grouping;
pub mod lexer;
pub mod lexing;
pub mod lifetime;
pub mod logic;
pub mod object;
pub mod parsed;
pub mod parser;
pub mod reading;
pub mod scoping;
pub mod text;
pub mod token;
pub mod vm;
pub mod written;
