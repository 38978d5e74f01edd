pub mod text;
pub mod token;
pub mod lexer;
pub mod ast;
pub mod parser;
pub mod heredoc;
pub mod compat;
pub mod strmap;
pub mod expand;
pub mod executor;
pub mod builtins;
pub mod jobs;
pub mod table;
pub mod perf;
pub mod data;
