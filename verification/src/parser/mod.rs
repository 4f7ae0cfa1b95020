pub mod api;
pub mod lexer;
pub mod notation;
pub mod grammar;
pub mod expressions;
pub mod statements;
pub mod model;
pub mod stm_grammar;
pub mod stm_parser;
pub mod laws;
pub mod render;
