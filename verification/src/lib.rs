pub mod cic;
pub mod cli;
pub mod commons;
pub mod config;
pub mod error;
pub mod fol;
pub mod parser;
pub mod runtime;
pub mod sup;
pub mod text;
