//! Reader for the schema page of a single-file paged database, and a lexer
//! and parser for a small subset of SQL `SELECT`.
pub mod db;
pub mod lexer;
pub mod page;
pub mod pager;
pub mod token;
pub mod varint;
pub mod ast;
pub mod parser;
