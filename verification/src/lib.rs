//! Source code spell checking: tokenizing identifiers and words, looking them up in
//! dictionaries, reporting typos and applying fixes.

pub mod tokens;
pub mod check;
pub mod dict;
pub mod file;
pub mod report;
pub mod varcon;
pub mod config;
pub mod parser;
pub mod messages;
pub mod dictgen;
pub mod decimal;
pub mod content;
pub mod checks;
pub mod error;
pub mod pattern;
pub mod checkers;
pub mod builtin;
pub mod args;
pub mod table;
pub mod casefold;
pub mod print;
pub mod wordlist;
pub mod lsp;
pub mod file_type;
pub mod refine;
pub mod misspell;
pub mod word_map;
pub mod diff;
pub mod engine;
