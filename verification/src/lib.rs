//! Core logic of a small interactive shell.
pub mod text;
pub mod builtin_cmd;
pub mod history;
pub mod external_cmd;
pub mod cmd_parser;
pub mod output;
pub mod tokenizer;
pub mod userinput;
pub mod builtin;
pub mod misc;
