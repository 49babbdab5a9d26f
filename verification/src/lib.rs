//! Verified text-processing core of a dictation relay: a streaming lexer, a
//! substitution dictionary with prefix-aware lookup, and the surgical table that
//! turns lexemes into screen edits.

pub mod text;
pub mod lexeme_transfer;
pub mod screen_transfer;
pub mod lexer;
pub mod substitution_toml;
pub mod conf_file;
pub mod frankenstein_laboratory;
pub mod text_processor;
pub mod pipeline;
pub mod screen_writer;
pub mod screen_typer;
pub mod tcp_server;
