//! Croniq configuration language: lexer, parser, formatter, cron conversion,
//! schedule compilation and the validation helpers that go with them.

pub mod text;
pub mod plural;
pub mod ast;
pub mod lexer;
pub mod parser;
pub mod format;
pub mod schedule;
pub mod convert;
pub mod calendar_args;
pub mod validate;
pub mod block_directives;
pub mod timezone;
pub mod diff;
pub mod auth;
pub mod crypto;
pub mod totp;
pub mod jwt;
pub mod jwt_secret;
pub mod remote;
pub mod dead_letters;
pub mod quickstart;
pub mod cli;
pub mod credentials;
pub mod placeholders;
pub mod compile;
pub mod import;
pub mod fingerprint;
pub mod generator;
