//! A cheat-sheet command finder: resolves an abbreviated command line against
//! a catalog of command templates, lets the user fill in the placeholders of
//! the chosen template, and hands the finished command to an executor.

pub mod text;
pub mod token;
pub mod filler;
pub mod commands;
pub mod catalog;
pub mod resolver;
pub mod session;
pub mod command_parser;
pub mod command_executor;
pub mod file_parse;
pub mod color_style;
pub mod menu;
pub mod invocation;
