//! BiTE: a Bash-integrated Terminal Emulator, verified core.

pub mod data_stack;
pub mod runeline;
pub mod strings;
pub mod utf8_text;
pub mod variables;
pub mod screen;
pub mod parser;
pub mod byte_code;
pub mod types;
pub mod locator;
pub mod history;
pub mod session;
pub mod builtins;
pub mod completions;
pub mod scroll;
pub mod presenter;
pub mod commons;
pub mod execute_command;
pub mod presenter_main;
pub mod compose;
pub mod compose_view;
