//! Declarative matching of command-line tokens against declared command
//! patterns, with machine-checked contracts.
//!
//! A caller declares the commands it accepts, each with a name, the number
//! of positional values it takes, the options it accepts and a handler.
//! `Command::from_args` then matches a token sequence against them: the
//! second token selects a command, and the tokens behind it are sorted
//! into positional values and options, which may stand in any order. A
//! token that starts with `-` is an option; an argumented option takes
//! the token right behind it as its value.
//!
//! What the matcher returns is stated once, over sequences of characters,
//! in `command::matching`; `command::laws` proves what follows from that
//! statement.

pub mod args;
pub mod command;
pub mod option;
pub mod text;
