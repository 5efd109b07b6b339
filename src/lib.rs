//! A small interactive command interpreter: tokenizing, an index of the
//! executables on the search path, the built-in commands and the decision
//! of what each input line does.
pub mod builtins;
pub mod error;
pub mod index;
pub mod shell;
pub mod tokens;
