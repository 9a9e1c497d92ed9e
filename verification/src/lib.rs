//! A small simulated multi-computer operating system: a virtual filesystem
//! with POSIX-like paths, computers with users and an environment, a shell
//! tokenizer, and the built-in programs of the shell, all stated over
//! mathematical models and proved against them.

pub mod text;
pub mod path;
pub mod subprocess;
pub mod security;
pub mod date;
pub mod fs;
pub mod computer;
pub mod command;
pub mod ipc;
pub mod game;
pub mod password;
pub mod pinpad;
pub mod completion;
