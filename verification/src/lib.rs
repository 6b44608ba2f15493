//! ShellClaw's verified core: the rules that decide what a Zsh autocomplete
//! request is answered with, and the rules of the daemon around it.

pub mod config;
pub mod deadline;
pub mod ipc;
pub mod lifecycle;
pub mod memory;
pub mod model;
pub mod num;
pub mod protocol;
pub mod scheduler;
pub mod session;
pub mod setup;
pub mod text;
