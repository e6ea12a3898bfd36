//! The builtin tools: their manuals, how their arguments are read, and how
//! their answers are written. Running commands, the network and the file
//! system belong to the caller.
pub mod manual;
pub mod shell;
pub mod text;
pub mod web;
pub mod knowledge_base;
pub mod tmux;
