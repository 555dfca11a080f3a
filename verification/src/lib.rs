//! Core of a small interactive shell: the tokenizer, the pipeline parser, the
//! executable resolver, the builtin dispatcher, the pipeline execution plan,
//! and the tab-completion engine.
//!
//! Everything here is pure with respect to the operating system except the
//! executable resolver, which probes the filesystem through one trusted call;
//! line editing, process spawning and file redirection are left to the
//! embedding program, which drives these functions.

pub mod builtins;
pub mod completion;
pub mod executor;
pub mod parser;
pub mod resolver;
pub mod session;
pub mod text;
pub mod tokenizer;
