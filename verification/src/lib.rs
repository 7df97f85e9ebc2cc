//! Verified core of the rtok token-saving toolkit.

pub mod text;
pub mod digest;
pub mod memory_sync;
pub mod uri;
pub mod wire;
pub mod proxy;
pub mod render;
pub mod guard;
pub mod skill;
pub mod live;
pub mod plugin;
pub mod path;
pub mod read;
pub mod outline;
pub mod graph;
pub mod report;
pub mod advice;
pub mod markdown;
pub mod html;
pub mod memory;
pub mod handoff;
pub mod import;
pub mod project;
pub mod inject;
pub mod toon;
pub mod ai;
pub mod cli;
pub mod comments;
pub mod syntax;
pub mod tags;
pub mod dead;
pub mod semantic_cache;
pub mod tools_rewrite;
pub mod search;
pub mod index;
pub mod lsp;
pub mod turns;
pub mod pdf;
pub mod walk;
