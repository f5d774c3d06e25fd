//! Fine-grained tree shaking: a module is split into the smallest groups of
//! top-level statements that can be kept or dropped on their own, each group
//! is given a number and the numbers of the groups that it needs, and every
//! group can be addressed, taken out as a unit of its own and used as a node
//! of the module graph.
//!
//! - [`parse`]: the analyzable form of a module.
//! - [`dependency`], [`graph`], [`component`], [`counting`]: the dependency
//!   graph of the statements, reachability in it, and the numbering of its
//!   strongly connected groups.
//! - [`split`]: the split of a module into parts.
//! - [`part`], [`resolve`]: the addresses of parts, and finding and taking out
//!   the part that an address names.
//! - [`asset`], [`ident`], [`error`]: a part as a node of the module graph.
//! - [`guarantees`]: what holds of every split.
//! - [`output`], [`text`]: the output of a task, and decimal text.

pub mod asset;
pub mod component;
pub mod counting;
pub mod dependency;
pub mod error;
pub mod graph;
pub mod guarantees;
pub mod ident;
pub mod output;
pub mod parse;
pub mod part;
pub mod resolve;
pub mod split;
pub mod text;
