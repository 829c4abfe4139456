//! A minimal declarative pipeline runner.
//!
//! A [`pipeline::Pipeline`] is an ordered list of actions. Each action names a
//! node, which is looked up in a [`node::NodeRegistry`], built afresh and run
//! against a shared [`context::TypedContext`]. The run stops at the first
//! action that fails.

pub mod context;
pub mod node;
pub mod text;
pub mod pipeline;
