//! The object model and the operations that author, apply and bind objects.

pub mod anchor_follow;
pub mod apply;
pub mod cascade;
pub mod authoring;
pub mod binding;
pub mod catalog;
pub mod model;
pub mod op;
pub mod path;
pub mod undo;
