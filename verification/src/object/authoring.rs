//! Authoring: the ops the shell dispatches to create, restyle and move objects.

pub mod drawing;
pub mod edit;
pub mod primitives;
pub mod templates;
