//! Relations between objects: what moves together, anchors, grouping, and
//! the derived regions anchors project onto.

pub mod anchors;
pub mod geometry_follow;
pub mod grouping;
pub mod move_together;
pub mod region;
