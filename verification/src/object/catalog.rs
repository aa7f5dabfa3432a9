//! Static catalogs the shells render: theme tokens and the inspector and
//! gesture vocabularies.

pub mod gestures;
pub mod inspector;
pub mod theme;
