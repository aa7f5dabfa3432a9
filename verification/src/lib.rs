//! Pure, platform-free scene logic shared by client and server: fractional
//! order keys, last-writer-wins properties, the decision graph, and the object
//! model with its authoring and binding operations.

pub mod fractional;
pub mod key_order;
pub mod text;

pub use fractional::{cmp_keys, generate_key_between, generate_n_keys_between};
pub mod object;
pub mod command;
pub mod assoc;
pub mod lww;
pub mod canvas;
pub mod model;
pub mod graph;
pub mod op;
pub mod envelope;
pub mod apply;

pub use canvas::{new_canvas, Canvas, CanvasId, CanvasSummary};
pub use lww::{lww_merge_property, LwwEntry, LwwToken, PropertyStore};
