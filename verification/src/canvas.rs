//! The canvas is the unit of document, sync, actor, lease, and routing. It owns
//! one scene; `canvasId` is a document/storage dimension keyed at the wrapper
//! level, never a per-object property.

use vstd::prelude::*;

verus! {

/// A canvas identifier: a bare string.
#[derive(Clone, Debug, PartialEq, Eq, Hash, PartialOrd, Ord)]
pub struct CanvasId(pub String);

impl CanvasId {
    /// The identifier as a string (what the wire shows).
    pub fn to_string(&self) -> (r: String)
        ensures
            r@ == self.0@,
    {
        self.0.clone()
    }
}

impl CanvasId {
    /// The identifier holding `value`.
    pub fn of_str(value: &str) -> (r: Self)
        ensures
            r.0@ == value@,
    {
        CanvasId(value.to_owned())
    }
}

impl<'a> From<&'a str> for CanvasId {
    fn from(value: &'a str) -> (r: Self) {
        CanvasId::of_str(value)
    }
}

impl<'a> vstd::std_specs::convert::FromSpecImpl<&'a str> for CanvasId {
    /// A `String` cannot be named from its characters in a spec, so the
    /// conversion promises nothing through this trait; [`CanvasId::of_str`]
    /// states the result.
    open spec fn obeys_from_spec() -> bool {
        false
    }

    open spec fn from_spec(v: &'a str) -> Self {
        arbitrary()
    }
}

impl From<String> for CanvasId {
    fn from(value: String) -> (r: Self) {
        CanvasId(value)
    }
}

impl vstd::std_specs::convert::FromSpecImpl<String> for CanvasId {
    open spec fn obeys_from_spec() -> bool {
        true
    }

    open spec fn from_spec(v: String) -> Self {
        CanvasId(v)
    }
}

#[derive(Clone, Debug, PartialEq, Eq)]
pub struct Canvas {
    pub id: CanvasId,
    pub title: String,
    pub created_at: String,
    pub updated_at: String,
}

#[derive(Clone, Debug, PartialEq, Eq)]
pub struct CanvasSummary {
    pub id: CanvasId,
    pub title: String,
    pub updated_at: String,
}

/// `now` is the injected clock value (RFC3339 string) for both timestamps.
pub fn new_canvas(id: &str, title: &str, now: &str) -> (r: Canvas)
    ensures
        r.id.0@ == id@,
        r.title@ == title@,
        r.created_at@ == now@,
        r.updated_at@ == now@,
{
    Canvas {
        id: CanvasId::of_str(id),
        title: title.to_owned(),
        created_at: now.to_owned(),
        updated_at: now.to_owned(),
    }
}

} // verus!
