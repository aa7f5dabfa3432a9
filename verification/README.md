# scene_core

Pure scene logic for a canvas editor, written in Verus. Every function in
`src/` carries a contract. Verus proves them all except those of a few
trusted wrappers, whose contracts are assumed: the copies and the equality
of `serde_json` values and maps, `String::push`, and the debug form `{:?}`
that error messages quote keys in.

## Layout

- `src/fractional.rs`, `src/key_order.rs`: fractional order keys (base-62,
  byte order) and the key just above a scene's top.
- `src/lww.rs`, `src/assoc.rs`: last-writer-wins properties over ordered
  association lists.
- `src/graph.rs`: the decision graph, its patches, text digest and Mermaid
  rendering.
- `src/model.rs`, `src/op.rs`, `src/envelope.rs`, `src/apply.rs`: the shape
  scene, the render patches that edit it, operation envelopes and logs, and
  the validated, versioned application of patches.
- `src/object/`: the object model, path text, object ops and their undo,
  authoring (drawing, primitives, templates, duplication, drag roots),
  binding (move-together closure, anchors, grouping, regions), the move
  cascade, anchor follow on move and its chained form through reshaped
  targets and anchored lines (`src/object/binding/geometry_follow.rs`), undo of any op up to object order
  (`src/object/undo.rs`), and the static catalogs (theme, gestures,
  inspector).
- `src/canvas.rs`, `src/command.rs`: canvas records and the command palette.
- `src/object/authoring/templates.rs`: the template catalog, the recipes of
  the nine templates, and their lowering to insert ops.

Arithmetic on `f64` is not verified: where an edit depends on it (placing,
aligning and framing cards, shifting a duplicate, routing a moved object
to its commit op, reprojecting an anchor point, sizing a group's frame,
placing a template), the library takes it as a function argument and
states its contract over whatever that function returns. `app/` supplies
those functions, the JSON mirrors of the library's types, the GPU world
target, and the helpers that are floating point throughout: affine
decomposition, orientation canonicalization and anchor rehoming
(`app/affine.rs`), freehand simplification, curve fitting and the brush
(`app/drawing.rs`), the primitive builders (`app/primitives.rs`), and
auto-layout solving (`app/layout.rs`), which takes each object's sizing
from its caller since the object model carries none.

## Not covered

Neither the library nor `app/` holds the merging of open strokes or the
inspector's reading and editing of control values: they rest on stroke
recognition and on object fields (sizing, name, visibility, lock) that
this object model does not carry.

## Tests

`tests/` exercises the library through its public API.
