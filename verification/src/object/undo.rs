//! Undo of any op: the inverse an op returns gives back the scene's objects,
//! each once and field for field, whatever the op was.
//!
//! Ops find objects by id, never by position, so what an op does to a scene
//! does not depend on the order the scene holds its objects in. That is what
//! lets the inverse of a batch that deletes objects (whose re-inserts append)
//! still put every object back.

use vstd::prelude::*;

use crate::object::apply::{
    applied, delete_at, first_missing, has_object, index_of, lemma_step_version, lemma_steps_append,
    lemma_undo, moved_to_end, prune, step, steps, undoable, walk_reaches, with_object,
};
use crate::object::model::{object_index, AnchorView, ObjectSceneView, ObjectView};
use crate::object::op::ObjectOpView;

verus! {

/// The ids of `objects` are distinct.
pub open spec fn distinct_ids(objects: Seq<ObjectView>) -> bool {
    forall|j: int, k: int| 0 <= j < k < objects.len() ==> objects[j].id != objects[k].id
}

/// `t` holds the objects of `s`, each once and field for field, in some
/// order, and the tags, selection and update time of `s` (the version may
/// differ).
pub open spec fn same_up_to_order(s: ObjectSceneView, t: ObjectSceneView) -> bool {
    &&& t.tags == s.tags
    &&& t.selection == s.selection
    &&& t.updated_at == s.updated_at
    &&& s.objects.len() == t.objects.len()
    &&& distinct_ids(s.objects)
    &&& distinct_ids(t.objects)
    &&& forall|j: int| 0 <= j < t.objects.len() ==> s.objects.contains(#[trigger] t.objects[j])
    &&& forall|k: int| 0 <= k < s.objects.len() ==> t.objects.contains(#[trigger] s.objects[k])
}

proof fn lemma_same_refl(s: ObjectSceneView)
    requires
        distinct_ids(s.objects),
    ensures
        same_up_to_order(s, s),
{
    assert forall|j: int| 0 <= j < s.objects.len() implies s.objects.contains(#[trigger] s.objects[j]) by {}
}

proof fn lemma_same_trans(s: ObjectSceneView, t: ObjectSceneView, u: ObjectSceneView)
    requires
        same_up_to_order(s, t),
        same_up_to_order(t, u),
    ensures
        same_up_to_order(s, u),
{
    assert forall|j: int| 0 <= j < u.objects.len() implies s.objects.contains(#[trigger] u.objects[j]) by {
        assert(t.objects.contains(u.objects[j]));
        let k = choose|k: int| 0 <= k < t.objects.len() && t.objects[k] == u.objects[j];
        assert(s.objects.contains(t.objects[k]));
    }
    assert forall|j: int| 0 <= j < s.objects.len() implies u.objects.contains(#[trigger] s.objects[j]) by {
        assert(t.objects.contains(s.objects[j]));
        let k = choose|k: int| 0 <= k < t.objects.len() && t.objects[k] == s.objects[j];
        assert(u.objects.contains(t.objects[k]));
    }
}

/// With distinct ids, the first object with id `id` is the one with it.
proof fn lemma_first(a: Seq<ObjectView>, id: Seq<char>)
    requires
        distinct_ids(a),
    ensures
        (exists|i: int| object_index(a, id, i)) <==> (exists|j: int| 0 <= j < a.len() && a[j].id == id),
        forall|j: int|
            0 <= j < a.len() && (#[trigger] a[j]).id == id ==> object_index(a, id, j) && (choose|i: int|
                object_index(a, id, i)) == j,
{
    assert forall|j: int| 0 <= j < a.len() && (#[trigger] a[j]).id == id implies object_index(a, id, j) && (choose|i: int|
        object_index(a, id, i)) == j by {
        assert forall|k: int| 0 <= k < j implies a[k].id != id by {}
        assert(object_index(a, id, j));
        let c = choose|i: int| object_index(a, id, i);
        assert(object_index(a, id, c));
        if c != j {
            assert(a[c].id == id);
        }
    }
    if exists|j: int| 0 <= j < a.len() && a[j].id == id {
        let j = choose|j: int| 0 <= j < a.len() && a[j].id == id;
        assert(object_index(a, id, j));
    }
}

/// Two scenes that hold the same objects find the same object by any id.
proof fn lemma_index_same(s: ObjectSceneView, t: ObjectSceneView, id: Seq<char>)
    requires
        same_up_to_order(s, t),
    ensures
        has_object(s, id) == has_object(t, id),
        index_of(s, id) is Some <==> has_object(s, id),
        index_of(t, id) is Some <==> has_object(t, id),
        index_of(s, id) is Some ==> {
            let i = index_of(s, id)->0;
            let i2 = index_of(t, id)->0;
            &&& 0 <= i < s.objects.len()
            &&& 0 <= i2 < t.objects.len()
            &&& s.objects[i].id == id
            &&& s.objects[i] == t.objects[i2]
        },
{
    lemma_first(s.objects, id);
    lemma_first(t.objects, id);
    if has_object(s, id) {
        let k = choose|k: int| 0 <= k < s.objects.len() && s.objects[k].id == id;
        assert(t.objects.contains(s.objects[k]));
        let k2 = choose|k2: int| 0 <= k2 < t.objects.len() && t.objects[k2] == s.objects[k];
        assert(t.objects[k2].id == id);
        assert(index_of(s, id) == Some(k));
        assert(index_of(t, id) == Some(k2));
    }
    if has_object(t, id) {
        let k2 = choose|k2: int| 0 <= k2 < t.objects.len() && t.objects[k2].id == id;
        assert(s.objects.contains(t.objects[k2]));
        let k = choose|k: int| 0 <= k < s.objects.len() && s.objects[k] == t.objects[k2];
        assert(s.objects[k].id == id);
    }
}

/// Replacing the object with id `id` by one that keeps its id keeps two
/// scenes holding the same objects.
proof fn lemma_with_same(s: ObjectSceneView, t: ObjectSceneView, id: Seq<char>)
    requires
        same_up_to_order(s, t),
        has_object(s, id),
    ensures
        forall|o: ObjectView|
            o.id == id ==> same_up_to_order(
                #[trigger] with_object(s, index_of(s, id)->0, o),
                with_object(t, index_of(t, id)->0, o),
            ),
{
    lemma_index_same(s, t, id);
    let i = index_of(s, id)->0;
    let i2 = index_of(t, id)->0;
    assert forall|o: ObjectView| o.id == id implies same_up_to_order(
        #[trigger] with_object(s, i, o),
        with_object(t, i2, o),
    ) by {
        let a = with_object(s, i, o).objects;
        let b = with_object(t, i2, o).objects;
        assert forall|j: int| 0 <= j < a.len() implies (#[trigger] a[j]).id == s.objects[j].id by {}
        assert forall|j: int| 0 <= j < b.len() implies (#[trigger] b[j]).id == t.objects[j].id by {}
        assert forall|j: int| 0 <= j < b.len() implies a.contains(#[trigger] b[j]) by {
            if j == i2 {
                assert(a[i] == o);
            } else {
                assert(s.objects.contains(t.objects[j]));
                let k = choose|k: int| 0 <= k < s.objects.len() && s.objects[k] == t.objects[j];
                assert(t.objects[j].id != t.objects[i2].id);
                assert(k != i);
                assert(a[k] == b[j]);
            }
        }
        assert forall|k: int| 0 <= k < a.len() implies b.contains(#[trigger] a[k]) by {
            if k == i {
                assert(b[i2] == o);
            } else {
                assert(t.objects.contains(s.objects[k]));
                let j = choose|j: int| 0 <= j < t.objects.len() && t.objects[j] == s.objects[k];
                assert(s.objects[k].id != s.objects[i].id);
                assert(j != i2);
                assert(b[j] == a[k]);
            }
        }
    }
}

/// Appending an object with a new id keeps two scenes holding the same
/// objects.
proof fn lemma_push_same(s: ObjectSceneView, t: ObjectSceneView, o: ObjectView)
    requires
        same_up_to_order(s, t),
        !has_object(s, o.id),
    ensures
        same_up_to_order(
            ObjectSceneView { objects: s.objects.push(o), ..s },
            ObjectSceneView { objects: t.objects.push(o), ..t },
        ),
{
    lemma_index_same(s, t, o.id);
    let a = s.objects.push(o);
    let b = t.objects.push(o);
    let n = s.objects.len() as int;
    assert forall|j: int, k: int| 0 <= j < k < a.len() implies a[j].id != a[k].id by {
        if k == n {
            assert(a[j] == s.objects[j]);
        }
    }
    assert forall|j: int, k: int| 0 <= j < k < b.len() implies b[j].id != b[k].id by {
        if k == n {
            assert(b[j] == t.objects[j]);
        }
    }
    assert forall|j: int| 0 <= j < b.len() implies a.contains(#[trigger] b[j]) by {
        if j == n {
            assert(a[n] == o);
        } else {
            assert(s.objects.contains(t.objects[j]));
            let k = choose|k: int| 0 <= k < s.objects.len() && s.objects[k] == t.objects[j];
            assert(a[k] == b[j]);
        }
    }
    assert forall|k: int| 0 <= k < a.len() implies b.contains(#[trigger] a[k]) by {
        if k == n {
            assert(b[n] == o);
        } else {
            assert(t.objects.contains(s.objects[k]));
            let j = choose|j: int| 0 <= j < t.objects.len() && t.objects[j] == s.objects[k];
            assert(b[j] == a[k]);
        }
    }
}

/// The objects left when object `i` is deleted, with their anchors onto it
/// pruned.
spec fn pruned_rest(a: Seq<ObjectView>, i: int) -> Seq<ObjectView> {
    a.remove(i).map_values(|p: ObjectView| prune(p, a[i].id))
}

/// One way of [`lemma_delete_same`]: what deleting from `b` leaves is in what
/// deleting the same object from `a` leaves.
proof fn lemma_delete_into(a: Seq<ObjectView>, b: Seq<ObjectView>, ia: int, ib: int)
    requires
        distinct_ids(a),
        distinct_ids(b),
        0 <= ia < a.len(),
        0 <= ib < b.len(),
        a[ia] == b[ib],
        forall|j: int| 0 <= j < b.len() ==> a.contains(#[trigger] b[j]),
    ensures
        forall|j: int| 0 <= j < b.len() - 1 ==> pruned_rest(a, ia).contains(#[trigger] pruned_rest(b, ib)[j]),
{
    let id = a[ia].id;
    let ra = pruned_rest(a, ia);
    let rb = pruned_rest(b, ib);
    assert forall|j: int| 0 <= j < b.len() - 1 implies ra.contains(#[trigger] rb[j]) by {
        let jb = if j < ib { j } else { j + 1 };
        assert(b.remove(ib)[j] == b[jb]);
        assert(a.contains(b[jb]));
        let k = choose|k: int| 0 <= k < a.len() && a[k] == b[jb];
        assert(b[jb].id != b[ib].id);
        assert(k != ia);
        let ka = if k < ia { k } else { k - 1 };
        assert(a.remove(ia)[ka] == a[k]);
        assert(ra[ka] == rb[j]);
    }
}

/// Deleting the same object from two scenes that hold the same objects
/// leaves two scenes that hold the same objects.
proof fn lemma_delete_same(s: ObjectSceneView, t: ObjectSceneView, i: int, i2: int)
    requires
        same_up_to_order(s, t),
        0 <= i < s.objects.len(),
        0 <= i2 < t.objects.len(),
        s.objects[i] == t.objects[i2],
    ensures
        same_up_to_order(delete_at(s, i).0, delete_at(t, i2).0),
{
    let id = s.objects[i].id;
    lemma_delete_into(s.objects, t.objects, i, i2);
    lemma_delete_into(t.objects, s.objects, i2, i);
    let a = delete_at(s, i).0.objects;
    let b = delete_at(t, i2).0.objects;
    assert(a == pruned_rest(s.objects, i));
    assert(b == pruned_rest(t.objects, i2));
    assert forall|j: int, k: int| 0 <= j < k < a.len() implies a[j].id != a[k].id by {
        assert(a[j].id == s.objects.remove(i)[j].id);
        assert(a[k].id == s.objects.remove(i)[k].id);
        let jj = if j < i { j } else { j + 1 };
        let kk = if k < i { k } else { k + 1 };
        assert(s.objects.remove(i)[j] == s.objects[jj]);
        assert(s.objects.remove(i)[k] == s.objects[kk]);
    }
    assert forall|j: int, k: int| 0 <= j < k < b.len() implies b[j].id != b[k].id by {
        assert(b[j].id == t.objects.remove(i2)[j].id);
        assert(b[k].id == t.objects.remove(i2)[k].id);
        let jj = if j < i2 { j } else { j + 1 };
        let kk = if k < i2 { k } else { k + 1 };
        assert(t.objects.remove(i2)[j] == t.objects[jj]);
        assert(t.objects.remove(i2)[k] == t.objects[kk]);
    }
}

/// The first missing anchor target is the same in two scenes that hold the
/// same objects.
proof fn lemma_missing_same(s: ObjectSceneView, t: ObjectSceneView, anchors: Seq<AnchorView>)
    requires
        same_up_to_order(s, t),
    ensures
        first_missing(s, anchors) == first_missing(t, anchors),
    decreases anchors.len(),
{
    if anchors.len() > 0 {
        lemma_index_same(s, t, anchors[0].target);
        lemma_missing_same(s, t, anchors.drop_first());
    }
}

/// Walking up the parent chain goes alike in two lists of the same objects.
proof fn lemma_walk_perm(s: ObjectSceneView, t: ObjectSceneView, id: Seq<char>, cur: Seq<char>, g: nat)
    requires
        same_up_to_order(s, t),
    ensures
        walk_reaches(s.objects, id, cur, g) == walk_reaches(t.objects, id, cur, g),
    decreases s.objects.len() + 2 - g,
{
    if cur == id || g + 1 > s.objects.len() + 1 {
    } else {
        lemma_index_same(s, t, cur);
        lemma_first(s.objects, cur);
        lemma_first(t.objects, cur);
        if has_object(s, cur) {
            let ia = choose|i: int| object_index(s.objects, cur, i);
            let ib = choose|i: int| object_index(t.objects, cur, i);
            assert(index_of(s, cur) == Some(ia));
            assert(index_of(t, cur) == Some(ib));
            match s.objects[ia].parent {
                Some(p) => {
                    lemma_walk_perm(s, t, id, p, g + 1);
                },
                None => {},
            }
        }
    }
}

/// An op does alike on two scenes that hold the same objects: it succeeds on
/// one exactly when it succeeds on the other, and the two scenes it leaves
/// hold the same objects.
#[verifier::spinoff_prover]
#[verifier::rlimit(40)]
proof fn lemma_step_same(s: ObjectSceneView, t: ObjectSceneView, op: ObjectOpView)
    requires
        same_up_to_order(s, t),
    ensures
        step(s, op) is Ok <==> step(t, op) is Ok,
        step(s, op) is Ok ==> same_up_to_order(step(s, op)->Ok_0.0, step(t, op)->Ok_0.0),
    decreases op,
{
    match op {
        ObjectOpView::InsertObject { object } => {
            lemma_index_same(s, t, object.id);
            let o = ObjectView { geometry: crate::object::path::ensured(object.geometry), ..object };
            if !has_object(s, object.id) {
                lemma_push_same(s, t, o);
            }
        },
        ObjectOpView::Delete { id } => {
            lemma_index_same(s, t, id);
            if has_object(s, id) {
                lemma_delete_same(s, t, index_of(s, id)->0, index_of(t, id)->0);
            }
        },
        ObjectOpView::EditGeometry { id, .. } => {
            lemma_edit_same(s, t, id);
        },
        ObjectOpView::SetTransform { id, .. } => {
            lemma_edit_same(s, t, id);
        },
        ObjectOpView::SetStyle { id, .. } => {
            lemma_edit_same(s, t, id);
        },
        ObjectOpView::SetText { id, .. } => {
            lemma_edit_same(s, t, id);
        },
        ObjectOpView::SetAnchor { id, anchors } => {
            lemma_missing_same(s, t, anchors);
            lemma_edit_same(s, t, id);
        },
        ObjectOpView::SetLayout { id, .. } => {
            lemma_edit_same(s, t, id);
        },
        ObjectOpView::SetClip { id, .. } => {
            lemma_edit_same(s, t, id);
        },
        ObjectOpView::AddComment { id, .. } => {
            lemma_edit_same(s, t, id);
        },
        ObjectOpView::SetComments { id, .. } => {
            lemma_edit_same(s, t, id);
        },
        ObjectOpView::SetTags { id, .. } => {
            lemma_edit_same(s, t, id);
        },
        ObjectOpView::Reorder { id, .. } => {
            lemma_edit_same(s, t, id);
        },
        ObjectOpView::Reparent { id, parent, .. } => {
            if parent is Some {
                lemma_walk_perm(s, t, id, parent->0, 0);
            }
            lemma_edit_same(s, t, id);
        },
        ObjectOpView::Batch { ops } => {
            lemma_steps_same(s, t, ops);
        },
        _ => {},
    }
}

proof fn lemma_edit_same(s: ObjectSceneView, t: ObjectSceneView, id: Seq<char>)
    requires
        same_up_to_order(s, t),
    ensures
        index_of(s, id) is Some <==> index_of(t, id) is Some,
        index_of(s, id) is Some ==> s.objects[index_of(s, id)->0] == t.objects[index_of(t, id)->0],
        index_of(s, id) is Some ==> forall|o: ObjectView|
            o.id == id ==> same_up_to_order(
                #[trigger] with_object(s, index_of(s, id)->0, o),
                with_object(t, index_of(t, id)->0, o),
            ),
        index_of(s, id) is Some ==> s.objects[index_of(s, id)->0].id == id,
{
    lemma_index_same(s, t, id);
    if has_object(s, id) {
        lemma_with_same(s, t, id);
    }
}

/// [`lemma_step_same`] for a run of ops.
proof fn lemma_steps_same(s: ObjectSceneView, t: ObjectSceneView, ops: Seq<ObjectOpView>)
    requires
        same_up_to_order(s, t),
    ensures
        steps(s, ops) is Ok <==> steps(t, ops) is Ok,
        steps(s, ops) is Ok ==> same_up_to_order(steps(s, ops)->Ok_0.0, steps(t, ops)->Ok_0.0),
    decreases ops,
{
    if ops.len() > 0 {
        lemma_step_same(s, t, ops[0]);
        if step(s, ops[0]) is Ok {
            lemma_steps_same(step(s, ops[0])->Ok_0.0, step(t, ops[0])->Ok_0.0, ops.drop_first());
        }
    }
}

/// Moving one object to the end keeps the scene's objects.
proof fn lemma_moved_same(s: ObjectSceneView, i: int)
    requires
        distinct_ids(s.objects),
        0 <= i < s.objects.len(),
    ensures
        same_up_to_order(s, moved_to_end(s, i)),
{
    let n = s.objects.len() as int;
    let t = moved_to_end(s, i);
    let src = |j: int| if j < i { j } else if j < n - 1 { j + 1 } else { i };
    assert forall|j: int| 0 <= j < n implies #[trigger] t.objects[j] == s.objects[src(j)] by {
        if j < n - 1 {
            assert(t.objects[j] == s.objects.remove(i)[j]);
        }
    }
    assert forall|j: int, k: int| 0 <= j < k < t.objects.len() implies t.objects[j].id != t.objects[k].id by {
        assert(t.objects[j] == s.objects[src(j)]);
        assert(t.objects[k] == s.objects[src(k)]);
        if src(j) < src(k) {
        } else {
            assert(src(k) < src(j));
        }
    }
    assert forall|j: int| 0 <= j < t.objects.len() implies s.objects.contains(#[trigger] t.objects[j]) by {
        assert(t.objects[j] == s.objects[src(j)]);
    }
    assert forall|k: int| 0 <= k < s.objects.len() implies t.objects.contains(#[trigger] s.objects[k]) by {
        let v = if k < i { k } else if k == i { n - 1 } else { k - 1 };
        assert(t.objects[v] == s.objects[src(v)]);
    }
}

/// Undo can be relied on along `op` from `s`: `s` is such a scene and, for a
/// batch, so is every scene along its ops, nested batches included.
pub open spec fn undo_ready(s: ObjectSceneView, op: ObjectOpView) -> bool
    decreases op,
{
    &&& undoable(s)
    &&& match op {
        ObjectOpView::Batch { ops } => undo_ready_along(s, ops),
        _ => true,
    }
}

/// [`undo_ready`] for each op of a run, from the scene the ops before it
/// leave, up to the first refusal.
pub open spec fn undo_ready_along(s: ObjectSceneView, ops: Seq<ObjectOpView>) -> bool
    decreases ops,
{
    ops.len() > 0 ==> {
        &&& undo_ready(s, ops[0])
        &&& match step(s, ops[0]) {
            Ok((s1, _)) => undo_ready_along(s1, ops.drop_first()),
            Err(_) => true,
        }
    }
}

proof fn lemma_undo_any(s: ObjectSceneView, op: ObjectOpView)
    requires
        undo_ready(s, op),
        step(s, op) is Ok,
    ensures
        step(step(s, op)->Ok_0.0, step(s, op)->Ok_0.1) is Ok,
        same_up_to_order(s, step(step(s, op)->Ok_0.0, step(s, op)->Ok_0.1)->Ok_0.0),
    decreases op, 0nat,
{
    match op {
        ObjectOpView::Batch { ops } => {
            lemma_steps_undo_any(s, ops);
        },
        ObjectOpView::Delete { id } => {
            lemma_undo(s, op);
            lemma_moved_same(s, index_of(s, id)->0);
        },
        _ => {
            lemma_undo(s, op);
            lemma_same_refl(s);
        },
    }
}

#[verifier::spinoff_prover]
#[verifier::rlimit(100)]
proof fn lemma_steps_undo_any(s: ObjectSceneView, ops: Seq<ObjectOpView>)
    requires
        undoable(s),
        undo_ready_along(s, ops),
        steps(s, ops) is Ok,
    ensures
        steps(steps(s, ops)->Ok_0.0, steps(s, ops)->Ok_0.1.reverse()) is Ok,
        same_up_to_order(s, steps(steps(s, ops)->Ok_0.0, steps(s, ops)->Ok_0.1.reverse())->Ok_0.0),
    decreases ops, 0nat,
{
    if ops.len() == 0 {
        assert(Seq::<ObjectOpView>::empty().reverse() =~= Seq::<ObjectOpView>::empty());
        lemma_same_refl(s);
    } else {
        let (s1, inv) = step(s, ops[0])->Ok_0;
        let rest = ops.drop_first();
        let (s2, invs) = steps(s1, rest)->Ok_0;
        assert(steps(s, ops)->Ok_0 == (s2, seq![inv] + invs));
        assert((seq![inv] + invs).reverse() =~= invs.reverse() + seq![inv]);
        lemma_steps_append(s2, invs.reverse(), seq![inv]);
        let u = if rest.len() == 0 {
            lemma_same_refl(s);
            lemma_step_same(s, s, ops[0]);
            assert(invs =~= Seq::<ObjectOpView>::empty());
            assert(invs.reverse() =~= Seq::<ObjectOpView>::empty());
            s1
        } else {
            assert(undo_ready_along(s1, rest));
            assert(undo_ready(s1, rest[0]));
            lemma_steps_undo_any(s1, rest);
            steps(s2, invs.reverse())->Ok_0.0
        };
        assert(steps(s2, invs.reverse()) is Ok && steps(s2, invs.reverse())->Ok_0.0 == u);
        lemma_undo_from(s, ops[0], u);
        let w = step(u, inv)->Ok_0.0;
        assert(seq![inv][0] == inv);
        assert(seq![inv].drop_first() =~= Seq::<ObjectOpView>::empty());
        assert(steps(w, seq![inv].drop_first()) is Ok && steps(w, seq![inv].drop_first())->Ok_0.0 == w);
        assert(steps(u, seq![inv]) is Ok && steps(u, seq![inv])->Ok_0.0 == w);
    }
}

/// Undoing `op` from a scene that holds the same objects as the one `op`
/// left: the inverse still succeeds and gives back `s`'s objects.
proof fn lemma_undo_from(s: ObjectSceneView, op: ObjectOpView, u: ObjectSceneView)
    requires
        undo_ready(s, op),
        step(s, op) is Ok,
        same_up_to_order(step(s, op)->Ok_0.0, u),
    ensures
        step(u, step(s, op)->Ok_0.1) is Ok,
        same_up_to_order(s, step(u, step(s, op)->Ok_0.1)->Ok_0.0),
    decreases op, 1nat,
{
    let (s1, inv) = step(s, op)->Ok_0;
    lemma_undo_any(s, op);
    lemma_step_same(s1, u, inv);
    lemma_same_trans(s, step(s1, inv)->Ok_0.0, step(u, inv)->Ok_0.0);
}

/// Undo restores the scene after any op, in a scene where undo can be relied
/// on along the op: applying the inverse that a successful op returns
/// succeeds, and leaves the scene's objects as they were, each once and field
/// for field, with the tags, selection and update time as they were and the
/// version two above. The objects may come back in another order: a delete's
/// inverse re-appends the deleted object ([`lemma_undo`] and
/// [`crate::object::apply::lemma_batch_undo`] give the exact order where
/// nothing is deleted).
#[verifier::spinoff_prover]
#[verifier::rlimit(100)]
pub proof fn lemma_undo_restores(s: ObjectSceneView, op: ObjectOpView)
    requires
        undo_ready(s, op),
        s.scene_version + 2 <= u64::MAX,
        applied(s, op) is Ok,
    ensures
        ({
            let (s1, inv) = applied(s, op)->Ok_0;
            &&& applied(s1, inv) is Ok
            &&& same_up_to_order(s, applied(s1, inv)->Ok_0.0)
            &&& applied(s1, inv)->Ok_0.0.scene_version == s.scene_version + 2
        }),
{
    let (t1, inv) = step(s, op)->Ok_0;
    lemma_step_version(s, op);
    let s1 = ObjectSceneView { scene_version: (s.scene_version + 1) as u64, ..t1 };
    assert(applied(s, op)->Ok_0 == (s1, inv));
    lemma_same_refl(s);
    lemma_step_same(s, s, op);
    lemma_version_same(t1, s1);
    lemma_undo_from(s, op, s1);
    lemma_step_version(s1, inv);
}

proof fn lemma_version_same(t: ObjectSceneView, t2: ObjectSceneView)
    requires
        distinct_ids(t.objects),
        t2 == (ObjectSceneView { scene_version: t2.scene_version, ..t }),
    ensures
        same_up_to_order(t, t2),
{
    lemma_same_refl(t);
}

} // verus!
