//! Server-authoritative per-property last-writer-wins: an independent winner
//! per `(object, property)`. The authority token is the server's monotonic
//! arrival `seq`; the higher `seq` wins. `revision` is informational and does
//! not take part in ordering. `seq` is injected by the caller.

use vstd::prelude::*;

use crate::assoc::{
    assoc, first_index, insert_position, lemma_assoc_absent, lemma_assoc_first, lemma_assoc_insert, lemma_assoc_push,
    lemma_assoc_update, lemma_sorted_insert, sorted_keys,
};
use crate::key_order::{chars_lt, lemma_chars_lt_total};
use crate::text::str_eq;

verus! {

/// A JSON value, carried through unchanged.
#[verifier::external_type_specification]
#[verifier::external_body]
pub struct ExJsonValue(serde_json::Value);

#[derive(Debug, PartialEq)]
pub struct LwwEntry {
    pub value: serde_json::Value,
    pub seq: i64,
}

/// `serde_json::Value::clone`: a deep copy, equal to the value copied.
#[verifier::external_body]
pub(crate) fn clone_json(v: &serde_json::Value) -> (r: serde_json::Value)
    ensures
        r == *v,
{
    v.clone()
}

impl Clone for LwwEntry {
    fn clone(&self) -> (r: Self)
        ensures
            r == *self,
    {
        LwwEntry { value: clone_json(&self.value), seq: self.seq }
    }
}

impl LwwEntry {
    pub fn new(value: serde_json::Value, seq: i64) -> (r: Self)
        ensures
            r.value == value,
            r.seq == seq,
    {
        LwwEntry { value, seq }
    }
}

/// `seq` is authoritative (server arrival order); `revision` is informational
/// only, never used to decide the winner.
#[derive(Clone, Copy, Debug, PartialEq, Eq, Structural)]
pub struct LwwToken {
    pub revision: i64,
    pub seq: i64,
}

impl LwwToken {
    pub fn new(revision: i64, seq: i64) -> (r: Self)
        ensures
            r.revision == revision,
            r.seq == seq,
    {
        LwwToken { revision, seq }
    }

    /// Strictly higher arrival seq wins; an equal seq does not win (an
    /// idempotent re-apply must not flip).
    pub fn wins_over(&self, other: &LwwToken) -> (r: bool)
        ensures
            r == (self.seq > other.seq),
    {
        self.seq > other.seq
    }
}

/// Whether `incoming` replaces `current`: the first writer always wins, a
/// later one only with a strictly higher `seq`.
pub open spec fn entry_wins(current: Option<LwwEntry>, incoming: LwwEntry) -> bool {
    match current {
        None => true,
        Some(cur) => incoming.seq > cur.seq,
    }
}

/// `true` for the first writer or a strictly-later arrival; an equal `seq`
/// returns `false` so replaying the same op is a no-op.
pub fn lww_merge_property(current: Option<&LwwEntry>, incoming: &LwwEntry) -> (r: bool)
    ensures
        r == entry_wins(
            match current {
                Some(c) => Some(*c),
                None => None,
            },
            *incoming,
        ),
{
    match current {
        None => true,
        Some(cur) => incoming.seq > cur.seq,
    }
}

/// The property map of one object.
pub open spec fn props_list(v: Seq<(String, LwwEntry)>) -> Seq<(Seq<char>, LwwEntry)> {
    v.map_values(|p: (String, LwwEntry)| (p.0@, p.1))
}

pub open spec fn objects_list(v: Seq<(String, Vec<(String, LwwEntry)>)>) -> Seq<
    (Seq<char>, Map<Seq<char>, LwwEntry>),
> {
    v.map_values(|p: (String, Vec<(String, LwwEntry)>)| (p.0@, assoc(props_list(p.1@))))
}

/// What one write does to the store: the new store and whether it won.
pub open spec fn spec_apply(
    m: Map<Seq<char>, Map<Seq<char>, LwwEntry>>,
    object_id: Seq<char>,
    property: Seq<char>,
    e: LwwEntry,
) -> (Map<Seq<char>, Map<Seq<char>, LwwEntry>>, bool) {
    let inner = if m.contains_key(object_id) {
        m[object_id]
    } else {
        Map::empty()
    };
    let cur = if inner.contains_key(property) {
        Some(inner[property])
    } else {
        None
    };
    if entry_wins(cur, e) {
        (m.insert(object_id, inner.insert(property, e)), true)
    } else {
        (m, false)
    }
}

/// Per-object, per-property winners, objects and properties each kept in key
/// order (byte order of the ids), so that what is read out, and serialized,
/// does not depend on the order the writes came in.
#[derive(Clone, Debug, PartialEq)]
pub struct PropertyStore {
    objects: Vec<(String, Vec<(String, LwwEntry)>)>,
}

impl View for PropertyStore {
    type V = Map<Seq<char>, Map<Seq<char>, LwwEntry>>;

    closed spec fn view(&self) -> Map<Seq<char>, Map<Seq<char>, LwwEntry>> {
        assoc(objects_list(self.objects@))
    }
}

fn find_property(v: &Vec<(String, LwwEntry)>, k: &str) -> (r: Option<usize>)
    ensures
        r matches Some(i) ==> first_index(props_list(v@), k@, i as int),
        r is None ==> forall|j: int| 0 <= j < v@.len() ==> props_list(v@)[j].0 != k@,
{
    let mut i: usize = 0;
    while i < v.len()
        invariant
            i <= v@.len(),
            forall|j: int| 0 <= j < i ==> props_list(v@)[j].0 != k@,
        decreases v@.len() - i,
    {
        if str_eq(v[i].0.as_str(), k) {
            return Some(i);
        }
        i = i + 1;
    }
    None
}

fn find_object(v: &Vec<(String, Vec<(String, LwwEntry)>)>, k: &str) -> (r: Option<usize>)
    ensures
        r matches Some(i) ==> first_index(objects_list(v@), k@, i as int),
        r is None ==> forall|j: int| 0 <= j < v@.len() ==> objects_list(v@)[j].0 != k@,
{
    let mut i: usize = 0;
    while i < v.len()
        invariant
            i <= v@.len(),
            forall|j: int| 0 <= j < i ==> objects_list(v@)[j].0 != k@,
        decreases v@.len() - i,
    {
        if str_eq(v[i].0.as_str(), k) {
            return Some(i);
        }
        i = i + 1;
    }
    None
}

/// Inserting `k`, absent from the ascending keys of `v`, where
/// [`insert_position`] puts it keeps them ascending.
proof fn lemma_insert_fresh<V>(v: Seq<(Seq<char>, V)>, p: int, k: Seq<char>, x: V)
    requires
        sorted_keys(v),
        0 <= p <= v.len(),
        forall|j: int| 0 <= j < v.len() ==> v[j].0 != k,
        forall|j: int| 0 <= j < p ==> chars_lt(#[trigger] v[j].0, k),
        forall|j: int| p <= j < v.len() ==> !chars_lt(#[trigger] v[j].0, k),
    ensures
        sorted_keys(v.insert(p, (k, x))),
{
    assert forall|j: int| p <= j < v.len() implies chars_lt(k, #[trigger] v[j].0) by {
        lemma_chars_lt_total(k, v[j].0);
    }
    lemma_sorted_insert(v, p, k, x);
}

impl PropertyStore {
    /// The objects, and each object's properties, are in ascending key order.
    pub closed spec fn wf(&self) -> bool {
        &&& sorted_keys(objects_list(self.objects@))
        &&& forall|i: int| 0 <= i < self.objects@.len() ==> sorted_keys(props_list(#[trigger] self.objects@[i].1@))
    }

    pub fn new() -> (r: Self)
        ensures
            r@ == Map::<Seq<char>, Map<Seq<char>, LwwEntry>>::empty(),
            r.wf(),
    {
        let r = PropertyStore { objects: Vec::new() };
        assert(objects_list(r.objects@) =~= Seq::empty());
        r
    }

    /// Writes `value` iff `seq` strictly exceeds the seq already stored there
    /// (or none is). Returns `true` when the incoming write won.
    pub fn apply(
        &mut self,
        object_id: &str,
        property: &str,
        value: serde_json::Value,
        seq: i64,
    ) -> (won: bool)
        requires
            old(self).wf(),
        ensures
            final(self).wf(),
            (final(self)@, won) == spec_apply(
                old(self)@,
                object_id@,
                property@,
                LwwEntry { value, seq },
            ),
    {
        let incoming = LwwEntry::new(value, seq);
        let ghost e = incoming;
        let ghost m = self@;
        match find_object(&self.objects, object_id) {
            None => {
                let mut props: Vec<(String, LwwEntry)> = Vec::new();
                props.push((property.to_owned(), incoming));
                proof {
                    lemma_assoc_absent(objects_list(self.objects@), object_id@);
                    assert(props_list(props@) =~= Seq::<(Seq<char>, LwwEntry)>::empty().push(
                        (property@, e),
                    ));
                    lemma_assoc_push(Seq::<(Seq<char>, LwwEntry)>::empty(), property@, e);
                    assert(assoc(Seq::<(Seq<char>, LwwEntry)>::empty()) =~= Map::empty());
                }
                let ghost old_objects = self.objects@;
                proof {
                    assert forall|a: int, b: int| 0 <= a < b < old_objects.len() implies chars_lt(
                        old_objects[a].0@,
                        old_objects[b].0@,
                    ) by {
                        assert(objects_list(old_objects)[a].0 == old_objects[a].0@);
                        assert(objects_list(old_objects)[b].0 == old_objects[b].0@);
                    }
                }
                let p = insert_position(&self.objects, object_id);
                let ghost entry = (object_id@, assoc(props_list(props@)));
                self.objects.insert(p, (object_id.to_owned(), props));
                proof {
                    let ol = objects_list(old_objects);
                    assert(objects_list(self.objects@) =~= ol.insert(p as int, entry));
                    lemma_assoc_insert(ol, p as int, object_id@, entry.1);
                    assert forall|j: int| 0 <= j < p implies chars_lt(#[trigger] ol[j].0, object_id@) by {
                        assert(ol[j].0 == old_objects[j].0@);
                    }
                    assert forall|j: int| p <= j < ol.len() implies !chars_lt(#[trigger] ol[j].0, object_id@) by {
                        assert(ol[j].0 == old_objects[j].0@);
                    }
                    lemma_insert_fresh(ol, p as int, object_id@, entry.1);
                    assert forall|i: int| 0 <= i < self.objects@.len() implies sorted_keys(
                        props_list(#[trigger] self.objects@[i].1@),
                    ) by {
                        if i < p {
                            assert(self.objects@[i] == old_objects[i]);
                        } else if i > p {
                            assert(self.objects@[i] == old_objects[i - 1]);
                        }
                    }
                }
                true
            },
            Some(i) => {
                let ghost old_objects = self.objects@;
                proof {
                    lemma_assoc_first(objects_list(old_objects), object_id@, i as int);
                }
                let (k, mut props) = self.objects.remove(i);
                let ghost old_props = props@;
                let won = match find_property(&props, property) {
                    None => {
                        proof {
                            lemma_assoc_absent(props_list(old_props), property@);
                            assert(old_objects[i as int].1@ == old_props);
                            assert forall|a: int, b: int| 0 <= a < b < old_props.len() implies chars_lt(
                                old_props[a].0@,
                                old_props[b].0@,
                            ) by {
                                assert(props_list(old_props)[a].0 == old_props[a].0@);
                                assert(props_list(old_props)[b].0 == old_props[b].0@);
                            }
                        }
                        let p = insert_position(&props, property);
                        props.insert(p, (property.to_owned(), incoming));
                        proof {
                            let pl = props_list(old_props);
                            assert(props_list(props@) =~= pl.insert(p as int, (property@, e)));
                            lemma_assoc_insert(pl, p as int, property@, e);
                            assert forall|j: int| 0 <= j < p implies chars_lt(#[trigger] pl[j].0, property@) by {
                                assert(pl[j].0 == old_props[j].0@);
                            }
                            assert forall|j: int| p <= j < pl.len() implies !chars_lt(#[trigger] pl[j].0, property@) by {
                                assert(pl[j].0 == old_props[j].0@);
                            }
                            lemma_insert_fresh(pl, p as int, property@, e);
                        }
                        true
                    },
                    Some(j) => {
                        proof {
                            lemma_assoc_first(props_list(old_props), property@, j as int);
                        }
                        if lww_merge_property(Some(&props[j].1), &incoming) {
                            props.set(j, (property.to_owned(), incoming));
                            proof {
                                assert(props_list(props@) =~= props_list(old_props).update(
                                    j as int,
                                    (property@, e),
                                ));
                                lemma_assoc_update(props_list(old_props), property@, j as int, e);
                                assert(old_objects[i as int].1@ == old_props);
                                assert(sorted_keys(props_list(props@)));
                            }
                            true
                        } else {
                            false
                        }
                    },
                };
                self.objects.insert(i, (k, props));
                proof {
                    assert(self.objects@ =~= old_objects.update(i as int, (k, props)));
                    assert(objects_list(self.objects@) =~= objects_list(old_objects).update(
                        i as int,
                        (object_id@, assoc(props_list(props@))),
                    ));
                    lemma_assoc_update(
                        objects_list(old_objects),
                        object_id@,
                        i as int,
                        assoc(props_list(props@)),
                    );
                    if !won {
                        assert(props@ =~= old_props);
                        assert(self@ =~= m);
                    }
                    assert(old_objects[i as int].1@ == old_props);
                    assert(sorted_keys(props_list(props@)));
                    let ol = objects_list(old_objects);
                    assert forall|a: int, b: int| 0 <= a < b < objects_list(self.objects@).len() implies chars_lt(
                        objects_list(self.objects@)[a].0,
                        objects_list(self.objects@)[b].0,
                    ) by {
                        assert(objects_list(self.objects@)[a].0 == ol[a].0);
                        assert(objects_list(self.objects@)[b].0 == ol[b].0);
                    }
                    assert forall|x: int| 0 <= x < self.objects@.len() implies sorted_keys(
                        props_list(#[trigger] self.objects@[x].1@),
                    ) by {
                        if x != i {
                            assert(self.objects@[x] == old_objects[x]);
                        }
                    }
                }
                won
            },
        }
    }

    pub fn get(&self, object_id: &str, property: &str) -> (r: Option<&LwwEntry>)
        ensures
            match r {
                Some(e) => self@.contains_key(object_id@) && self@[object_id@].contains_key(
                    property@,
                ) && self@[object_id@][property@] == *e,
                None => !(self@.contains_key(object_id@) && self@[object_id@].contains_key(
                    property@,
                )),
            },
    {
        match find_object(&self.objects, object_id) {
            None => {
                proof {
                    lemma_assoc_absent(objects_list(self.objects@), object_id@);
                }
                None
            },
            Some(i) => {
                proof {
                    lemma_assoc_first(objects_list(self.objects@), object_id@, i as int);
                }
                let props = &self.objects[i].1;
                match find_property(props, property) {
                    None => {
                        proof {
                            lemma_assoc_absent(props_list(props@), property@);
                        }
                        None
                    },
                    Some(j) => {
                        proof {
                            lemma_assoc_first(props_list(props@), property@, j as int);
                        }
                        Some(&props[j].1)
                    },
                }
            },
        }
    }

    pub fn get_value(&self, object_id: &str, property: &str) -> (r: Option<&serde_json::Value>)
        ensures
            match r {
                Some(v) => self@.contains_key(object_id@) && self@[object_id@].contains_key(
                    property@,
                ) && self@[object_id@][property@].value == *v,
                None => !(self@.contains_key(object_id@) && self@[object_id@].contains_key(
                    property@,
                )),
            },
    {
        match self.get(object_id, property) {
            Some(e) => Some(&e.value),
            None => None,
        }
    }

    /// Every object with its property entries, objects and properties each in
    /// ascending key order.
    pub fn entries(&self) -> (r: &Vec<(String, Vec<(String, LwwEntry)>)>)
        requires
            self.wf(),
        ensures
            assoc(objects_list(r@)) == self@,
            sorted_keys(objects_list(r@)),
            forall|i: int| 0 <= i < r@.len() ==> sorted_keys(props_list(#[trigger] r@[i].1@)),
    {
        &self.objects
    }

    /// The property entries of one object, in ascending key order.
    pub fn object(&self, object_id: &str) -> (r: Option<&Vec<(String, LwwEntry)>>)
        requires
            self.wf(),
        ensures
            match r {
                Some(props) => self@.contains_key(object_id@) && self@[object_id@] == assoc(
                    props_list(props@),
                ) && sorted_keys(props_list(props@)),
                None => !self@.contains_key(object_id@),
            },
    {
        match find_object(&self.objects, object_id) {
            None => {
                proof {
                    lemma_assoc_absent(objects_list(self.objects@), object_id@);
                }
                None
            },
            Some(i) => {
                proof {
                    lemma_assoc_first(objects_list(self.objects@), object_id@, i as int);
                }
                Some(&self.objects[i].1)
            },
        }
    }
}

impl Default for PropertyStore {
    fn default() -> (r: Self)
        ensures
            r@ == Map::<Seq<char>, Map<Seq<char>, LwwEntry>>::empty(),
            r.wf(),
    {
        PropertyStore::new()
    }
}

/// Replaying a write is a no-op: the second application loses and leaves the
/// store unchanged.
pub proof fn lemma_replay_is_noop(
    m: Map<Seq<char>, Map<Seq<char>, LwwEntry>>,
    object_id: Seq<char>,
    property: Seq<char>,
    e: LwwEntry,
)
    ensures
        ({
            let m1 = spec_apply(m, object_id, property, e).0;
            spec_apply(m1, object_id, property, e) == (m1, false)
        }),
{
}

/// Convergence: two writes with distinct seqs to the same property leave the
/// same store whichever arrives first.
pub proof fn lemma_arrival_order_irrelevant(
    m: Map<Seq<char>, Map<Seq<char>, LwwEntry>>,
    object_id: Seq<char>,
    property: Seq<char>,
    e1: LwwEntry,
    e2: LwwEntry,
)
    requires
        e1.seq != e2.seq,
    ensures
        spec_apply(spec_apply(m, object_id, property, e1).0, object_id, property, e2).0
            == spec_apply(spec_apply(m, object_id, property, e2).0, object_id, property, e1).0,
{
    let inner = if m.contains_key(object_id) {
        m[object_id]
    } else {
        Map::empty()
    };
    let cur = if inner.contains_key(property) {
        Some(inner[property])
    } else {
        None
    };
    let m1 = spec_apply(m, object_id, property, e1).0;
    let m2 = spec_apply(m, object_id, property, e2).0;
    let a = spec_apply(m1, object_id, property, e2).0;
    let b = spec_apply(m2, object_id, property, e1).0;
    let w1 = entry_wins(cur, e1);
    let w2 = entry_wins(cur, e2);
    // The entry that ends up stored: the highest seq among the current one and
    // both writes.
    if !w1 && !w2 {
        assert(a == m && b == m);
    } else if w1 && !w2 {
        assert(m1 == m.insert(object_id, inner.insert(property, e1)));
        assert(m2 == m);
        assert(m1[object_id] == inner.insert(property, e1));
        assert(m1[object_id][property] == e1);
        assert(!entry_wins(Some(e1), e2));
        assert(a == m1);
        assert(b == m1);
    } else if !w1 && w2 {
        assert(m2[object_id] == inner.insert(property, e2));
        assert(m2[object_id][property] == e2);
        assert(m1 == m);
        assert(a == m2);
        assert(b == m2);
    } else {
        assert(m1[object_id] == inner.insert(property, e1));
        assert(m2[object_id] == inner.insert(property, e2));
        assert(m1[object_id][property] == e1);
        assert(m2[object_id][property] == e2);
        assert(m1[object_id].insert(property, e2) =~= inner.insert(property, e2));
        assert(m2[object_id].insert(property, e1) =~= inner.insert(property, e1));
        if e1.seq < e2.seq {
            assert(a =~= m.insert(object_id, inner.insert(property, e2)));
            assert(b == m2);
        } else {
            assert(b =~= m.insert(object_id, inner.insert(property, e1)));
            assert(a == m1);
        }
    }
}

/// A write never touches another object or another property of the same object.
pub proof fn lemma_write_is_local(
    m: Map<Seq<char>, Map<Seq<char>, LwwEntry>>,
    object_id: Seq<char>,
    property: Seq<char>,
    e: LwwEntry,
    other_object: Seq<char>,
    other_property: Seq<char>,
)
    requires
        other_object != object_id || other_property != property,
        m.contains_key(other_object) && m[other_object].contains_key(other_property),
    ensures
        ({
            let m1 = spec_apply(m, object_id, property, e).0;
            m1.contains_key(other_object) && m1[other_object].contains_key(other_property)
                && m1[other_object][other_property] == m[other_object][other_property]
        }),
{
}

} // verus!
