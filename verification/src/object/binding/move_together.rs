//! The move-together propagation graph: which objects ride along when some
//! objects are dragged.
//!
//! Two relationships make objects move together:
//! - SameDelta (containment): moving a parent applies the same world delta to
//!   every descendant. The graph stores `parent -> child` edges.
//! - Reproject (anchors): a node anchored to a `target` reprojects when the
//!   target moves. The graph stores `target -> follower` edges.
//!
//! [`BindingGraph`] is built once per feed; a query walks only the closure.

use vstd::prelude::*;

use crate::assoc::{
    assoc, first_index, lemma_assoc_absent, lemma_assoc_first, lemma_assoc_push,
    lemma_assoc_update, lemma_assoc_value, lemma_distinct_len_bound,
};
use crate::text::{contains_str, str_eq, strs};

verus! {

/// The binding inputs of one scene object: its `id`, its containment `parent`
/// (a SameDelta source) and its anchor targets (Reproject sources).
pub struct BindingNode {
    pub id: String,
    pub parent: Option<String>,
    pub anchor_targets: Vec<String>,
}

#[derive(Clone, Copy, Debug, PartialEq, Eq, Structural)]
pub enum PropKind {
    SameDelta,
    Reproject,
}

#[derive(Clone, Debug, PartialEq, Eq)]
pub struct PropEdge {
    pub id: String,
    pub kind: PropKind,
}

/// An edge as (the id it leads to, its kind).
pub type EdgeView = (Seq<char>, PropKind);

impl View for PropEdge {
    type V = EdgeView;

    open spec fn view(&self) -> EdgeView {
        (self.id@, self.kind)
    }
}

/// The characters of each pair of strings.
pub open spec fn pairs(v: Seq<(String, String)>) -> Seq<(Seq<char>, Seq<char>)> {
    v.map_values(|p: (String, String)| (p.0@, p.1@))
}

pub open spec fn edges_view(v: Seq<PropEdge>) -> Seq<EdgeView> {
    v.map_values(|e: PropEdge| e@)
}

/// The Reproject edges toward `follower` that anchors onto `id` contribute:
/// one per occurrence of `id` among `targets`, in order.
pub open spec fn anchor_edges(follower: Seq<char>, targets: Seq<Seq<char>>, id: Seq<char>) -> Seq<
    EdgeView,
>
    decreases targets.len(),
{
    if targets.len() == 0 {
        seq![]
    } else {
        let rest = anchor_edges(follower, targets.drop_last(), id);
        if targets.last() == id {
            rest.push((follower, PropKind::Reproject))
        } else {
            rest
        }
    }
}

/// The SameDelta edge a node contributes out of `id`: one when `id` is its parent.
pub open spec fn parent_edges(node: BindingNode, id: Seq<char>) -> Seq<EdgeView> {
    match node.parent {
        Some(p) => if p@ == id {
            seq![(node.id@, PropKind::SameDelta)]
        } else {
            seq![]
        },
        None => seq![],
    }
}

/// The outgoing edges of `id` that `nodes` give, in node order: each node's
/// SameDelta edge first, then its Reproject edges.
pub open spec fn out_edges_of(nodes: Seq<BindingNode>, id: Seq<char>) -> Seq<EdgeView>
    decreases nodes.len(),
{
    if nodes.len() == 0 {
        seq![]
    } else {
        out_edges_of(nodes.drop_last(), id) + parent_edges(nodes.last(), id) + anchor_edges(
            nodes.last().id@,
            strs(nodes.last().anchor_targets@),
            id,
        )
    }
}

/// The adjacency list as keys and edge views.
pub open spec fn adj_list(v: Seq<(String, Vec<PropEdge>)>) -> Seq<(Seq<char>, Seq<EdgeView>)> {
    v.map_values(|p: (String, Vec<PropEdge>)| (p.0@, edges_view(p.1@)))
}

/// The outgoing edges an adjacency list gives `id` (none when it is absent).
pub open spec fn out_of(v: Seq<(String, Vec<PropEdge>)>, id: Seq<char>) -> Seq<EdgeView> {
    let m = assoc(adj_list(v));
    if m.contains_key(id) {
        m[id]
    } else {
        seq![]
    }
}

/// Every id an edge of the list leads to.
pub open spec fn edge_ids(s: Seq<(Seq<char>, Seq<EdgeView>)>) -> Seq<Seq<char>>
    decreases s.len(),
{
    if s.len() == 0 {
        seq![]
    } else {
        edge_ids(s.drop_last()) + s.last().1.map_values(|e: EdgeView| e.0)
    }
}

/// `id -> outgoing edges`, combining SameDelta and Reproject.
#[derive(Clone, Debug)]
pub struct BindingGraph {
    adjacency: Vec<(String, Vec<PropEdge>)>,
}

/// `child` rides the same delta as `parent`.
pub open spec fn same_delta_child(g: BindingGraph, parent: Seq<char>, child: Seq<char>) -> bool {
    g.out(parent).contains((child, PropKind::SameDelta))
}

/// Every SameDelta child of a member is a member.
pub open spec fn closed_under_same_delta(g: BindingGraph, sd: Seq<Seq<char>>) -> bool {
    forall|i: int, k: int|
        0 <= i < sd.len() && 0 <= k < g.out(sd[i]).len() && (#[trigger] g.out(sd[i])[k]).1
            == PropKind::SameDelta ==> sd.contains(g.out(sd[i])[k].0)
}

/// `list` with the SameDelta children among the first `k` edges out of `cur`
/// appended in edge order, each unless it is already there.
pub open spec fn with_children_upto(g: BindingGraph, list: Seq<Seq<char>>, cur: Seq<char>, k: int) -> Seq<
    Seq<char>,
>
    decreases k,
{
    if k <= 0 {
        list
    } else {
        let l = with_children_upto(g, list, cur, k - 1);
        let e = g.out(cur)[k - 1];
        if e.1 == PropKind::SameDelta && !l.contains(e.0) {
            l.push(e.0)
        } else {
            l
        }
    }
}

/// `list` with the SameDelta children of `cur` appended.
pub open spec fn with_children(g: BindingGraph, list: Seq<Seq<char>>, cur: Seq<char>) -> Seq<Seq<char>> {
    with_children_upto(g, list, cur, g.out(cur).len() as int)
}

/// Breadth-first expansion of `list`: the members from position `head` on
/// have their children appended in turn, for at most `fuel` members.
pub open spec fn expand(g: BindingGraph, list: Seq<Seq<char>>, head: int, fuel: nat) -> Seq<Seq<char>>
    decreases fuel,
{
    if fuel == 0 || head < 0 || head >= list.len() {
        list
    } else {
        expand(g, with_children(g, list, list[head]), head + 1, (fuel - 1) as nat)
    }
}

/// The members after the first `r` roots: each root not reached yet is
/// appended and expanded breadth-first before the next root.
pub open spec fn closure_upto(g: BindingGraph, roots: Seq<Seq<char>>, r: int, fuel: nat) -> Seq<Seq<char>>
    decreases r,
{
    if r <= 0 {
        seq![]
    } else {
        let l = closure_upto(g, roots, r - 1, fuel);
        if l.contains(roots[r - 1]) {
            l
        } else {
            expand(g, l.push(roots[r - 1]), l.len() as int, fuel)
        }
    }
}

/// The SameDelta members of a move of `roots`, in order: one root's whole
/// subtree, breadth-first with children in edge order, before the next root
/// (a root already reached is not repeated). The expansion is given enough
/// steps to run to completion.
pub open spec fn same_delta_order(g: BindingGraph, roots: Seq<Seq<char>>) -> Seq<Seq<char>> {
    closure_upto(g, roots, roots.len() as int, (roots.len() + g.universe().len() + 1) as nat)
}

/// `acc` with a `(follower, moved)` pair appended for each Reproject edge
/// among the first `k` out of `moved` whose follower is not in `sd`, each
/// pair unless it is already there.
pub open spec fn with_followers_upto(
    g: BindingGraph,
    sd: Seq<Seq<char>>,
    acc: Seq<(Seq<char>, Seq<char>)>,
    moved: Seq<char>,
    k: int,
) -> Seq<(Seq<char>, Seq<char>)>
    decreases k,
{
    if k <= 0 {
        acc
    } else {
        let a = with_followers_upto(g, sd, acc, moved, k - 1);
        let e = g.out(moved)[k - 1];
        if e.1 == PropKind::Reproject && !sd.contains(e.0) && !a.contains((e.0, moved)) {
            a.push((e.0, moved))
        } else {
            a
        }
    }
}

/// The reproject pairs of the first `m` members of `sd`, in order.
pub open spec fn reproject_upto(g: BindingGraph, sd: Seq<Seq<char>>, m: int) -> Seq<(Seq<char>, Seq<char>)>
    decreases m,
{
    if m <= 0 {
        seq![]
    } else {
        with_followers_upto(g, sd, reproject_upto(g, sd, m - 1), sd[m - 1], g.out(sd[m - 1]).len() as int)
    }
}

/// The reproject pairs of the members `sd`, in member then edge order.
pub open spec fn reproject_order(g: BindingGraph, sd: Seq<Seq<char>>) -> Seq<(Seq<char>, Seq<char>)> {
    reproject_upto(g, sd, sd.len() as int)
}

/// Every member is a root or a SameDelta child of an earlier member.
pub open spec fn derived_from_roots(g: BindingGraph, roots: Seq<Seq<char>>, sd: Seq<Seq<char>>) -> bool {
    forall|i: int|
        0 <= i < sd.len() ==> roots.contains(#[trigger] sd[i]) || exists|j: int|
            0 <= j < i && same_delta_child(g, sd[j], sd[i])
}

/// The reproject pairs are exactly the `(follower, target)` pairs with a moved
/// target, a Reproject edge between them, and a follower that does not move
/// itself; each once.
pub open spec fn reproject_exact(
    g: BindingGraph,
    sd: Seq<Seq<char>>,
    rp: Seq<(Seq<char>, Seq<char>)>,
) -> bool {
    &&& rp.no_duplicates()
    &&& forall|p: int|
        0 <= p < rp.len() ==> sd.contains((#[trigger] rp[p]).1) && !sd.contains(rp[p].0) && g.out(
            rp[p].1,
        ).contains((rp[p].0, PropKind::Reproject))
    &&& forall|i: int, k: int|
        0 <= i < sd.len() && 0 <= k < g.out(sd[i]).len() && (#[trigger] g.out(sd[i])[k]).1
            == PropKind::Reproject && !sd.contains(g.out(sd[i])[k].0) ==> rp.contains(
            (g.out(sd[i])[k].0, sd[i]),
        )
}

proof fn lemma_edge_ids(s: Seq<(Seq<char>, Seq<EdgeView>)>, i: int, k: int)
    requires
        0 <= i < s.len(),
        0 <= k < s[i].1.len(),
    ensures
        edge_ids(s).contains(s[i].1[k].0),
    decreases s.len(),
{
    let last = s.last().1.map_values(|e: EdgeView| e.0);
    if i < s.len() - 1 {
        lemma_edge_ids(s.drop_last(), i, k);
        let w = choose|w: int| 0 <= w < edge_ids(s.drop_last()).len() && edge_ids(s.drop_last())[w] == s[i].1[k].0;
        assert((edge_ids(s.drop_last()) + last)[w] == s[i].1[k].0);
    } else {
        let n = edge_ids(s.drop_last()).len();
        assert((edge_ids(s.drop_last()) + last)[n + k] == s[i].1[k].0);
    }
}

proof fn lemma_add_edge_at(
    old: Seq<(String, Vec<PropEdge>)>,
    new: Seq<(String, Vec<PropEdge>)>,
    key: Seq<char>,
    i: int,
    added: EdgeView,
)
    requires
        first_index(adj_list(old), key, i),
        new == old.update(i, new[i]),
        new[i].0@ == key,
        edges_view(new[i].1@) == edges_view(old[i].1@).push(added),
    ensures
        forall|id: Seq<char>| #[trigger]
            out_of(new, id) == if id == key {
                out_of(old, id).push(added)
            } else {
                out_of(old, id)
            },
{
    lemma_assoc_first(adj_list(old), key, i);
    assert(adj_list(new) =~= adj_list(old).update(i, (key, edges_view(old[i].1@).push(added))));
    lemma_assoc_update(adj_list(old), key, i, edges_view(old[i].1@).push(added));
}

/// Appends `edge` to the outgoing edges of `key`.
fn add_edge(adj: &mut Vec<(String, Vec<PropEdge>)>, key: &String, edge: PropEdge)
    ensures
        forall|id: Seq<char>| #[trigger]
            out_of(final(adj)@, id) == if id == key@ {
                out_of(old(adj)@, id).push(edge@)
            } else {
                out_of(old(adj)@, id)
            },
{
    let ghost old_adj = adj@;
    let ghost added = edge@;
    let mut i: usize = 0;
    while i < adj.len()
        invariant
            adj@ == old_adj,
            old_adj == old(adj)@,
            added == edge@,
            i <= adj@.len(),
            forall|j: int| 0 <= j < i ==> adj_list(adj@)[j].0 != key@,
        decreases adj@.len() - i,
    {
        if str_eq(adj[i].0.as_str(), key.as_str()) {
            let (k, mut es) = adj.remove(i);
            let ghost old_es = es@;
            es.push(edge);
            proof {
                assert(es@ == old_es.push(edge));
                assert(edges_view(es@) =~= edges_view(old_es).push(added));
            }
            let ghost new_es = es@;
            adj.insert(i, (k, es));
            proof {
                assert(first_index(adj_list(old_adj), key@, i as int));
                assert(adj@[i as int].1@ == new_es);
                assert(adj@ =~= old_adj.update(i as int, adj@[i as int]));
                lemma_add_edge_at(old_adj, adj@, key@, i as int, added);
            }
            return;
        }
        i = i + 1;
    }
    let mut es: Vec<PropEdge> = Vec::new();
    es.push(edge);
    adj.push((key.clone(), es));
    proof {
        lemma_assoc_absent(adj_list(old_adj), key@);
        assert(edges_view(es@) =~= seq![added]);
        assert(adj_list(adj@) =~= adj_list(old_adj).push((key@, seq![added])));
        lemma_assoc_push(adj_list(old_adj), key@, seq![added]);
        assert forall|id: Seq<char>| #[trigger]
            out_of(adj@, id) == if id == key@ {
                out_of(old_adj, id).push(added)
            } else {
                out_of(old_adj, id)
            } by {
            if id == key@ {
                assert(seq![added] =~= Seq::<EdgeView>::empty().push(added));
            }
        }
    }
}

/// The Reproject edges of `targets[..t]` extend by one step.
proof fn lemma_anchor_step(follower: Seq<char>, targets: Seq<String>, t: int, id: Seq<char>)
    requires
        0 <= t < targets.len(),
    ensures
        anchor_edges(follower, strs(targets.subrange(0, t + 1)), id) == if targets[t]@ == id {
            anchor_edges(follower, strs(targets.subrange(0, t)), id).push(
                (follower, PropKind::Reproject),
            )
        } else {
            anchor_edges(follower, strs(targets.subrange(0, t)), id)
        },
{
    assert(strs(targets.subrange(0, t + 1)).drop_last() =~= strs(targets.subrange(0, t)));
}

impl BindingGraph {
    /// The outgoing edges of `id`, in insertion order (none for an unknown id).
    pub closed spec fn out(self, id: Seq<char>) -> Seq<EdgeView> {
        out_of(self.adjacency@, id)
    }

    /// Every id that some edge leads to.
    pub closed spec fn universe(self) -> Seq<Seq<char>> {
        edge_ids(adj_list(self.adjacency@))
    }

    proof fn lemma_out_in_universe(self, id: Seq<char>, k: int)
        requires
            0 <= k < self.out(id).len(),
        ensures
            self.universe().contains(self.out(id)[k].0),
    {
        let s = adj_list(self.adjacency@);
        lemma_assoc_value(s, id);
        let i = choose|i: int| first_index(s, id, i) && assoc(s)[id] == s[i].1;
        lemma_edge_ids(s, i, k);
    }

    /// Inverts each node's `parent` (SameDelta) and `anchor_targets`
    /// (Reproject) into outgoing edges, appended in node order.
    pub fn build(nodes: &[BindingNode]) -> (r: Self)
        ensures
            forall|id: Seq<char>| #[trigger] r.out(id) == out_edges_of(nodes@, id),
    {
        let mut adjacency: Vec<(String, Vec<PropEdge>)> = Vec::new();
        proof {
            assert forall|id: Seq<char>| #[trigger]
                out_of(adjacency@, id) == out_edges_of(nodes@.subrange(0, 0), id) by {
                assert(adj_list(adjacency@) =~= Seq::empty());
                assert(assoc(adj_list(adjacency@)) =~= Map::empty());
            }
        }
        let mut n: usize = 0;
        while n < nodes.len()
            invariant
                n <= nodes@.len(),
                forall|id: Seq<char>| #[trigger]
                    out_of(adjacency@, id) == out_edges_of(nodes@.subrange(0, n as int), id),
            decreases nodes@.len() - n,
        {
            let node = &nodes[n];
            let ghost before = nodes@.subrange(0, n as int);
            match &node.parent {
                Some(parent) => {
                    add_edge(
                        &mut adjacency,
                        parent,
                        PropEdge { id: node.id.clone(), kind: PropKind::SameDelta },
                    );
                },
                None => {},
            }
            proof {
                assert forall|id: Seq<char>| #[trigger]
                    out_of(adjacency@, id) == out_edges_of(before, id) + parent_edges(*node, id)
                        + anchor_edges(node.id@, strs(node.anchor_targets@.subrange(0, 0)), id) by {
                    assert(strs(node.anchor_targets@.subrange(0, 0)) =~= Seq::empty());
                    match node.parent {
                        Some(p) => {
                            if p@ == id {
                                assert(out_edges_of(before, id).push((node.id@, PropKind::SameDelta))
                                    =~= out_edges_of(before, id) + parent_edges(*node, id)
                                    + Seq::<EdgeView>::empty());
                            } else {
                                assert(out_edges_of(before, id) =~= out_edges_of(before, id)
                                    + parent_edges(*node, id) + Seq::<EdgeView>::empty());
                            }
                        },
                        None => {
                            assert(out_edges_of(before, id) =~= out_edges_of(before, id)
                                + parent_edges(*node, id) + Seq::<EdgeView>::empty());
                        },
                    }
                }
            }
            let mut t: usize = 0;
            while t < node.anchor_targets.len()
                invariant
                    t <= node.anchor_targets@.len(),
                    node == &nodes@[n as int],
                    before == nodes@.subrange(0, n as int),
                    forall|id: Seq<char>| #[trigger]
                        out_of(adjacency@, id) == out_edges_of(before, id) + parent_edges(*node, id)
                            + anchor_edges(
                            node.id@,
                            strs(node.anchor_targets@.subrange(0, t as int)),
                            id,
                        ),
                decreases node.anchor_targets@.len() - t,
            {
                add_edge(
                    &mut adjacency,
                    &node.anchor_targets[t],
                    PropEdge { id: node.id.clone(), kind: PropKind::Reproject },
                );
                proof {
                    assert forall|id: Seq<char>| #[trigger]
                        out_of(adjacency@, id) == out_edges_of(before, id) + parent_edges(*node, id)
                            + anchor_edges(
                            node.id@,
                            strs(node.anchor_targets@.subrange(0, t + 1)),
                            id,
                        ) by {
                        lemma_anchor_step(node.id@, node.anchor_targets@, t as int, id);
                        let a = anchor_edges(node.id@, strs(node.anchor_targets@.subrange(0, t as int)), id);
                        let pe = out_edges_of(before, id) + parent_edges(*node, id);
                        if node.anchor_targets@[t as int]@ == id {
                            assert((pe + a).push((node.id@, PropKind::Reproject)) =~= pe + a.push(
                                (node.id@, PropKind::Reproject),
                            ));
                        }
                    }
                }
                t = t + 1;
            }
            proof {
                assert(node.anchor_targets@.subrange(0, t as int) =~= node.anchor_targets@);
                assert(nodes@.subrange(0, n + 1).drop_last() =~= before);
                assert(nodes@.subrange(0, n + 1).last() == *node);
            }
            n = n + 1;
        }
        proof {
            assert(nodes@.subrange(0, nodes@.len() as int) =~= nodes@);
        }
        BindingGraph { adjacency }
    }

    /// The position of `id` in the adjacency list, when it has edges there.
    fn find(&self, id: &String) -> (r: Option<usize>)
        ensures
            match r {
                Some(i) => i < self.adjacency@.len() && edges_view(self.adjacency@[i as int].1@)
                    == self.out(id@),
                None => self.out(id@) == Seq::<EdgeView>::empty(),
            },
    {
        let mut i: usize = 0;
        while i < self.adjacency.len()
            invariant
                i <= self.adjacency@.len(),
                forall|j: int| 0 <= j < i ==> adj_list(self.adjacency@)[j].0 != id@,
            decreases self.adjacency@.len() - i,
        {
            if str_eq(self.adjacency[i].0.as_str(), id.as_str()) {
                proof {
                    assert(first_index(adj_list(self.adjacency@), id@, i as int));
                    lemma_assoc_first(adj_list(self.adjacency@), id@, i as int);
                }
                return Some(i);
            }
            i = i + 1;
        }
        proof {
            lemma_assoc_absent(adj_list(self.adjacency@), id@);
        }
        None
    }

    /// The objects that move with `roots` and the anchored followers that
    /// reproject.
    ///
    /// The first list holds the roots and everything reachable from them over
    /// SameDelta edges, each once, every member after a parent it came from;
    /// the second holds each `(follower, moved target)` pair once.
    pub fn propagation_closure(&self, roots: &[String]) -> (r: (Vec<String>, Vec<(String, String)>))
        ensures
            strs(r.0@).no_duplicates(),
            forall|j: int| 0 <= j < roots@.len() ==> strs(r.0@).contains(#[trigger] roots@[j]@),
            closed_under_same_delta(*self, strs(r.0@)),
            derived_from_roots(*self, strs(roots@), strs(r.0@)),
            reproject_exact(*self, strs(r.0@), pairs(r.1@)),
            strs(r.0@) == same_delta_order(*self, strs(roots@)),
            pairs(r.1@) == reproject_order(*self, strs(r.0@)),
    {
        let mut same_delta: Vec<String> = Vec::new();
        let ghost rs = strs(roots@);
        let ghost bound = rs + self.universe();
        let ghost fuel: nat = (bound.len() + 1) as nat;
        let mut r: usize = 0;
        while r < roots.len()
            invariant
                r <= roots@.len(),
                rs == strs(roots@),
                bound == rs + self.universe(),
                strs(same_delta@).no_duplicates(),
                forall|i: int| 0 <= i < same_delta@.len() ==> bound.contains(#[trigger] strs(same_delta@)[i]),
                forall|j: int| 0 <= j < r ==> strs(same_delta@).contains(#[trigger] roots@[j]@),
                closed_under_same_delta(*self, strs(same_delta@)),
                derived_from_roots(*self, rs, strs(same_delta@)),
                fuel == (bound.len() + 1) as nat,
                strs(same_delta@) == closure_upto(*self, rs, r as int, fuel),
            decreases roots@.len() - r,
        {
            if !contains_str(&same_delta, roots[r].as_str()) {
                let mut head: usize = same_delta.len();
                let ghost before = strs(same_delta@);
                let ghost h0 = head as int;
                let ghost goal = closure_upto(*self, rs, r + 1, fuel);
                same_delta.push(roots[r].clone());
                proof {
                    assert(rs[r as int] == roots@[r as int]@);
                    assert(strs(same_delta@) =~= before.push(rs[r as int]));
                    assert(goal == expand(*self, strs(same_delta@), h0, fuel));
                }
                proof {
                    let sd = strs(same_delta@);
                    assert(sd =~= before.push(roots@[r as int]@));
                    assert(rs[r as int] == roots@[r as int]@);
                    assert(bound[r as int] == rs[r as int]);
                    assert(sd[before.len() as int] == roots@[r as int]@);
                    assert forall|j: int| 0 <= j <= r implies sd.contains(#[trigger] roots@[j]@) by {
                        if j < r {
                            let w = choose|w: int| 0 <= w < before.len() && before[w] == roots@[j]@;
                            assert(sd[w] == roots@[j]@);
                        }
                    }
                    assert forall|i: int| 0 <= i < sd.len() implies rs.contains(#[trigger] sd[i])
                        || exists|j: int| 0 <= j < i && same_delta_child(*self, sd[j], sd[i]) by {
                        if i < before.len() {
                            assert(sd[i] == before[i]);
                            if !rs.contains(before[i]) {
                                let j = choose|j: int| 0 <= j < i && same_delta_child(*self, before[j], before[i]);
                                assert(sd[j] == before[j]);
                            }
                        } else {
                            assert(rs[r as int] == sd[i]);
                        }
                    }
                    assert forall|i: int, k: int|
                        0 <= i < head && 0 <= k < self.out(sd[i]).len() && (#[trigger] self.out(
                            sd[i],
                        )[k]).1 == PropKind::SameDelta implies sd.contains(self.out(sd[i])[k].0) by {
                        assert(sd[i] == before[i]);
                        let w = choose|w: int| 0 <= w < before.len() && before[w] == self.out(before[i])[k].0;
                        assert(sd[w] == before[w]);
                    }
                }
                while head < same_delta.len()
                    invariant
                        r < roots@.len(),
                        head <= same_delta@.len(),
                        rs == strs(roots@),
                        bound == rs + self.universe(),
                        strs(same_delta@).no_duplicates(),
                        forall|i: int| 0 <= i < same_delta@.len() ==> bound.contains(#[trigger] strs(same_delta@)[i]),
                        forall|j: int| 0 <= j <= r ==> strs(same_delta@).contains(#[trigger] roots@[j]@),
                        forall|i: int, k: int|
                            0 <= i < head && 0 <= k < self.out(strs(same_delta@)[i]).len() && (
                            #[trigger] self.out(strs(same_delta@)[i])[k]).1 == PropKind::SameDelta
                                ==> strs(same_delta@).contains(self.out(strs(same_delta@)[i])[k].0),
                        derived_from_roots(*self, rs, strs(same_delta@)),
                        fuel == (bound.len() + 1) as nat,
                        0 <= h0 <= head,
                        goal == closure_upto(*self, rs, r + 1, fuel),
                        expand(*self, strs(same_delta@), head as int, (fuel - (head - h0)) as nat) == goal,
                    decreases bound.len() - head,
                {
                    proof {
                        lemma_distinct_len_bound(strs(same_delta@), bound);
                    }
                    let current = same_delta[head].clone();
                    let ghost cur = current@;
                    let ghost lh = strs(same_delta@);
                    proof {
                        assert(cur == strs(same_delta@)[head as int]);
                    }
                    match self.find(&current) {
                        None => {},
                        Some(ai) => {
                            let es = &self.adjacency[ai].1;
                            let mut k: usize = 0;
                            while k < es.len()
                                invariant
                                    r < roots@.len(),
                                    head < same_delta@.len(),
                                    k <= es@.len(),
                                    cur == strs(same_delta@)[head as int],
                                    edges_view(es@) == self.out(cur),
                                    rs == strs(roots@),
                                    bound == rs + self.universe(),
                                    strs(same_delta@).no_duplicates(),
                                    forall|i: int| 0 <= i < same_delta@.len() ==> bound.contains(#[trigger] strs(same_delta@)[i]),
                                    forall|j: int| 0 <= j <= r ==> strs(same_delta@).contains(#[trigger] roots@[j]@),
                                    forall|i: int, k2: int|
                                        0 <= i < head && 0 <= k2 < self.out(strs(same_delta@)[i]).len() && (
                                        #[trigger] self.out(strs(same_delta@)[i])[k2]).1 == PropKind::SameDelta
                                            ==> strs(same_delta@).contains(self.out(strs(same_delta@)[i])[k2].0),
                                    forall|k2: int|
                                        0 <= k2 < k && (#[trigger] self.out(cur)[k2]).1 == PropKind::SameDelta
                                            ==> strs(same_delta@).contains(self.out(cur)[k2].0),
                                    derived_from_roots(*self, rs, strs(same_delta@)),
                                    strs(same_delta@) == with_children_upto(*self, lh, cur, k as int),
                                decreases es@.len() - k,
                            {
                                let ghost e = self.out(cur)[k as int];
                                proof {
                                    assert(edges_view(es@)[k as int] == es@[k as int]@);
                                }
                                if es[k].kind == PropKind::SameDelta && !contains_str(&same_delta, es[k].id.as_str()) {
                                    let ghost before = strs(same_delta@);
                                    same_delta.push(es[k].id.clone());
                                    proof {
                                        let sd = strs(same_delta@);
                                        assert(sd =~= before.push(e.0));
                                        self.lemma_out_in_universe(cur, k as int);
                                        let w = choose|w: int| 0 <= w < self.universe().len() && self.universe()[w] == e.0;
                                        assert(bound[rs.len() + w] == e.0);
                                        assert(sd[before.len() as int] == e.0);
                                        assert(self.out(cur)[k as int] == (e.0, PropKind::SameDelta));
                                        assert(same_delta_child(*self, cur, e.0));
                                        assert forall|i: int| 0 <= i < sd.len() implies rs.contains(#[trigger] sd[i])
                                            || exists|j: int| 0 <= j < i && same_delta_child(*self, sd[j], sd[i]) by {
                                            if i < before.len() {
                                                assert(sd[i] == before[i]);
                                                if !rs.contains(before[i]) {
                                                    let j = choose|j: int| 0 <= j < i && same_delta_child(*self, before[j], before[i]);
                                                    assert(sd[j] == before[j]);
                                                }
                                            } else {
                                                assert(sd[head as int] == cur);
                                            }
                                        }
                                        assert forall|x: Seq<char>| before.contains(x) implies sd.contains(x) by {
                                            let w = choose|w: int| 0 <= w < before.len() && before[w] == x;
                                            assert(sd[w] == x);
                                        }
                                        assert forall|i: int| 0 <= i < sd.len() implies bound.contains(#[trigger] sd[i]) by {
                                            if i < before.len() {
                                                assert(sd[i] == before[i]);
                                            }
                                        }
                                        assert forall|j: int| 0 <= j <= r implies sd.contains(#[trigger] roots@[j]@) by {
                                            assert(before.contains(roots@[j]@));
                                        }
                                        assert forall|i: int, k2: int|
                                            0 <= i < head && 0 <= k2 < self.out(sd[i]).len() && (
                                            #[trigger] self.out(sd[i])[k2]).1 == PropKind::SameDelta
                                                implies sd.contains(self.out(sd[i])[k2].0) by {
                                            assert(sd[i] == before[i]);
                                            assert(before.contains(self.out(before[i])[k2].0));
                                        }
                                        assert forall|k2: int|
                                            0 <= k2 <= k && (#[trigger] self.out(cur)[k2]).1 == PropKind::SameDelta
                                                implies sd.contains(self.out(cur)[k2].0) by {
                                            if k2 < k {
                                                assert(before.contains(self.out(cur)[k2].0));
                                            }
                                        }
                                    }
                                } else {
                                    proof {
                                        if e.1 == PropKind::SameDelta {
                                            assert(strs(same_delta@).contains(e.0));
                                        }
                                    }
                                }
                                k = k + 1;
                            }
                        },
                    }
                    proof {
                        let sd = strs(same_delta@);
                        assert forall|i: int, k2: int|
                            0 <= i <= head && 0 <= k2 < self.out(sd[i]).len() && (#[trigger] self.out(
                                sd[i],
                            )[k2]).1 == PropKind::SameDelta implies sd.contains(self.out(sd[i])[k2].0) by {
                            if i == head {
                                assert(sd[i] == cur);
                            }
                        }
                    }
                    proof {
                        assert(strs(same_delta@) == with_children(*self, lh, cur));
                        assert(lh.len() <= bound.len());
                        assert(expand(*self, lh, head as int, (fuel - (head - h0)) as nat) == expand(
                            *self,
                            with_children(*self, lh, lh[head as int]),
                            head + 1,
                            (fuel - (head + 1 - h0)) as nat,
                        ));
                    }
                    head = head + 1;
                }
            }
            proof {
                if strs(same_delta@) != closure_upto(*self, rs, r + 1, fuel) {
                    assert(closure_upto(*self, rs, r as int, fuel).contains(rs[r as int]));
                }
            }
            r = r + 1;
        }
        let ghost sd = strs(same_delta@);
        let mut reproject: Vec<(String, String)> = Vec::new();
        let mut m: usize = 0;
        while m < same_delta.len()
            invariant
                m <= same_delta@.len(),
                sd == strs(same_delta@),
                pairs(reproject@).no_duplicates(),
                forall|p: int|
                    0 <= p < reproject@.len() ==> sd.contains((#[trigger] pairs(reproject@)[p]).1)
                        && !sd.contains(pairs(reproject@)[p].0) && self.out(pairs(reproject@)[p].1).contains(
                        (pairs(reproject@)[p].0, PropKind::Reproject),
                    ),
                forall|i: int, k: int|
                    0 <= i < m && 0 <= k < self.out(sd[i]).len() && (#[trigger] self.out(sd[i])[k]).1
                        == PropKind::Reproject && !sd.contains(self.out(sd[i])[k].0) ==> pairs(
                        reproject@,
                    ).contains((self.out(sd[i])[k].0, sd[i])),
                pairs(reproject@) == reproject_upto(*self, sd, m as int),
            decreases same_delta@.len() - m,
        {
            let moved = &same_delta[m];
            let ghost mv = moved@;
            let ghost acc = pairs(reproject@);
            proof {
                assert(mv == sd[m as int]);
            }
            match self.find(moved) {
                None => {},
                Some(ai) => {
                    let es = &self.adjacency[ai].1;
                    let mut k: usize = 0;
                    while k < es.len()
                        invariant
                            m < same_delta@.len(),
                            k <= es@.len(),
                            mv == sd[m as int],
                            moved@ == mv,
                            sd == strs(same_delta@),
                            edges_view(es@) == self.out(mv),
                            pairs(reproject@).no_duplicates(),
                            forall|p: int|
                                0 <= p < reproject@.len() ==> sd.contains((#[trigger] pairs(reproject@)[p]).1)
                                    && !sd.contains(pairs(reproject@)[p].0) && self.out(pairs(reproject@)[p].1).contains(
                                    (pairs(reproject@)[p].0, PropKind::Reproject),
                                ),
                            forall|i: int, k2: int|
                                0 <= i < m && 0 <= k2 < self.out(sd[i]).len() && (#[trigger] self.out(sd[i])[k2]).1
                                    == PropKind::Reproject && !sd.contains(self.out(sd[i])[k2].0) ==> pairs(
                                    reproject@,
                                ).contains((self.out(sd[i])[k2].0, sd[i])),
                            forall|k2: int|
                                0 <= k2 < k && (#[trigger] self.out(mv)[k2]).1 == PropKind::Reproject
                                    && !sd.contains(self.out(mv)[k2].0) ==> pairs(reproject@).contains(
                                    (self.out(mv)[k2].0, mv),
                                ),
                            acc == reproject_upto(*self, sd, m as int),
                            pairs(reproject@) == with_followers_upto(*self, sd, acc, mv, k as int),
                        decreases es@.len() - k,
                    {
                        let ghost e = self.out(mv)[k as int];
                        proof {
                            assert(edges_view(es@)[k as int] == es@[k as int]@);
                        }
                        if es[k].kind == PropKind::Reproject && !contains_str(&same_delta, es[k].id.as_str())
                            && !contains_pair(&reproject, &es[k].id, moved) {
                            let ghost before = pairs(reproject@);
                            reproject.push((es[k].id.clone(), moved.clone()));
                            proof {
                                let rp = pairs(reproject@);
                                assert(rp =~= before.push((e.0, mv)));
                                assert(self.out(mv)[k as int] == (e.0, PropKind::Reproject));
                                assert(sd.contains(mv));
                                assert forall|a: int, b: int| 0 <= a < b < rp.len() implies rp[a] != rp[b] by {
                                    if b == before.len() {
                                        assert(rp[a] == before[a]);
                                    } else {
                                        assert(rp[a] == before[a] && rp[b] == before[b]);
                                    }
                                }
                                assert forall|x: (Seq<char>, Seq<char>)| before.contains(x) implies rp.contains(x) by {
                                    let w = choose|w: int| 0 <= w < before.len() && before[w] == x;
                                    assert(rp[w] == x);
                                }
                                assert forall|p: int| 0 <= p < rp.len() implies sd.contains((#[trigger] rp[p]).1)
                                    && !sd.contains(rp[p].0) && self.out(rp[p].1).contains((rp[p].0, PropKind::Reproject)) by {
                                    if p < before.len() {
                                        assert(rp[p] == before[p]);
                                    }
                                }
                                assert(rp[before.len() as int] == (e.0, mv));
                            }
                        }
                        k = k + 1;
                    }
                },
            }
            proof {
                assert(pairs(reproject@) == reproject_upto(*self, sd, m + 1));
            }
            m = m + 1;
        }
        (same_delta, reproject)
    }
}

/// Whether the pair `(a, b)` occurs in `v`.
fn contains_pair(v: &Vec<(String, String)>, a: &String, b: &String) -> (r: bool)
    ensures
        r == pairs(v@).contains((a@, b@)),
{
    let mut i: usize = 0;
    while i < v.len()
        invariant
            i <= v@.len(),
            forall|j: int| 0 <= j < i ==> pairs(v@)[j] != (a@, b@),
        decreases v@.len() - i,
    {
        if str_eq(v[i].0.as_str(), a.as_str()) && str_eq(v[i].1.as_str(), b.as_str()) {
            proof {
                assert(pairs(v@)[i as int] == (a@, b@));
            }
            return true;
        }
        i = i + 1;
    }
    false
}

impl Default for BindingGraph {
    fn default() -> (r: Self)
        ensures
            forall|id: Seq<char>| #[trigger] r.out(id) == Seq::<EdgeView>::empty(),
    {
        let r = BindingGraph { adjacency: Vec::new() };
        proof {
            assert(adj_list(r.adjacency@) =~= Seq::empty());
            assert(assoc(adj_list(r.adjacency@)) =~= Map::empty());
        }
        r
    }
}

// ---------------------------------------------------------------------------
// The closure depends on the edges alone
// ---------------------------------------------------------------------------

proof fn lemma_children_same_out(g1: BindingGraph, g2: BindingGraph, list: Seq<Seq<char>>, cur: Seq<char>, k: int)
    requires
        g1.out(cur) == g2.out(cur),
    ensures
        with_children_upto(g1, list, cur, k) == with_children_upto(g2, list, cur, k),
    decreases k,
{
    if k > 0 {
        lemma_children_same_out(g1, g2, list, cur, k - 1);
    }
}

proof fn lemma_expand_same_out(g1: BindingGraph, g2: BindingGraph, list: Seq<Seq<char>>, head: int, fuel: nat)
    requires
        forall|id: Seq<char>| #[trigger] g1.out(id) == g2.out(id),
    ensures
        expand(g1, list, head, fuel) == expand(g2, list, head, fuel),
    decreases fuel,
{
    if !(fuel == 0 || head < 0 || head >= list.len()) {
        assert(g1.out(list[head]) == g2.out(list[head]));
        lemma_children_same_out(g1, g2, list, list[head], g1.out(list[head]).len() as int);
        lemma_expand_same_out(g1, g2, with_children(g1, list, list[head]), head + 1, (fuel - 1) as nat);
    }
}

proof fn lemma_closure_same_out(g1: BindingGraph, g2: BindingGraph, roots: Seq<Seq<char>>, r: int, fuel: nat)
    requires
        forall|id: Seq<char>| #[trigger] g1.out(id) == g2.out(id),
    ensures
        closure_upto(g1, roots, r, fuel) == closure_upto(g2, roots, r, fuel),
    decreases r,
{
    if r > 0 {
        lemma_closure_same_out(g1, g2, roots, r - 1, fuel);
        let l = closure_upto(g1, roots, r - 1, fuel);
        lemma_expand_same_out(g1, g2, l.push(roots[r - 1]), l.len() as int, fuel);
    }
}

/// `l` holds each id once, all of them in `u`.
spec fn within(l: Seq<Seq<char>>, u: Seq<Seq<char>>) -> bool {
    &&& l.no_duplicates()
    &&& forall|i: int| 0 <= i < l.len() ==> u.contains(#[trigger] l[i])
}

proof fn lemma_children_within(g: BindingGraph, list: Seq<Seq<char>>, cur: Seq<char>, k: int, u: Seq<Seq<char>>)
    requires
        within(list, u),
        forall|x: Seq<char>| #[trigger] g.universe().contains(x) ==> u.contains(x),
        k <= g.out(cur).len(),
    ensures
        within(with_children_upto(g, list, cur, k), u),
        with_children_upto(g, list, cur, k).len() >= list.len(),
        with_children_upto(g, list, cur, k).subrange(0, list.len() as int) == list,
    decreases k,
{
    if k > 0 {
        lemma_children_within(g, list, cur, k - 1, u);
        let l = with_children_upto(g, list, cur, k - 1);
        let e = g.out(cur)[k - 1];
        if e.1 == PropKind::SameDelta && !l.contains(e.0) {
            g.lemma_out_in_universe(cur, k - 1);
            let l2 = l.push(e.0);
            assert forall|i: int, j: int| 0 <= i < l2.len() && 0 <= j < l2.len() && i != j implies l2[i] != l2[j] by {
                if i < l.len() && j < l.len() {
                } else if i == l.len() {
                    assert(l2[j] == l[j]);
                } else {
                    assert(l2[i] == l[i]);
                }
            }
            assert forall|i: int| 0 <= i < l2.len() implies u.contains(#[trigger] l2[i]) by {
                if i < l.len() {
                    assert(l2[i] == l[i]);
                }
            }
            assert(l2.subrange(0, list.len() as int) =~= l.subrange(0, list.len() as int));
        }
    }
}

proof fn lemma_expand_within(g: BindingGraph, list: Seq<Seq<char>>, head: int, fuel: nat, u: Seq<Seq<char>>)
    requires
        within(list, u),
        forall|x: Seq<char>| #[trigger] g.universe().contains(x) ==> u.contains(x),
    ensures
        within(expand(g, list, head, fuel), u),
    decreases fuel,
{
    if !(fuel == 0 || head < 0 || head >= list.len()) {
        lemma_children_within(g, list, list[head], g.out(list[head]).len() as int, u);
        lemma_expand_within(g, with_children(g, list, list[head]), head + 1, (fuel - 1) as nat, u);
    }
}

/// With enough steps for every id of `u` to be expanded, more steps change
/// nothing.
proof fn lemma_expand_fuel(g: BindingGraph, list: Seq<Seq<char>>, head: int, f1: nat, f2: nat, u: Seq<Seq<char>>)
    requires
        within(list, u),
        forall|x: Seq<char>| #[trigger] g.universe().contains(x) ==> u.contains(x),
        head >= 0,
        f1 + head >= u.len() + 1,
        f2 >= f1,
    ensures
        expand(g, list, head, f1) == expand(g, list, head, f2),
    decreases f1,
{
    crate::assoc::lemma_distinct_len_bound(list, u);
    if head >= list.len() {
    } else {
        assert(f1 > 0);
        let l2 = with_children(g, list, list[head]);
        lemma_children_within(g, list, list[head], g.out(list[head]).len() as int, u);
        lemma_expand_fuel(g, l2, head + 1, (f1 - 1) as nat, (f2 - 1) as nat, u);
    }
}

proof fn lemma_closure_fuel(g: BindingGraph, roots: Seq<Seq<char>>, r: int, f1: nat, f2: nat, u: Seq<Seq<char>>)
    requires
        0 <= r <= roots.len(),
        forall|i: int| 0 <= i < roots.len() ==> u.contains(#[trigger] roots[i]),
        forall|x: Seq<char>| #[trigger] g.universe().contains(x) ==> u.contains(x),
        f1 >= u.len() + 1,
        f2 >= f1,
    ensures
        closure_upto(g, roots, r, f1) == closure_upto(g, roots, r, f2),
        within(closure_upto(g, roots, r, f1), u),
    decreases r,
{
    if r <= 0 {
        assert(Seq::<Seq<char>>::empty().no_duplicates());
    } else {
        lemma_closure_fuel(g, roots, r - 1, f1, f2, u);
        let l = closure_upto(g, roots, r - 1, f1);
        if !l.contains(roots[r - 1]) {
            let l2 = l.push(roots[r - 1]);
            assert forall|i: int, j: int| 0 <= i < l2.len() && 0 <= j < l2.len() && i != j implies l2[i] != l2[j] by {
                if i < l.len() && j < l.len() {
                } else if i == l.len() {
                    assert(l2[j] == l[j]);
                } else {
                    assert(l2[i] == l[i]);
                }
            }
            assert forall|i: int| 0 <= i < l2.len() implies u.contains(#[trigger] l2[i]) by {
                if i < l.len() {
                    assert(l2[i] == l[i]);
                }
            }
            lemma_expand_fuel(g, l2, l.len() as int, f1, f2, u);
            lemma_expand_within(g, l2, l.len() as int, f1, u);
        }
    }
}

/// The SameDelta order of a move depends on the graph's edges alone: two
/// graphs with the same edges out of every id give the same order.
pub proof fn lemma_same_delta_order_by_edges(g1: BindingGraph, g2: BindingGraph, roots: Seq<Seq<char>>)
    requires
        forall|id: Seq<char>| #[trigger] g1.out(id) == g2.out(id),
    ensures
        same_delta_order(g1, roots) == same_delta_order(g2, roots),
{
    let u1 = roots + g1.universe();
    let u2 = roots + g2.universe();
    let f1 = (roots.len() + g1.universe().len() + 1) as nat;
    let f2 = (roots.len() + g2.universe().len() + 1) as nat;
    let f = if f1 >= f2 { f1 } else { f2 };
    assert forall|i: int| 0 <= i < roots.len() implies u1.contains(#[trigger] roots[i]) by {
        assert(u1[i] == roots[i]);
    }
    assert forall|i: int| 0 <= i < roots.len() implies u2.contains(#[trigger] roots[i]) by {
        assert(u2[i] == roots[i]);
    }
    assert forall|x: Seq<char>| #[trigger] g1.universe().contains(x) implies u1.contains(x) by {
        let j = choose|j: int| 0 <= j < g1.universe().len() && g1.universe()[j] == x;
        assert(u1[roots.len() + j] == x);
    }
    assert forall|x: Seq<char>| #[trigger] g2.universe().contains(x) implies u2.contains(x) by {
        let j = choose|j: int| 0 <= j < g2.universe().len() && g2.universe()[j] == x;
        assert(u2[roots.len() + j] == x);
    }
    let r = roots.len() as int;
    lemma_closure_fuel(g1, roots, r, f1, f, u1);
    lemma_closure_fuel(g2, roots, r, f2, f, u2);
    lemma_closure_same_out(g1, g2, roots, r, f);
}

} // verus!
