use vstd::prelude::*;
use crate::geom::{dist2, dist2_spec, seg_dist2, seg_dist2_spec, Point};
use crate::slots::{
    adj_slots, adj_slots_get, adj_slots_insert, adj_slots_new, adj_slots_remove, edge_slots,
    edge_slots_get, edge_slots_insert, edge_slots_keys, edge_slots_len, edge_slots_new,
    edge_slots_remove, is_key_ok, keys_wf, node_slots, node_slots_get, node_slots_insert,
    node_slots_keys, node_slots_len, node_slots_new, node_slots_remove, node_slots_set,
    AdjSlots, EdgeSlots, NodeSlots, SLOTS_MAX,
};
use crate::util::IndexOf;

verus! {

/// Stable identity of a node: the bits of a slot-map key.
#[derive(Clone, Copy, Debug, PartialEq, Eq, Structural)]
pub struct NodeId(pub u64);

/// Stable identity of an edge: the bits of a slot-map key.
#[derive(Clone, Copy, Debug, PartialEq, Eq, Structural)]
pub struct EdgeId(pub u64);

/// What a node does when signals reach it or time passes.
#[derive(Clone, Copy, Debug, PartialEq, Eq, Structural)]
pub enum NodeKind {
    /// No behaviour.
    Default,
    /// Injects a signal on every outgoing edge each `bar_delay` bars,
    /// the next time at `next_spawn`.
    Spawner { bar_delay: u64, next_spawn: u64 },
    /// Requests playback of a sample on every arrival.
    Sample(usize),
}

#[derive(Clone, Copy, Debug, PartialEq, Eq, Structural)]
pub struct Node {
    pub pos: Point,
    pub kind: NodeKind,
}

impl Node {
    pub fn new(x: i64, y: i64) -> (r: Node)
        ensures
            r.pos == (Point { x, y }),
            r.kind == NodeKind::Default,
    {
        Node { pos: Point { x, y }, kind: NodeKind::Default }
    }
}

/// A directed edge from `nodes.0` to `nodes.1`.
#[derive(Clone, Copy, Debug)]
pub struct Edge {
    pub nodes: (NodeId, NodeId),
}

impl Edge {
    pub fn new(u: NodeId, v: NodeId) -> (r: Edge)
        requires
            u != v,
        ensures
            r.nodes == (u, v),
    {
        Edge { nodes: (u, v) }
    }

    /// Squared distance from `pos` to this edge of `g`, measured to the
    /// nearest point at least `margin / 2` percent of the way from either end.
    pub fn distance_squared(&self, pos: Point, g: &Graph, margin: u64) -> (r: i128)
        requires
            g.wf(),
            g.node_map().dom().contains(self.nodes.0.0),
            g.node_map().dom().contains(self.nodes.1.0),
            pos.in_bounds(),
            margin <= 100,
        ensures
            r == seg_dist2_spec(pos, g.node_map()[self.nodes.0.0].pos, g.node_map()[self.nodes.1.0].pos, margin),
    {
        let a = g.node(self.nodes.0).unwrap();
        let b = g.node(self.nodes.1).unwrap();
        seg_dist2(pos, a.pos, b.pos, margin)
    }
}

/// One adjacency entry: the node at the other end and the edge leading there.
#[derive(Clone, Copy, Debug, PartialEq, Eq, Structural)]
pub struct Link {
    pub node: NodeId,
    pub edge: EdgeId,
}

/// The links of one node: edges that end at it and edges that start at it.
#[derive(Clone, Debug)]
pub struct Adjlist {
    pub incoming: Vec<Link>,
    pub outgoing: Vec<Link>,
}


/// Links of a list that a swap-remove at `i` leaves.
pub open spec fn swap_removed(s: Seq<Link>, i: int) -> Seq<Link> {
    s.update(i, s.last()).drop_last()
}

proof fn lemma_swap_removed(s: Seq<Link>, i: int)
    requires
        s.no_duplicates(),
        0 <= i < s.len(),
    ensures
        swap_removed(s, i).no_duplicates(),
        forall|l: Link| swap_removed(s, i).contains(l) <==> (s.contains(l) && l != s[i]),
{
    let t = swap_removed(s, i);
    assert forall|l: Link| t.contains(l) <==> (s.contains(l) && l != s[i]) by {
        if t.contains(l) {
            let j = choose|j: int| 0 <= j < t.len() && t[j] == l;
            if j == i {
                assert(s[s.len() - 1] == l);
            } else {
                assert(s[j] == l);
            }
        }
        if s.contains(l) && l != s[i] {
            let j = choose|j: int| 0 <= j < s.len() && s[j] == l;
            if j == s.len() - 1 {
                assert(t[i] == l);
            } else {
                assert(t[j] == l);
            }
        }
    }
}

/// The nodes and edges of the sequencer, with the links of every node.
pub struct Graph {
    pub nodes: NodeSlots,
    pub edges: EdgeSlots,
    pub adj: AdjSlots,
}

/// Whether an edge starts or ends at node `n`.
pub open spec fn touches(e: Edge, n: u64) -> bool {
    e.nodes.0.0 == n || e.nodes.1.0 == n
}

impl Graph {
    pub open spec fn node_map(&self) -> Map<u64, Node> {
        node_slots(self.nodes)
    }

    pub open spec fn edge_map(&self) -> Map<u64, Edge> {
        edge_slots(self.edges)
    }

    pub open spec fn adj_map(&self) -> Map<u64, Adjlist> {
        adj_slots(self.adj)
    }

    /// Links out of node `n`.
    pub open spec fn outs(&self, n: u64) -> Seq<Link> {
        self.adj_map()[n].outgoing@
    }

    /// Links into node `n`.
    pub open spec fn ins(&self, n: u64) -> Seq<Link> {
        self.adj_map()[n].incoming@
    }

    /// Every edge joins two distinct live nodes and is listed at both ends:
    /// its target among the source's outgoing links, its source among the
    /// target's incoming links.
    pub open spec fn edges_linked(&self) -> bool {
        forall|e: u64| #[trigger] self.edge_map().dom().contains(e) ==> {
            let (u, v) = self.edge_map()[e].nodes;
            &&& self.node_map().dom().contains(u.0)
            &&& self.node_map().dom().contains(v.0)
            &&& u != v
            &&& self.outs(u.0).contains(Link { node: v, edge: EdgeId(e) })
            &&& self.ins(v.0).contains(Link { node: u, edge: EdgeId(e) })
        }
    }

    /// Every link stands for a live edge between its node and the link's node,
    /// and no list holds a link twice.
    pub open spec fn links_backed(&self) -> bool {
        forall|n: u64| #[trigger] self.adj_map().dom().contains(n) ==> {
            &&& self.outs(n).no_duplicates()
            &&& self.ins(n).no_duplicates()
            &&& forall|i: int| 0 <= i < self.outs(n).len() ==> {
                let l = #[trigger] self.outs(n)[i];
                &&& self.edge_map().dom().contains(l.edge.0)
                &&& self.edge_map()[l.edge.0].nodes == (NodeId(n), l.node)
            }
            &&& forall|i: int| 0 <= i < self.ins(n).len() ==> {
                let l = #[trigger] self.ins(n)[i];
                &&& self.edge_map().dom().contains(l.edge.0)
                &&& self.edge_map()[l.edge.0].nodes == (l.node, NodeId(n))
            }
        }
    }

    pub open spec fn wf(&self) -> bool {
        &&& keys_wf(self.node_map())
        &&& keys_wf(self.edge_map())
        &&& self.adj_map().dom() == self.node_map().dom()
        &&& forall|n: u64| #[trigger] self.node_map().dom().contains(n)
            ==> self.node_map()[n].pos.in_bounds()
        &&& self.edges_linked()
        &&& self.links_backed()
    }

    /// An empty graph.
    pub fn new() -> (r: Graph)
        ensures
            r.wf(),
            r.node_map().dom().is_empty(),
            r.edge_map().dom().is_empty(),
    {
        let r = Graph { nodes: node_slots_new(), edges: edge_slots_new(), adj: adj_slots_new() };
        assert(r.node_map().dom() =~= Set::empty());
        r
    }

    pub fn node_count(&self) -> (r: usize)
        requires
            self.wf(),
        ensures
            r == self.node_map().dom().len(),
    {
        node_slots_len(&self.nodes)
    }

    pub fn edge_count(&self) -> (r: usize)
        requires
            self.wf(),
        ensures
            r == self.edge_map().dom().len(),
    {
        edge_slots_len(&self.edges)
    }

    /// The node under `id`, or `None` where `id` is not live.
    pub fn node(&self, id: NodeId) -> (r: Option<Node>)
        requires
            self.wf(),
        ensures
            r == self.node_map().get(id.0),
    {
        if is_key_ok(id.0) {
            node_slots_get(&self.nodes, id.0)
        } else {
            None
        }
    }

    /// The edge under `id`, or `None` where `id` is not live.
    pub fn edge(&self, id: EdgeId) -> (r: Option<Edge>)
        requires
            self.wf(),
        ensures
            r == self.edge_map().get(id.0),
    {
        if is_key_ok(id.0) {
            edge_slots_get(&self.edges, id.0)
        } else {
            None
        }
    }

    /// Adds `node` under a fresh id, with no links.
    pub fn add_node(&mut self, node: Node) -> (r: NodeId)
        requires
            old(self).wf(),
            node.pos.in_bounds(),
            old(self).node_map().dom().len() < SLOTS_MAX,
        ensures
            final(self).wf(),
            node_added(*old(self), *final(self), node, r),
    {
        let id = node_slots_insert(&mut self.nodes, node);
        assert(self.adj_map().dom() == old(self).node_map().dom());
        adj_slots_insert(&mut self.adj, id, Adjlist { incoming: Vec::new(), outgoing: Vec::new() });
        assert(self.adj_map().dom() =~= self.node_map().dom());
        assert(self.outs(id) =~= Seq::<Link>::empty());
        assert(self.ins(id) =~= Seq::<Link>::empty());
        assert(keys_wf(self.node_map()));
        assert forall|e: u64| #[trigger] self.edge_map().dom().contains(e) implies {
            let (u, v) = self.edge_map()[e].nodes;
            &&& self.outs(u.0).contains(Link { node: v, edge: EdgeId(e) })
            &&& self.ins(v.0).contains(Link { node: u, edge: EdgeId(e) })
        } by {
            assert(old(self).edges_linked());
        }
        assert(self.links_backed());
        NodeId(id)
    }

    /// Adds `edge` under a fresh id and lists it at both ends.
    pub fn add_edge(&mut self, edge: Edge) -> (r: EdgeId)
        requires
            old(self).wf(),
            old(self).node_map().dom().contains(edge.nodes.0.0),
            old(self).node_map().dom().contains(edge.nodes.1.0),
            edge.nodes.0 != edge.nodes.1,
            old(self).edge_map().dom().len() < SLOTS_MAX,
        ensures
            final(self).wf(),
            edge_added(*old(self), *final(self), edge, r),
    {
        let ghost g0 = *old(self);
        let (u, v) = edge.nodes;
        let id = edge_slots_insert(&mut self.edges, edge);
        let mut au = adj_slots_remove(&mut self.adj, u.0).unwrap();
        au.outgoing.push(Link { node: v, edge: EdgeId(id) });
        adj_slots_insert(&mut self.adj, u.0, au);
        let mut av = adj_slots_remove(&mut self.adj, v.0).unwrap();
        av.incoming.push(Link { node: u, edge: EdgeId(id) });
        adj_slots_insert(&mut self.adj, v.0, av);
        assert(self.adj_map().dom() =~= self.node_map().dom());
        assert(self.outs(u.0) == g0.outs(u.0).push(Link { node: v, edge: EdgeId(id) }));
        assert(self.ins(v.0) == g0.ins(v.0).push(Link { node: u, edge: EdgeId(id) }));
        assert forall|e: u64| #[trigger] self.edge_map().dom().contains(e) implies {
            let (a, b) = self.edge_map()[e].nodes;
            &&& self.outs(a.0).contains(Link { node: b, edge: EdgeId(e) })
            &&& self.ins(b.0).contains(Link { node: a, edge: EdgeId(e) })
        } by {
            let (a, b) = self.edge_map()[e].nodes;
            if e == id {
                assert(self.outs(u.0).last() == Link { node: v, edge: EdgeId(id) });
                assert(self.ins(v.0).last() == Link { node: u, edge: EdgeId(id) });
            } else {
                assert(g0.edge_map().dom().contains(e));
                let la = Link { node: b, edge: EdgeId(e) };
                let lb = Link { node: a, edge: EdgeId(e) };
                let i = choose|i: int| 0 <= i < g0.outs(a.0).len() && g0.outs(a.0)[i] == la;
                assert(self.outs(a.0)[i] == la);
                let j = choose|j: int| 0 <= j < g0.ins(b.0).len() && g0.ins(b.0)[j] == lb;
                assert(self.ins(b.0)[j] == lb);
            }
        }
        assert forall|n: u64| #[trigger] self.adj_map().dom().contains(n) implies {
            &&& self.outs(n).no_duplicates()
            &&& self.ins(n).no_duplicates()
            &&& forall|i: int| 0 <= i < self.outs(n).len() ==> {
                let l = #[trigger] self.outs(n)[i];
                &&& self.edge_map().dom().contains(l.edge.0)
                &&& self.edge_map()[l.edge.0].nodes == (NodeId(n), l.node)
            }
            &&& forall|i: int| 0 <= i < self.ins(n).len() ==> {
                let l = #[trigger] self.ins(n)[i];
                &&& self.edge_map().dom().contains(l.edge.0)
                &&& self.edge_map()[l.edge.0].nodes == (l.node, NodeId(n))
            }
        } by {
            assert(g0.adj_map().dom().contains(n));
            assert forall|i: int| 0 <= i < g0.outs(n).len() implies
                g0.outs(n)[i].edge.0 != id by {
                let l = g0.outs(n)[i];
                assert(g0.edge_map().dom().contains(l.edge.0));
            }
            assert forall|i: int| 0 <= i < g0.ins(n).len() implies
                g0.ins(n)[i].edge.0 != id by {
                let l = g0.ins(n)[i];
                assert(g0.edge_map().dom().contains(l.edge.0));
            }
        }
        EdgeId(id)
    }

    /// Removes the live edge `id` and its link at both ends.
    pub fn remove_edge(&mut self, id: EdgeId)
        requires
            old(self).wf(),
            old(self).edge_map().dom().contains(id.0),
        ensures
            final(self).wf(),
            edge_removed(*old(self), *final(self), id),
    {
        let ghost g0 = *old(self);
        proof {
            assert(keys_wf(g0.edge_map()));
        }
        let edge = edge_slots_remove(&mut self.edges, id.0).unwrap();
        let (u, v) = edge.nodes;
        let lu = Link { node: v, edge: id };
        let lv = Link { node: u, edge: id };
        let mut au = adj_slots_remove(&mut self.adj, u.0).unwrap();
        let iu = au.outgoing.index_of(&lu).unwrap();
        au.outgoing.swap_remove(iu);
        adj_slots_insert(&mut self.adj, u.0, au);
        let mut av = adj_slots_remove(&mut self.adj, v.0).unwrap();
        let iv = av.incoming.index_of(&lv).unwrap();
        av.incoming.swap_remove(iv);
        adj_slots_insert(&mut self.adj, v.0, av);
        proof {
            lemma_swap_removed(g0.outs(u.0), iu as int);
            lemma_swap_removed(g0.ins(v.0), iv as int);
            assert(self.adj_map().dom() =~= self.node_map().dom());
            assert(self.outs(u.0) == swap_removed(g0.outs(u.0), iu as int));
            assert(self.ins(v.0) == swap_removed(g0.ins(v.0), iv as int));
            assert forall|n: u64, l: Link| self.adj_map().dom().contains(n) implies
                (#[trigger] self.outs(n).contains(l) <==> (g0.outs(n).contains(l) && l.edge != id))
                && (#[trigger] self.ins(n).contains(l) <==> (g0.ins(n).contains(l) && l.edge != id)) by {
                if g0.outs(n).contains(l) {
                    let i = choose|i: int| 0 <= i < g0.outs(n).len() && g0.outs(n)[i] == l;
                    assert(g0.edge_map()[l.edge.0].nodes == (NodeId(n), l.node));
                }
                if g0.ins(n).contains(l) {
                    let i = choose|i: int| 0 <= i < g0.ins(n).len() && g0.ins(n)[i] == l;
                    assert(g0.edge_map()[l.edge.0].nodes == (l.node, NodeId(n)));
                }
            }
            assert forall|e: u64| #[trigger] self.edge_map().dom().contains(e) implies {
                let (a, b) = self.edge_map()[e].nodes;
                &&& self.outs(a.0).contains(Link { node: b, edge: EdgeId(e) })
                &&& self.ins(b.0).contains(Link { node: a, edge: EdgeId(e) })
            } by {
                assert(g0.edge_map().dom().contains(e));
            }
            assert forall|n: u64| #[trigger] self.adj_map().dom().contains(n) implies {
                &&& self.outs(n).no_duplicates()
                &&& self.ins(n).no_duplicates()
                &&& forall|i: int| 0 <= i < self.outs(n).len() ==> {
                    let l = #[trigger] self.outs(n)[i];
                    &&& self.edge_map().dom().contains(l.edge.0)
                    &&& self.edge_map()[l.edge.0].nodes == (NodeId(n), l.node)
                }
                &&& forall|i: int| 0 <= i < self.ins(n).len() ==> {
                    let l = #[trigger] self.ins(n)[i];
                    &&& self.edge_map().dom().contains(l.edge.0)
                    &&& self.edge_map()[l.edge.0].nodes == (l.node, NodeId(n))
                }
            } by {
                assert forall|i: int| 0 <= i < self.outs(n).len() implies {
                    let l = #[trigger] self.outs(n)[i];
                    &&& self.edge_map().dom().contains(l.edge.0)
                    &&& self.edge_map()[l.edge.0].nodes == (NodeId(n), l.node)
                } by {
                    let l = self.outs(n)[i];
                    assert(self.outs(n).contains(l));
                    let j = choose|j: int| 0 <= j < g0.outs(n).len() && g0.outs(n)[j] == l;
                }
                assert forall|i: int| 0 <= i < self.ins(n).len() implies {
                    let l = #[trigger] self.ins(n)[i];
                    &&& self.edge_map().dom().contains(l.edge.0)
                    &&& self.edge_map()[l.edge.0].nodes == (l.node, NodeId(n))
                } by {
                    let l = self.ins(n)[i];
                    assert(self.ins(n).contains(l));
                    let j = choose|j: int| 0 <= j < g0.ins(n).len() && g0.ins(n)[j] == l;
                }
            }
        }
    }

    /// Removes the live node `id`, every edge that starts or ends at it, and
    /// the links that stand for those edges.
    pub fn remove_node(&mut self, id: NodeId)
        requires
            old(self).wf(),
            old(self).node_map().dom().contains(id.0),
        ensures
            final(self).wf(),
            node_removed(*old(self), *final(self), id),
    {
        let ghost g0 = *old(self);
        let n = id.0;
        let mut a = adj_slots_get(&self.adj, n).unwrap();
        while a.incoming.len() > 0 || a.outgoing.len() > 0
            invariant
                self.wf(),
                self.node_map() == g0.node_map(),
                self.node_map().dom().contains(n),
                a == self.adj_map()[n],
                forall|e: u64| #[trigger] self.edge_map().dom().contains(e) ==>
                    g0.edge_map().dom().contains(e) && self.edge_map()[e] == g0.edge_map()[e],
                forall|e: u64| #[trigger] g0.edge_map().dom().contains(e) && !touches(g0.edge_map()[e], n)
                    ==> self.edge_map().dom().contains(e),
                forall|m: u64, l: Link|
                    #![trigger self.outs(m).contains(l)]
                    #![trigger self.ins(m).contains(l)]
                    self.adj_map().dom().contains(m) ==> {
                    &&& self.outs(m).contains(l) <==> (g0.outs(m).contains(l)
                        && self.edge_map().dom().contains(l.edge.0))
                    &&& self.ins(m).contains(l) <==> (g0.ins(m).contains(l)
                        && self.edge_map().dom().contains(l.edge.0))
                },
            decreases self.edge_map().dom().len(),
        {
            let next: EdgeId;
            if a.incoming.len() > 0 {
                next = a.incoming[0].edge;
                assert(self.ins(n)[0] == a.incoming@[0]);
            } else {
                next = a.outgoing[0].edge;
                assert(self.outs(n)[0] == a.outgoing@[0]);
            }
            let ghost g1 = *self;
            proof {
                assert(g1.edge_map().dom().contains(next.0));
                assert(touches(g1.edge_map()[next.0], n));
            }
            self.remove_edge(next);
            proof {
                assert(self.edge_map().dom() =~= g1.edge_map().dom().remove(next.0));
            }
            a = adj_slots_get(&self.adj, n).unwrap();
        }
        proof {
            assert forall|e: u64| #[trigger] self.edge_map().dom().contains(e) implies
                !touches(self.edge_map()[e], n) by {
                let (u, v) = self.edge_map()[e].nodes;
                if v.0 == n {
                    let i = choose|i: int| 0 <= i < self.ins(n).len() && self.ins(n)[i] == Link { node: u, edge: EdgeId(e) };
                }
                if u.0 == n {
                    let i = choose|i: int| 0 <= i < self.outs(n).len() && self.outs(n)[i] == Link { node: v, edge: EdgeId(e) };
                }
            }
        }
        let ghost g2 = *self;
        adj_slots_remove(&mut self.adj, n);
        node_slots_remove(&mut self.nodes, n);
        proof {
            assert(self.adj_map().dom() =~= self.node_map().dom());
            assert forall|e: u64| #[trigger] self.edge_map().dom().contains(e) implies {
                let (u, v) = self.edge_map()[e].nodes;
                &&& self.node_map().dom().contains(u.0)
                &&& self.node_map().dom().contains(v.0)
                &&& self.outs(u.0).contains(Link { node: v, edge: EdgeId(e) })
                &&& self.ins(v.0).contains(Link { node: u, edge: EdgeId(e) })
            } by {
                assert(g2.edge_map().dom().contains(e));
            }
            assert forall|m: u64| #[trigger] self.adj_map().dom().contains(m) implies {
                &&& self.outs(m).no_duplicates()
                &&& self.ins(m).no_duplicates()
                &&& forall|i: int| 0 <= i < self.outs(m).len() ==> {
                    let l = #[trigger] self.outs(m)[i];
                    &&& self.edge_map().dom().contains(l.edge.0)
                    &&& self.edge_map()[l.edge.0].nodes == (NodeId(m), l.node)
                }
                &&& forall|i: int| 0 <= i < self.ins(m).len() ==> {
                    let l = #[trigger] self.ins(m)[i];
                    &&& self.edge_map().dom().contains(l.edge.0)
                    &&& self.edge_map()[l.edge.0].nodes == (l.node, NodeId(m))
                }
            } by {
                assert(g2.adj_map().dom().contains(m));
                assert(self.adj_map()[m] == g2.adj_map()[m]);
            }
            assert forall|m: u64, l: Link| self.adj_map().dom().contains(m) implies {
                &&& (#[trigger] self.outs(m).contains(l) <==> (g0.outs(m).contains(l) && l.node != id))
                &&& (#[trigger] self.ins(m).contains(l) <==> (g0.ins(m).contains(l) && l.node != id))
            } by {
                assert(g2.adj_map().dom().contains(m));
                assert(self.adj_map()[m] == g2.adj_map()[m]);
                if g0.outs(m).contains(l) {
                    let i = choose|i: int| 0 <= i < g0.outs(m).len() && g0.outs(m)[i] == l;
                    assert(g0.edge_map()[l.edge.0].nodes == (NodeId(m), l.node));
                }
                if g0.ins(m).contains(l) {
                    let i = choose|i: int| 0 <= i < g0.ins(m).len() && g0.ins(m)[i] == l;
                    assert(g0.edge_map()[l.edge.0].nodes == (l.node, NodeId(m)));
                }
            }
        }
    }

    /// The links of node `id`, or `None` where `id` is not live.
    pub fn links(&self, id: NodeId) -> (r: Option<Adjlist>)
        requires
            self.wf(),
        ensures
            r == self.adj_map().get(id.0),
    {
        if is_key_ok(id.0) {
            adj_slots_get(&self.adj, id.0)
        } else {
            None
        }
    }

    /// The ids of all live nodes, each once.
    pub fn node_ids(&self) -> (r: Vec<NodeId>)
        requires
            self.wf(),
        ensures
            r@.len() == self.node_map().dom().len(),
            forall|i: int| 0 <= i < r@.len() ==> self.node_map().dom().contains(#[trigger] r@[i].0),
            forall|k: u64| #[trigger] self.node_map().dom().contains(k) ==> r@.contains(NodeId(k)),
    {
        let keys = node_slots_keys(&self.nodes);
        let mut r: Vec<NodeId> = Vec::new();
        let mut i: usize = 0;
        while i < keys.len()
            invariant
                i <= keys@.len(),
                r@.len() == i,
                forall|j: int| 0 <= j < i ==> #[trigger] r@[j] == NodeId(keys@[j]),
            decreases keys@.len() - i,
        {
            r.push(NodeId(keys[i]));
            i = i + 1;
        }
        proof {
            assert(keys@.to_set() =~= self.node_map().dom());
            keys@.unique_seq_to_set();
            assert forall|i: int| 0 <= i < r@.len() implies self.node_map().dom().contains(#[trigger] r@[i].0) by {
                assert(keys@.contains(keys@[i]));
            }
            assert forall|k: u64| #[trigger] self.node_map().dom().contains(k) implies r@.contains(NodeId(k)) by {
                assert(keys@.contains(k));
                let j = choose|j: int| 0 <= j < keys@.len() && keys@[j] == k;
                assert(r@[j] == NodeId(k));
            }
        }
        r
    }

    /// The ids of all live edges, each once.
    pub fn edge_ids(&self) -> (r: Vec<EdgeId>)
        requires
            self.wf(),
        ensures
            r@.len() == self.edge_map().dom().len(),
            forall|i: int| 0 <= i < r@.len() ==> self.edge_map().dom().contains(#[trigger] r@[i].0),
            forall|k: u64| #[trigger] self.edge_map().dom().contains(k) ==> r@.contains(EdgeId(k)),
    {
        let keys = edge_slots_keys(&self.edges);
        let mut r: Vec<EdgeId> = Vec::new();
        let mut i: usize = 0;
        while i < keys.len()
            invariant
                i <= keys@.len(),
                r@.len() == i,
                forall|j: int| 0 <= j < i ==> #[trigger] r@[j] == EdgeId(keys@[j]),
            decreases keys@.len() - i,
        {
            r.push(EdgeId(keys[i]));
            i = i + 1;
        }
        proof {
            assert(keys@.to_set() =~= self.edge_map().dom());
            keys@.unique_seq_to_set();
            assert forall|i: int| 0 <= i < r@.len() implies self.edge_map().dom().contains(#[trigger] r@[i].0) by {
                assert(keys@.contains(keys@[i]));
            }
            assert forall|k: u64| #[trigger] self.edge_map().dom().contains(k) implies r@.contains(EdgeId(k)) by {
                assert(keys@.contains(k));
                let j = choose|j: int| 0 <= j < keys@.len() && keys@[j] == k;
                assert(r@[j] == EdgeId(k));
            }
        }
        r
    }

    /// The node nearest to `pos`, with its squared distance; `None` when
    /// there are no nodes.
    pub fn get_closest_node(&self, pos: Point) -> (r: Option<(NodeId, i64)>)
        requires
            self.wf(),
            pos.in_bounds(),
        ensures
            r is None <==> self.node_map().dom().is_empty(),
            r matches Some((id, d)) ==> {
                &&& self.node_map().dom().contains(id.0)
                &&& d == dist2_spec(self.node_map()[id.0].pos, pos)
                &&& forall|k: u64| #[trigger] self.node_map().dom().contains(k)
                    ==> d <= dist2_spec(self.node_map()[k].pos, pos)
            },
    {
        let keys = node_slots_keys(&self.nodes);
        let mut closest: Option<(NodeId, i64)> = None;
        let mut i: usize = 0;
        while i < keys.len()
            invariant
                self.wf(),
                pos.in_bounds(),
                i <= keys@.len(),
                forall|k: u64| keys@.contains(k) <==> self.node_map().dom().contains(k),
                closest is None <==> i == 0,
                closest matches Some((id, d)) ==> {
                    &&& self.node_map().dom().contains(id.0)
                    &&& d == dist2_spec(self.node_map()[id.0].pos, pos)
                    &&& forall|j: int| 0 <= j < i ==>
                        d <= dist2_spec(self.node_map()[#[trigger] keys@[j]].pos, pos)
                },
            decreases keys@.len() - i,
        {
            let k = keys[i];
            assert(keys@.contains(k));
            let node = node_slots_get(&self.nodes, k).unwrap();
            let d = dist2(node.pos, pos);
            match closest {
                Some((_, best)) => {
                    if d < best {
                        closest = Some((NodeId(k), d));
                    }
                },
                None => {
                    closest = Some((NodeId(k), d));
                },
            }
            i = i + 1;
        }
        proof {
            if !self.node_map().dom().is_empty() {
                let k = self.node_map().dom().choose();
                assert(keys@.contains(k));
            }
            if let Some((id, d)) = closest {
                assert forall|k: u64| #[trigger] self.node_map().dom().contains(k)
                    implies d <= dist2_spec(self.node_map()[k].pos, pos) by {
                    assert(keys@.contains(k));
                    let j = choose|j: int| 0 <= j < keys@.len() && keys@[j] == k;
                }
            }
        }
        closest
    }

    /// Replaces the live node `id`.
    pub fn set_node(&mut self, id: NodeId, node: Node)
        requires
            old(self).wf(),
            old(self).node_map().dom().contains(id.0),
            node.pos.in_bounds(),
        ensures
            final(self).wf(),
            final(self).node_map() == old(self).node_map().insert(id.0, node),
            final(self).edge_map() == old(self).edge_map(),
            final(self).adj_map() == old(self).adj_map(),
    {
        node_slots_set(&mut self.nodes, id.0, node);
        assert(self.node_map().dom() =~= old(self).node_map().dom());
        assert(self.edges_linked());
    }
}

/// Two graphs hold the same nodes and edges, and each node the same links.
pub open spec fn same_graph(a: Graph, b: Graph) -> bool {
    &&& a.node_map() == b.node_map()
    &&& a.edge_map() == b.edge_map()
    &&& a.adj_map().dom() == b.adj_map().dom()
    &&& forall|n: u64, l: Link|
        #![trigger a.outs(n).contains(l)]
        #![trigger a.ins(n).contains(l)]
        a.adj_map().dom().contains(n) ==> {
            &&& a.outs(n).contains(l) <==> b.outs(n).contains(l)
            &&& a.ins(n).contains(l) <==> b.ins(n).contains(l)
        }
}

/// In a well-formed graph every edge (u, v) has v among u's outgoing links
/// and u among v's incoming links. Every operation of `Graph` ensures `wf`,
/// so this holds after any sequence of them.
pub proof fn lemma_edge_listed_at_both_ends(g: Graph, e: EdgeId)
    requires
        g.wf(),
        g.edge_map().dom().contains(e.0),
    ensures
        g.outs(g.edge_map()[e.0].nodes.0.0).contains(Link { node: g.edge_map()[e.0].nodes.1, edge: e }),
        g.ins(g.edge_map()[e.0].nodes.1.0).contains(Link { node: g.edge_map()[e.0].nodes.0, edge: e }),
{
}

/// After a node is removed, no edge starts or ends at it and no link leads to it.
pub proof fn lemma_removed_node_unreferenced(g0: Graph, g1: Graph, id: NodeId)
    requires
        g0.wf(),
        node_removed(g0, g1, id),
    ensures
        forall|e: u64| #[trigger] g1.edge_map().dom().contains(e) ==> !touches(g1.edge_map()[e], id.0),
        forall|m: u64, i: int| g1.adj_map().dom().contains(m) && 0 <= i < g1.outs(m).len()
            ==> #[trigger] g1.outs(m)[i].node != id,
        forall|m: u64, i: int| g1.adj_map().dom().contains(m) && 0 <= i < g1.ins(m).len()
            ==> #[trigger] g1.ins(m)[i].node != id,
{
    assert forall|m: u64, i: int| g1.adj_map().dom().contains(m) && 0 <= i < g1.outs(m).len()
        implies #[trigger] g1.outs(m)[i].node != id by {
        assert(g1.outs(m).contains(g1.outs(m)[i]));
    }
    assert forall|m: u64, i: int| g1.adj_map().dom().contains(m) && 0 <= i < g1.ins(m).len()
        implies #[trigger] g1.ins(m)[i].node != id by {
        assert(g1.ins(m).contains(g1.ins(m)[i]));
    }
}

/// Removing an edge after adding it gives back the graph as it was, also when
/// what came between left the graph the same. So removing, in reverse order,
/// whatever nodes and edges were added returns the graph to where it started.
pub proof fn lemma_edge_round_trip(g0: Graph, g1: Graph, g1b: Graph, g2: Graph, edge: Edge, id: EdgeId)
    requires
        g0.wf(),
        edge_added(g0, g1, edge, id),
        same_graph(g1, g1b),
        edge_removed(g1b, g2, id),
    ensures
        same_graph(g2, g0),
{
    assert(g2.edge_map() =~= g0.edge_map());
    assert forall|n: u64, l: Link|
        #![trigger g2.outs(n).contains(l)]
        #![trigger g2.ins(n).contains(l)]
        g2.adj_map().dom().contains(n) implies {
            &&& g2.outs(n).contains(l) <==> g0.outs(n).contains(l)
            &&& g2.ins(n).contains(l) <==> g0.ins(n).contains(l)
        } by {
        if g0.outs(n).contains(l) {
            let i = choose|i: int| 0 <= i < g0.outs(n).len() && g0.outs(n)[i] == l;
            assert(g0.edge_map().dom().contains(l.edge.0));
            assert(g1.outs(n)[i] == l);
            assert(g1.outs(n).contains(l));
        }
        if g0.ins(n).contains(l) {
            let i = choose|i: int| 0 <= i < g0.ins(n).len() && g0.ins(n)[i] == l;
            assert(g0.edge_map().dom().contains(l.edge.0));
            assert(g1.ins(n)[i] == l);
            assert(g1.ins(n).contains(l));
        }
        if g1.outs(n).contains(l) && l.edge != id {
            let i = choose|i: int| 0 <= i < g1.outs(n).len() && g1.outs(n)[i] == l;
            if n == edge.nodes.0.0 {
                assert(i < g0.outs(n).len());
            }
            assert(g0.outs(n)[i] == l);
        }
        if g1.ins(n).contains(l) && l.edge != id {
            let i = choose|i: int| 0 <= i < g1.ins(n).len() && g1.ins(n)[i] == l;
            if n == edge.nodes.1.0 {
                assert(i < g0.ins(n).len());
            }
            assert(g0.ins(n)[i] == l);
        }
    }
}

/// Removing a node after adding it gives back the graph as it was, also when
/// what came between left the graph the same.
pub proof fn lemma_node_round_trip(g0: Graph, g1: Graph, g1b: Graph, g2: Graph, node: Node, id: NodeId)
    requires
        g0.wf(),
        node_added(g0, g1, node, id),
        same_graph(g1, g1b),
        node_removed(g1b, g2, id),
    ensures
        same_graph(g2, g0),
{
    assert(g2.node_map() =~= g0.node_map());
    assert(g2.edge_map() =~= g0.edge_map()) by {
        assert forall|e: u64| g0.edge_map().dom().contains(e) implies !touches(g0.edge_map()[e], id.0) by {
            assert(g0.edges_linked());
        }
    }
    assert forall|n: u64, l: Link|
        #![trigger g2.outs(n).contains(l)]
        #![trigger g2.ins(n).contains(l)]
        g2.adj_map().dom().contains(n) implies {
            &&& g2.outs(n).contains(l) <==> g0.outs(n).contains(l)
            &&& g2.ins(n).contains(l) <==> g0.ins(n).contains(l)
        } by {
        assert(g1.adj_map()[n] == g0.adj_map()[n]);
        assert(g1b.outs(n).contains(l) <==> g1.outs(n).contains(l));
        assert(g1b.ins(n).contains(l) <==> g1.ins(n).contains(l));
        if g0.outs(n).contains(l) {
            let i = choose|i: int| 0 <= i < g0.outs(n).len() && g0.outs(n)[i] == l;
            assert(g0.edge_map()[l.edge.0].nodes == (NodeId(n), l.node));
        }
        if g0.ins(n).contains(l) {
            let i = choose|i: int| 0 <= i < g0.ins(n).len() && g0.ins(n)[i] == l;
            assert(g0.edge_map()[l.edge.0].nodes == (l.node, NodeId(n)));
        }
    }
}

/// Holding the same nodes, edges and links is symmetric and transitive, so
/// round trips can be chained and nested.
pub proof fn lemma_same_graph_chain(a: Graph, b: Graph, c: Graph)
    requires
        same_graph(a, b),
        same_graph(b, c),
    ensures
        same_graph(b, a),
        same_graph(a, c),
{
    assert forall|n: u64, l: Link|
        #![trigger b.outs(n).contains(l)]
        #![trigger b.ins(n).contains(l)]
        b.adj_map().dom().contains(n) implies {
            &&& b.outs(n).contains(l) <==> a.outs(n).contains(l)
            &&& b.ins(n).contains(l) <==> a.ins(n).contains(l)
        } by {
        assert(a.adj_map().dom().contains(n));
        assert(a.outs(n).contains(l) <==> b.outs(n).contains(l));
        assert(a.ins(n).contains(l) <==> b.ins(n).contains(l));
    }
    assert forall|n: u64, l: Link|
        #![trigger a.outs(n).contains(l)]
        #![trigger a.ins(n).contains(l)]
        a.adj_map().dom().contains(n) implies {
            &&& a.outs(n).contains(l) <==> c.outs(n).contains(l)
            &&& a.ins(n).contains(l) <==> c.ins(n).contains(l)
        } by {
        assert(b.adj_map().dom().contains(n));
        assert(b.outs(n).contains(l) <==> c.outs(n).contains(l));
        assert(b.ins(n).contains(l) <==> c.ins(n).contains(l));
    }
}

/// A well-formed graph without nodes has no edges and no links.
pub proof fn lemma_no_nodes_no_edges(g: Graph)
    requires
        g.wf(),
        g.node_map().dom().is_empty(),
    ensures
        g.edge_map().dom().is_empty(),
        g.adj_map().dom().is_empty(),
{
    if !g.edge_map().dom().is_empty() {
        let e = g.edge_map().dom().choose();
        assert(g.node_map().dom().contains(g.edge_map()[e].nodes.0.0));
    }
}

/// `new` is `old` without node `id`, without the edges that start or end at
/// it, and without the links that lead to it.
pub open spec fn node_removed(old: Graph, new: Graph, id: NodeId) -> bool {
    &&& new.node_map() == old.node_map().remove(id.0)
    &&& forall|e: u64| #[trigger] new.edge_map().dom().contains(e) <==>
        (old.edge_map().dom().contains(e) && !touches(old.edge_map()[e], id.0))
    &&& forall|e: u64| #[trigger] new.edge_map().dom().contains(e) ==>
        new.edge_map()[e] == old.edge_map()[e] && !touches(new.edge_map()[e], id.0)
    &&& new.adj_map().dom() == new.node_map().dom()
    &&& forall|m: u64, l: Link|
        #![trigger new.outs(m).contains(l)]
        #![trigger new.ins(m).contains(l)]
        new.adj_map().dom().contains(m) ==> {
            &&& new.outs(m).contains(l) <==> (old.outs(m).contains(l) && l.node != id)
            &&& new.ins(m).contains(l) <==> (old.ins(m).contains(l) && l.node != id)
        }
}

/// `new` is `old` without edge `id` and without the links that stand for it.
pub open spec fn edge_removed(old: Graph, new: Graph, id: EdgeId) -> bool {
    &&& new.edge_map() == old.edge_map().remove(id.0)
    &&& new.node_map() == old.node_map()
    &&& new.adj_map().dom() == old.adj_map().dom()
    &&& forall|n: u64, l: Link|
        #![trigger new.outs(n).contains(l)]
        #![trigger new.ins(n).contains(l)]
        new.adj_map().dom().contains(n) ==> {
            &&& new.outs(n).contains(l) <==> (old.outs(n).contains(l) && l.edge != id)
            &&& new.ins(n).contains(l) <==> (old.ins(n).contains(l) && l.edge != id)
        }
}

/// `new` is `old` with `node` added under the fresh id `id`, which has no links.
pub open spec fn node_added(old: Graph, new: Graph, node: Node, id: NodeId) -> bool {
    &&& !old.node_map().dom().contains(id.0)
    &&& new.node_map() == old.node_map().insert(id.0, node)
    &&& new.edge_map() == old.edge_map()
    &&& new.adj_map().dom() == new.node_map().dom()
    &&& new.outs(id.0) == Seq::<Link>::empty()
    &&& new.ins(id.0) == Seq::<Link>::empty()
    &&& forall|n: u64| n != id.0 ==> #[trigger] new.adj_map()[n] == old.adj_map()[n]
}

/// `new` is `old` with `edge` added under the fresh id `id`, listed last among
/// the source's outgoing and the target's incoming links.
pub open spec fn edge_added(old: Graph, new: Graph, edge: Edge, id: EdgeId) -> bool {
    let (u, v) = edge.nodes;
    &&& !old.edge_map().dom().contains(id.0)
    &&& new.edge_map() == old.edge_map().insert(id.0, edge)
    &&& new.node_map() == old.node_map()
    &&& new.adj_map().dom() == old.adj_map().dom()
    &&& new.outs(u.0) == old.outs(u.0).push(Link { node: v, edge: id })
    &&& new.ins(v.0) == old.ins(v.0).push(Link { node: u, edge: id })
    &&& forall|n: u64| n != u.0 ==> #[trigger] new.outs(n) == old.outs(n)
    &&& forall|n: u64| n != v.0 ==> #[trigger] new.ins(n) == old.ins(n)
}

} // verus!
