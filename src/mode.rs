//! The editing modes: how pointer and key input select, move, create and
//! delete nodes and edges.
use vstd::prelude::*;
use crate::geom::{dist2, dist2_spec, lemma_dist2_bound, seg_dist2_spec, Point, NODE_RADIUS};
use crate::graph::{edge_added, edge_removed, node_added, node_removed, Edge, EdgeId, Graph, Node, NodeId, NodeKind};
use crate::slots::{edge_slots_keys, node_slots_keys, SLOTS_MAX};

verus! {

/// Squared distance within which the pointer hovers over a node: twice the
/// node radius.
pub const HOVER_DIST2: i64 = 784;

/// Percentage of an edge, half at each end, that edge picking leaves to the nodes.
pub const EDGE_MARGIN: u64 = 50;

/// Squared distance beyond which delete mode selects nothing.
pub const DELETE_CUTOFF: i128 = 10000;

/// What delete mode would remove.
#[derive(Clone, Copy, Debug, PartialEq, Eq, Structural)]
pub enum Selection {
    Node(NodeId),
    Edge(EdgeId),
}

/// The live editing mode.
#[derive(Clone, Copy, Debug, PartialEq, Eq, Structural)]
pub enum Mode {
    /// Selects and drags nodes.
    Base { selected_node: Option<NodeId> },
    /// Chains new edges from `first`.
    AddEdge { first: Option<NodeId> },
    /// Removes what is selected.
    Delete(Option<Selection>),
    /// Stamps `kind` on nodes.
    UpdNode { kind: NodeKind },
}

impl Default for Mode {
    fn default() -> (r: Mode)
        ensures
            r == (Mode::Base { selected_node: None }),
    {
        Mode::Base { selected_node: None }
    }
}

/// Squared distance from `p` to live node `k`.
pub open spec fn node_d(g: Graph, p: Point, k: u64) -> int {
    dist2_spec(g.node_map()[k].pos, p)
}

/// Squared distance from `p` to live edge `e`, as edge picking measures it.
pub open spec fn edge_d(g: Graph, p: Point, e: u64) -> int {
    let (u, v) = g.edge_map()[e].nodes;
    seg_dist2_spec(p, g.node_map()[u.0].pos, g.node_map()[v.0].pos, EDGE_MARGIN)
}

/// The node nearest to `p`, if it lies within hover distance.
pub fn hovered_node(g: &Graph, p: Point) -> (r: Option<NodeId>)
    requires
        g.wf(),
        p.in_bounds(),
    ensures
        r is None <==> forall|k: u64| #[trigger] g.node_map().dom().contains(k) ==> node_d(*g, p, k) > HOVER_DIST2,
        r matches Some(id) ==> {
            &&& g.node_map().dom().contains(id.0)
            &&& node_d(*g, p, id.0) <= HOVER_DIST2
            &&& forall|k: u64| #[trigger] g.node_map().dom().contains(k) ==> node_d(*g, p, id.0) <= node_d(*g, p, k)
        },
{
    match g.get_closest_node(p) {
        Some((id, d)) => {
            if d <= HOVER_DIST2 {
                Some(id)
            } else {
                assert(forall|k: u64| #[trigger] g.node_map().dom().contains(k) ==> node_d(*g, p, k) >= d);
                None
            }
        },
        None => None,
    }
}

/// The first node, in the store's order, within squared distance `r2` of `p`.
pub fn first_node_within(g: &Graph, p: Point, r2: i64) -> (r: Option<NodeId>)
    requires
        g.wf(),
        p.in_bounds(),
    ensures
        r is None <==> forall|k: u64| #[trigger] g.node_map().dom().contains(k) ==> node_d(*g, p, k) > r2,
        r matches Some(id) ==> g.node_map().dom().contains(id.0) && node_d(*g, p, id.0) <= r2,
{
    let keys = node_slots_keys(&g.nodes);
    let mut i: usize = 0;
    while i < keys.len()
        invariant
            g.wf(),
            p.in_bounds(),
            i <= keys@.len(),
            forall|k: u64| keys@.contains(k) <==> g.node_map().dom().contains(k),
            forall|j: int| 0 <= j < i ==> node_d(*g, p, #[trigger] keys@[j]) > r2,
        decreases keys@.len() - i,
    {
        let k = keys[i];
        assert(keys@.contains(k));
        let node = g.node(NodeId(k)).unwrap();
        if dist2(node.pos, p) <= r2 {
            return Some(NodeId(k));
        }
        i = i + 1;
    }
    assert forall|k: u64| #[trigger] g.node_map().dom().contains(k) implies node_d(*g, p, k) > r2 by {
        assert(keys@.contains(k));
        let j = choose|j: int| 0 <= j < keys@.len() && keys@[j] == k;
    }
    None
}

/// What delete mode may select under `p`: nothing when every node and every
/// edge is beyond the cutoff; else a nearest node when no edge is nearer; else
/// a nearest edge, which is nearer than every node.
pub open spec fn delete_pick(g: Graph, p: Point, r: Option<Selection>) -> bool {
    &&& (r is None <==> (forall|k: u64| #[trigger] g.node_map().dom().contains(k) ==> node_d(g, p, k) > DELETE_CUTOFF)
        && (forall|e: u64| #[trigger] g.edge_map().dom().contains(e) ==> edge_d(g, p, e) > DELETE_CUTOFF))
    &&& (r matches Some(Selection::Node(id)) ==> {
        &&& g.node_map().dom().contains(id.0)
        &&& node_d(g, p, id.0) <= DELETE_CUTOFF
        &&& forall|k: u64| #[trigger] g.node_map().dom().contains(k) ==> node_d(g, p, id.0) <= node_d(g, p, k)
        &&& forall|e: u64| #[trigger] g.edge_map().dom().contains(e) ==> edge_d(g, p, e) >= node_d(g, p, id.0)
    })
    &&& (r matches Some(Selection::Edge(id)) ==> {
        &&& g.edge_map().dom().contains(id.0)
        &&& edge_d(g, p, id.0) <= DELETE_CUTOFF
        &&& forall|k: u64| #[trigger] g.node_map().dom().contains(k) ==> edge_d(g, p, id.0) < node_d(g, p, k)
        &&& forall|e: u64| #[trigger] g.edge_map().dom().contains(e) ==> edge_d(g, p, id.0) <= edge_d(g, p, e)
    })
}

/// What delete mode selects under `p`: the nearest node, unless an edge is
/// nearer still (and nearer than twice the node's distance); nothing when the
/// nearer of the two is farther than the cutoff.
pub fn delete_selection(g: &Graph, p: Point) -> (r: Option<Selection>)
    requires
        g.wf(),
        p.in_bounds(),
    ensures
        delete_pick(*g, p, r),
{
    let (node, nd) = match g.get_closest_node(p) {
        Some(c) => c,
        None => {
            assert forall|e: u64| g.edge_map().dom().contains(e) implies false by {
                assert(g.node_map().dom().contains(g.edge_map()[e].nodes.0.0));
            }
            return None;
        },
    };
    proof {
        lemma_dist2_bound(g.node_map()[node.0].pos, p);
    }
    let nd = nd as i128;
    let mut best = nd;
    let mut sel = Selection::Node(node);
    let keys = edge_slots_keys(&g.edges);
    let mut i: usize = 0;
    while i < keys.len()
        invariant
            g.wf(),
            p.in_bounds(),
            i <= keys@.len(),
            forall|k: u64| keys@.contains(k) <==> g.edge_map().dom().contains(k),
            g.node_map().dom().contains(node.0),
            nd == node_d(*g, p, node.0),
            forall|k: u64| #[trigger] g.node_map().dom().contains(k) ==> nd <= node_d(*g, p, k),
            0 <= nd <= 0x8_0000_0000,
            best <= nd,
            forall|j: int| 0 <= j < i ==> best <= edge_d(*g, p, #[trigger] keys@[j]),
            sel matches Selection::Node(id) ==> id == node && best == nd,
            sel matches Selection::Edge(id) ==> g.edge_map().dom().contains(id.0) && best == edge_d(*g, p, id.0)
                && best < nd,
        decreases keys@.len() - i,
    {
        let k = keys[i];
        assert(keys@.contains(k));
        let edge = g.edge(EdgeId(k)).unwrap();
        let d = edge.distance_squared(p, g, EDGE_MARGIN);
        if d < 4 * nd && d < best {
            best = d;
            sel = Selection::Edge(EdgeId(k));
        }
        i = i + 1;
    }
    assert forall|e: u64| #[trigger] g.edge_map().dom().contains(e) implies best <= edge_d(*g, p, e) by {
        assert(keys@.contains(e));
        let j = choose|j: int| 0 <= j < keys@.len() && keys@[j] == e;
    }
    if best > DELETE_CUTOFF {
        None
    } else {
        Some(sel)
    }
}

/// The input of one tick: pointer position on the canvas and what the
/// pointer buttons and the mode keys did.
#[derive(Clone, Copy, Debug, PartialEq, Eq, Structural)]
pub struct Input {
    pub pointer: Point,
    pub left_down: bool,
    pub left_pressed: bool,
    pub left_released: bool,
    pub right_pressed: bool,
    pub escape_pressed: bool,
    pub delete_key_pressed: bool,
    pub add_edge_key_pressed: bool,
}

/// Every node and edge that the mode refers to is live.
pub open spec fn mode_wf(m: Mode, g: Graph) -> bool {
    match m {
        Mode::Base { selected_node: Some(n) } => g.node_map().dom().contains(n.0),
        Mode::AddEdge { first: Some(n) } => g.node_map().dom().contains(n.0),
        Mode::Delete(Some(Selection::Node(n))) => g.node_map().dom().contains(n.0),
        Mode::Delete(Some(Selection::Edge(e))) => g.edge_map().dom().contains(e.0),
        _ => true,
    }
}

/// Room for one more node and one more edge.
pub open spec fn has_room(g: Graph) -> bool {
    g.node_map().dom().len() < SLOTS_MAX && g.edge_map().dom().len() < SLOTS_MAX
}

/// The mode after the keys that act in every mode: escape or a right click
/// go back to the base mode; the delete key enters delete mode, or leaves it.
pub open spec fn after_global_keys(m: Mode, input: Input) -> Mode {
    let m1 = if input.escape_pressed || input.right_pressed {
        Mode::Base { selected_node: None }
    } else {
        m
    };
    if input.delete_key_pressed {
        if m1 is Delete {
            Mode::Base { selected_node: None }
        } else {
            Mode::Delete(None)
        }
    } else {
        m1
    }
}

/// A node at `p` with kind `kind`.
pub open spec fn node_at(p: Point, kind: NodeKind) -> Node {
    Node { pos: p, kind }
}

/// Whether the mode toggled by `delete_key` is delete mode.
fn is_delete(m: &Mode) -> (r: bool)
    ensures
        r == (*m is Delete),
{
    match m {
        Mode::Delete(_) => true,
        _ => false,
    }
}

/// Interprets one tick of input against the mode, changing the mode and the
/// graph. In edge mode a click on the pending endpoint itself adds nothing,
/// as an edge needs two distinct ends.
pub fn handle_input(mode: &mut Mode, g: &mut Graph, input: Input, hovered: Option<NodeId>)
    requires
        old(g).wf(),
        mode_wf(*old(mode), *old(g)),
        has_room(*old(g)),
        input.pointer.in_bounds(),
        hovered matches Some(h) ==> old(g).node_map().dom().contains(h.0),
    ensures
        final(g).wf(),
        mode_wf(*final(mode), *final(g)),
        ({
            let m = after_global_keys(*old(mode), input);
            let p = input.pointer;
            match m {
                Mode::Base { selected_node } => {
                    &&& *final(g) == *old(g)
                    &&& if input.left_released {
                        *final(mode) == Mode::Base { selected_node: None }
                    } else if input.add_edge_key_pressed {
                        *final(mode) == Mode::AddEdge { first: None }
                    } else if input.left_down && selected_node is None {
                        &&& *final(mode) is Base
                        &&& match *final(mode) {
                            Mode::Base { selected_node: Some(n) } => node_d(*old(g), p, n.0) <= NODE_RADIUS * NODE_RADIUS,
                            _ => forall|k: u64| #[trigger] old(g).node_map().dom().contains(k)
                                ==> node_d(*old(g), p, k) > NODE_RADIUS * NODE_RADIUS,
                        }
                    } else {
                        *final(mode) == m
                    }
                },
                Mode::Delete(sel) => if input.left_pressed {
                    &&& *final(mode) == Mode::Delete(None)
                    &&& match sel {
                        Some(Selection::Node(n)) => node_removed(*old(g), *final(g), n),
                        Some(Selection::Edge(e)) => edge_removed(*old(g), *final(g), e),
                        None => *final(g) == *old(g),
                    }
                } else {
                    *final(mode) == m && *final(g) == *old(g)
                },
                Mode::AddEdge { first } => if input.left_pressed {
                    match (first, hovered) {
                        (None, Some(h)) => *final(mode) == Mode::AddEdge { first: Some(h) } && *final(g) == *old(g),
                        (None, None) => match *final(mode) {
                            Mode::AddEdge { first: Some(n) } => node_added(*old(g), *final(g), node_at(p, NodeKind::Default), n),
                            _ => false,
                        },
                        (Some(f), Some(h)) => if f == h {
                            *final(mode) == m && *final(g) == *old(g)
                        } else {
                            &&& *final(mode) == Mode::AddEdge { first: Some(h) }
                            &&& exists|e: EdgeId| edge_added(*old(g), *final(g), Edge { nodes: (f, h) }, e)
                        },
                        (Some(f), None) => match *final(mode) {
                            Mode::AddEdge { first: Some(n) } => exists|mid: Graph, e: EdgeId| {
                                &&& node_added(*old(g), mid, node_at(p, NodeKind::Default), n)
                                &&& edge_added(mid, *final(g), Edge { nodes: (f, n) }, e)
                            },
                            _ => false,
                        },
                    }
                } else if input.add_edge_key_pressed {
                    *final(mode) == Mode::Base { selected_node: None } && *final(g) == *old(g)
                } else {
                    *final(mode) == m && *final(g) == *old(g)
                },
                Mode::UpdNode { kind } => {
                    &&& *final(mode) == m
                    &&& if input.left_pressed {
                        match hovered {
                            Some(h) => {
                                &&& final(g).node_map() == old(g).node_map().insert(h.0, node_at(old(g).node_map()[h.0].pos, kind))
                                &&& final(g).edge_map() == old(g).edge_map()
                                &&& final(g).adj_map() == old(g).adj_map()
                            },
                            None => exists|n: NodeId| node_added(*old(g), *final(g), node_at(p, kind), n),
                        }
                    } else {
                        *final(g) == *old(g)
                    }
                },
            }
        }),
{
    let p = input.pointer;
    if input.escape_pressed || input.right_pressed {
        *mode = Mode::Base { selected_node: None };
    }
    if input.delete_key_pressed {
        if is_delete(mode) {
            *mode = Mode::Base { selected_node: None };
        } else {
            *mode = Mode::Delete(None);
        }
    }
    match *mode {
        Mode::Base { selected_node } => {
            if input.add_edge_key_pressed {
                *mode = Mode::AddEdge { first: None };
            } else if input.left_down && selected_node.is_none() {
                match first_node_within(g, p, NODE_RADIUS * NODE_RADIUS) {
                    Some(n) => {
                        *mode = Mode::Base { selected_node: Some(n) };
                    },
                    None => {},
                }
            }
            if input.left_released {
                *mode = Mode::Base { selected_node: None };
            }
        },
        Mode::Delete(sel) => {
            if input.left_pressed {
                match sel {
                    Some(Selection::Node(n)) => g.remove_node(n),
                    Some(Selection::Edge(e)) => g.remove_edge(e),
                    None => {},
                }
                *mode = Mode::Delete(None);
            }
        },
        Mode::AddEdge { first } => {
            if input.left_pressed {
                match first {
                    Some(f) => {
                        let second = match hovered {
                            Some(h) => h,
                            None => g.add_node(Node::new(p.x, p.y)),
                        };
                        if second != f {
                            g.add_edge(Edge::new(f, second));
                            *mode = Mode::AddEdge { first: Some(second) };
                        }
                    },
                    None => {
                        let n = match hovered {
                            Some(h) => h,
                            None => g.add_node(Node::new(p.x, p.y)),
                        };
                        *mode = Mode::AddEdge { first: Some(n) };
                    },
                }
            } else if input.add_edge_key_pressed {
                *mode = Mode::Base { selected_node: None };
            }
        },
        Mode::UpdNode { kind } => {
            if input.left_pressed {
                match hovered {
                    Some(h) => {
                        let node = g.node(h).unwrap();
                        g.set_node(h, Node { pos: node.pos, kind });
                    },
                    None => {
                        g.add_node(Node { pos: p, kind });
                    },
                }
            }
        },
    }
}

/// The per-tick part of a mode: a selected node follows the pointer, and
/// delete mode selects anew what lies under the pointer.
pub fn update_mode(mode: &mut Mode, g: &mut Graph, p: Point)
    requires
        old(g).wf(),
        mode_wf(*old(mode), *old(g)),
        p.in_bounds(),
    ensures
        final(g).wf(),
        mode_wf(*final(mode), *final(g)),
        match *old(mode) {
            Mode::Base { selected_node: Some(n) } => {
                &&& *final(mode) == *old(mode)
                &&& final(g).node_map() == old(g).node_map().insert(n.0, node_at(p, old(g).node_map()[n.0].kind))
                &&& final(g).edge_map() == old(g).edge_map()
                &&& final(g).adj_map() == old(g).adj_map()
            },
            Mode::Delete(_) => {
                &&& *final(g) == *old(g)
                &&& *final(mode) is Delete
                &&& match *final(mode) {
                    Mode::Delete(sel) => delete_pick(*old(g), p, sel),
                    _ => false,
                }
            },
            _ => *final(mode) == *old(mode) && *final(g) == *old(g),
        },
{
    match *mode {
        Mode::Base { selected_node: Some(n) } => {
            let node = g.node(n).unwrap();
            g.set_node(n, Node { pos: p, kind: node.kind });
        },
        Mode::Delete(_) => {
            *mode = Mode::Delete(delete_selection(g, p));
        },
        _ => {},
    }
}

/// Half of `s`, rounded down.
fn half_down(s: i64) -> (r: i64)
    requires
        -0x2_0000 <= s <= 0x2_0000,
    ensures
        r == s / 2,
{
    if s >= 0 {
        s / 2
    } else {
        -((1 - s) / 2)
    }
}

impl Selection {
    /// Where the selection is drawn: the node, or the middle of the edge
    /// (rounded down).
    pub fn get_center(self, g: &Graph) -> (r: Point)
        requires
            g.wf(),
            mode_wf(Mode::Delete(Some(self)), *g),
        ensures
            self matches Selection::Node(n) ==> r == g.node_map()[n.0].pos,
            self matches Selection::Edge(e) ==> {
                let (u, v) = g.edge_map()[e.0].nodes;
                let a = g.node_map()[u.0].pos;
                let b = g.node_map()[v.0].pos;
                r.x == (a.x + b.x) / 2 && r.y == (a.y + b.y) / 2
            },
    {
        match self {
            Selection::Node(n) => {
                let node = g.node(n).unwrap();
                node.pos
            },
            Selection::Edge(e) => {
                let edge = g.edge(e).unwrap();
                let a = g.node(edge.nodes.0).unwrap().pos;
                let b = g.node(edge.nodes.1).unwrap().pos;
                Point { x: half_down(a.x + b.x), y: half_down(a.y + b.y) }
            },
        }
    }
}

} // verus!
