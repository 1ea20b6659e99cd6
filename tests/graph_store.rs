use node_sequencer::graph::{Edge, EdgeId, Graph, Link, Node, NodeId};
use node_sequencer::util::IndexOf;

fn has(list: &Vec<Link>, node: NodeId, edge: EdgeId) -> bool {
    list.iter().any(|l| l.node == node && l.edge == edge)
}

#[test]
fn edge_new_keeps_its_ends() {
    let e = Edge::new(NodeId(1), NodeId(2));
    assert_eq!(e.nodes, (NodeId(1), NodeId(2)));
}

#[test]
fn edges_are_listed_at_both_ends() {
    let mut g = Graph::new();
    let a = g.add_node(Node::new(0, 0));
    let b = g.add_node(Node::new(10, 0));
    let c = g.add_node(Node::new(20, 5));
    let ab = g.add_edge(Edge::new(a, b));
    let bc = g.add_edge(Edge::new(b, c));
    let ca = g.add_edge(Edge::new(c, a));
    let la = g.links(a).unwrap();
    let lb = g.links(b).unwrap();
    let lc = g.links(c).unwrap();
    assert!(has(&la.outgoing, b, ab));
    assert!(has(&lb.incoming, a, ab));
    assert!(has(&lb.outgoing, c, bc));
    assert!(has(&lc.incoming, b, bc));
    assert!(has(&lc.outgoing, a, ca));
    assert!(has(&la.incoming, c, ca));
    assert_eq!(la.outgoing.len(), 1);
    assert_eq!(la.incoming.len(), 1);
    g.remove_edge(bc);
    let lb = g.links(b).unwrap();
    let lc = g.links(c).unwrap();
    assert!(lb.outgoing.is_empty());
    assert!(lc.incoming.is_empty());
    assert!(g.edge(bc).is_none());
    assert_eq!(g.edge_count(), 2);
}

#[test]
fn removing_a_node_removes_its_edges_and_links() {
    let mut g = Graph::new();
    let a = g.add_node(Node::new(0, 0));
    let b = g.add_node(Node::new(10, 0));
    let c = g.add_node(Node::new(20, 0));
    let ab = g.add_edge(Edge::new(a, b));
    let bc = g.add_edge(Edge::new(b, c));
    let ac = g.add_edge(Edge::new(a, c));
    let cb = g.add_edge(Edge::new(c, b));
    g.remove_node(b);
    assert!(g.node(b).is_none());
    assert!(g.links(b).is_none());
    assert!(g.edge(ab).is_none());
    assert!(g.edge(bc).is_none());
    assert!(g.edge(cb).is_none());
    assert!(g.edge(ac).is_some());
    assert_eq!(g.edge_count(), 1);
    for id in g.edge_ids() {
        let e = g.edge(id).unwrap();
        assert!(e.nodes.0 != b && e.nodes.1 != b);
    }
    for n in [a, c] {
        let l = g.links(n).unwrap();
        assert!(l.outgoing.iter().all(|x| x.node != b));
        assert!(l.incoming.iter().all(|x| x.node != b));
    }
    assert_eq!(g.links(a).unwrap().outgoing.len(), 1);
    assert_eq!(g.links(c).unwrap().incoming.len(), 1);
    assert!(g.links(c).unwrap().outgoing.is_empty());
}

#[test]
fn removing_in_reverse_order_empties_the_store() {
    let mut g = Graph::new();
    let mut nodes = Vec::new();
    for i in 0..6 {
        nodes.push(g.add_node(Node::new(i * 10, i * 3)));
    }
    let mut edges = Vec::new();
    for i in 0..5 {
        edges.push(g.add_edge(Edge::new(nodes[i], nodes[i + 1])));
        edges.push(g.add_edge(Edge::new(nodes[i + 1], nodes[i])));
    }
    edges.push(g.add_edge(Edge::new(nodes[0], nodes[5])));
    assert_eq!(g.node_count(), 6);
    assert_eq!(g.edge_count(), 11);
    for e in edges.iter().rev() {
        g.remove_edge(*e);
    }
    for n in &nodes {
        let l = g.links(*n).unwrap();
        assert!(l.incoming.is_empty() && l.outgoing.is_empty());
    }
    for n in nodes.iter().rev() {
        g.remove_node(*n);
    }
    assert_eq!(g.node_count(), 0);
    assert_eq!(g.edge_count(), 0);
    assert!(g.node_ids().is_empty());
    assert!(g.edge_ids().is_empty());
    for n in &nodes {
        assert!(g.links(*n).is_none());
    }
}

#[test]
fn a_stale_id_does_not_alias_a_new_node() {
    let mut g = Graph::new();
    let a = g.add_node(Node::new(1, 1));
    g.remove_node(a);
    let b = g.add_node(Node::new(2, 2));
    assert!(a != b);
    assert!(g.node(a).is_none());
    assert_eq!(g.node(b).unwrap().pos.x, 2);
    assert!(g.node(NodeId(0)).is_none());
    assert!(g.edge(EdgeId(12345)).is_none());
}

#[test]
fn closest_node_is_the_nearest() {
    let mut g = Graph::new();
    assert!(g.get_closest_node(node_sequencer::geom::Point { x: 0, y: 0 }).is_none());
    let _a = g.add_node(Node::new(0, 0));
    let b = g.add_node(Node::new(30, 40));
    let _c = g.add_node(Node::new(-100, 7));
    let (id, d) = g.get_closest_node(node_sequencer::geom::Point { x: 33, y: 44 }).unwrap();
    assert_eq!(id, b);
    assert_eq!(d, 25);
}

#[test]
fn index_of_finds_the_first_match() {
    let l = |n: u64, e: u64| Link { node: NodeId(n), edge: EdgeId(e) };
    let v = vec![l(1, 2), l(3, 4), l(1, 2), l(5, 6)];
    assert_eq!(v.index_of(&l(1, 2)), Some(0));
    assert_eq!(v.index_of(&l(5, 6)), Some(3));
    assert_eq!(v.index_of(&l(7, 8)), None);
    let empty: Vec<Link> = Vec::new();
    assert_eq!(empty.index_of(&l(1, 2)), None);
}
