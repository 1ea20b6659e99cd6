use node_sequencer::geom::Point;
use node_sequencer::graph::{Edge, Graph, Node, NodeKind};
use node_sequencer::mode::{
    delete_selection, first_node_within, handle_input, hovered_node, update_mode, Input, Mode,
    Selection,
};

fn input(x: i64, y: i64) -> Input {
    Input {
        pointer: Point { x, y },
        left_down: false,
        left_pressed: false,
        left_released: false,
        right_pressed: false,
        escape_pressed: false,
        delete_key_pressed: false,
        add_edge_key_pressed: false,
    }
}

fn click(x: i64, y: i64) -> Input {
    Input { left_pressed: true, left_down: true, ..input(x, y) }
}

#[test]
fn default_mode_is_base_without_selection() {
    assert_eq!(Mode::default(), Mode::Base { selected_node: None });
}

#[test]
fn add_edge_mode_chains_new_nodes() {
    let mut g = Graph::new();
    let mut mode = Mode::AddEdge { first: None };
    let h = hovered_node(&g, Point { x: 0, y: 0 });
    handle_input(&mut mode, &mut g, click(0, 0), h);
    let a = match mode {
        Mode::AddEdge { first: Some(a) } => a,
        _ => panic!("pending endpoint expected"),
    };
    assert_eq!(g.node(a).unwrap().pos, Point { x: 0, y: 0 });
    let h = hovered_node(&g, Point { x: 200, y: 0 });
    assert!(h.is_none());
    handle_input(&mut mode, &mut g, click(200, 0), h);
    let b = match mode {
        Mode::AddEdge { first: Some(b) } => b,
        _ => panic!("pending endpoint expected"),
    };
    assert!(a != b);
    assert_eq!(g.node_count(), 2);
    assert_eq!(g.edge_count(), 1);
    let e = g.edge(g.edge_ids()[0]).unwrap();
    assert_eq!(e.nodes, (a, b));
    let right = Input { right_pressed: true, ..input(50, 50) };
    let h = hovered_node(&g, Point { x: 50, y: 50 });
    handle_input(&mut mode, &mut g, right, h);
    assert_eq!(mode, Mode::Base { selected_node: None });
    assert!(g.node(a).is_some());
    assert!(g.node(b).is_some());
    assert_eq!(g.edge_count(), 1);
}

#[test]
fn add_edge_mode_snaps_to_a_hovered_node() {
    let mut g = Graph::new();
    let a = g.add_node(Node::new(0, 0));
    let b = g.add_node(Node::new(100, 0));
    let mut mode = Mode::AddEdge { first: None };
    let h = hovered_node(&g, Point { x: 20, y: 10 });
    assert_eq!(h, Some(a));
    handle_input(&mut mode, &mut g, click(20, 10), h);
    assert_eq!(mode, Mode::AddEdge { first: Some(a) });
    assert_eq!(g.node_count(), 2);
    let h = hovered_node(&g, Point { x: 90, y: -5 });
    handle_input(&mut mode, &mut g, click(90, -5), h);
    assert_eq!(mode, Mode::AddEdge { first: Some(b) });
    assert_eq!(g.node_count(), 2);
    assert_eq!(g.edge_count(), 1);
    let h = hovered_node(&g, Point { x: 90, y: -5 });
    handle_input(&mut mode, &mut g, click(90, -5), h);
    assert_eq!(mode, Mode::AddEdge { first: Some(b) });
    assert_eq!(g.edge_count(), 1);
    let key = Input { add_edge_key_pressed: true, ..input(0, 0) };
    handle_input(&mut mode, &mut g, key, None);
    assert_eq!(mode, Mode::Base { selected_node: None });
}

#[test]
fn delete_mode_prefers_a_node_over_a_near_edge() {
    let mut g = Graph::new();
    let x = g.add_node(Node::new(0, 0));
    let a = g.add_node(Node::new(-100, 25));
    let b = g.add_node(Node::new(100, 25));
    let ab = g.add_edge(Edge::new(a, b));
    // 10 from x, 15 from the edge: within twice the node's distance
    let p = Point { x: 0, y: 10 };
    assert_eq!(delete_selection(&g, p), Some(Selection::Node(x)));
    // as near to the edge as to the node: the node still wins
    let c = g.add_node(Node::new(-100, 20));
    let d = g.add_node(Node::new(100, 20));
    g.add_edge(Edge::new(c, d));
    assert_eq!(delete_selection(&g, p), Some(Selection::Node(x)));
    let mut mode = Mode::Delete(None);
    update_mode(&mut mode, &mut g, p);
    assert_eq!(mode, Mode::Delete(Some(Selection::Node(x))));
    handle_input(&mut mode, &mut g, click(0, 10), None);
    assert_eq!(mode, Mode::Delete(None));
    assert!(g.node(x).is_none());
    assert!(g.edge(ab).is_some());
    assert_eq!(g.edge_count(), 2);
}

#[test]
fn delete_mode_selects_a_nearer_edge() {
    let mut g = Graph::new();
    let x = g.add_node(Node::new(0, 0));
    let y = g.add_node(Node::new(200, 0));
    let xy = g.add_edge(Edge::new(x, y));
    let p = Point { x: 100, y: 5 };
    assert_eq!(delete_selection(&g, p), Some(Selection::Edge(xy)));
    let mut mode = Mode::Delete(None);
    update_mode(&mut mode, &mut g, p);
    handle_input(&mut mode, &mut g, click(100, 5), None);
    assert!(g.edge(xy).is_none());
    assert_eq!(g.node_count(), 2);
    assert_eq!(delete_selection(&g, Point { x: 1000, y: 1000 }), None);
}

#[test]
fn delete_key_toggles_delete_mode() {
    let mut g = Graph::new();
    let mut mode = Mode::Base { selected_node: None };
    let key = Input { delete_key_pressed: true, ..input(0, 0) };
    handle_input(&mut mode, &mut g, key, None);
    assert_eq!(mode, Mode::Delete(None));
    handle_input(&mut mode, &mut g, key, None);
    assert_eq!(mode, Mode::Base { selected_node: None });
    let esc = Input { escape_pressed: true, ..input(0, 0) };
    let mut mode = Mode::UpdNode { kind: NodeKind::Sample(1) };
    handle_input(&mut mode, &mut g, esc, None);
    assert_eq!(mode, Mode::Base { selected_node: None });
}

#[test]
fn base_mode_picks_and_drags_a_node() {
    let mut g = Graph::new();
    let a = g.add_node(Node::new(0, 0));
    let mut mode = Mode::Base { selected_node: None };
    let hold = Input { left_down: true, ..input(5, 5) };
    handle_input(&mut mode, &mut g, hold, None);
    assert_eq!(mode, Mode::Base { selected_node: Some(a) });
    update_mode(&mut mode, &mut g, Point { x: 40, y: -7 });
    assert_eq!(g.node(a).unwrap().pos, Point { x: 40, y: -7 });
    let release = Input { left_released: true, ..input(40, -7) };
    handle_input(&mut mode, &mut g, release, None);
    assert_eq!(mode, Mode::Base { selected_node: None });
    let far = Input { left_down: true, ..input(100, 100) };
    handle_input(&mut mode, &mut g, far, None);
    assert_eq!(mode, Mode::Base { selected_node: None });
    assert_eq!(first_node_within(&g, Point { x: 40, y: 7 }, 196), Some(a));
    assert_eq!(first_node_within(&g, Point { x: 40, y: 8 }, 196), None);
}

#[test]
fn assign_mode_stamps_a_kind() {
    let mut g = Graph::new();
    let a = g.add_node(Node::new(0, 0));
    let kind = NodeKind::Spawner { bar_delay: 2, next_spawn: 500 };
    let mut mode = Mode::UpdNode { kind };
    let h = hovered_node(&g, Point { x: 3, y: 3 });
    handle_input(&mut mode, &mut g, click(3, 3), h);
    assert_eq!(g.node(a).unwrap().kind, kind);
    assert_eq!(g.node(a).unwrap().pos, Point { x: 0, y: 0 });
    let h = hovered_node(&g, Point { x: 300, y: 3 });
    handle_input(&mut mode, &mut g, click(300, 3), h);
    assert_eq!(g.node_count(), 2);
    let other = g.node_ids().into_iter().find(|n| *n != a).unwrap();
    assert_eq!(g.node(other).unwrap(), Node { pos: Point { x: 300, y: 3 }, kind });
    assert_eq!(mode, Mode::UpdNode { kind });
}

#[test]
fn hover_reaches_twice_the_radius() {
    let mut g = Graph::new();
    let a = g.add_node(Node::new(0, 0));
    assert_eq!(hovered_node(&g, Point { x: 28, y: 0 }), Some(a));
    assert_eq!(hovered_node(&g, Point { x: 28, y: 1 }), None);
}

#[test]
fn selection_centre_is_the_edge_midpoint() {
    let mut g = Graph::new();
    let a = g.add_node(Node::new(-3, 0));
    let b = g.add_node(Node::new(0, 10));
    let e = g.add_edge(Edge::new(a, b));
    assert_eq!(Selection::Edge(e).get_center(&g), Point { x: -2, y: 5 });
    assert_eq!(Selection::Node(b).get_center(&g), Point { x: 0, y: 10 });
}
