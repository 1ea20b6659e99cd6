use node_sequencer::geom::Point;
use node_sequencer::graph::{Edge, Graph, Node, NodeKind};
use node_sequencer::sim::{Signal, Simulation, Tempo};

fn sim_at(time: u64) -> Simulation {
    let mut s = Simulation::new();
    s.time = time;
    s
}

#[test]
fn arrival_carries_over_the_due_time() {
    let tempo = Tempo { px_per_bar: 100, bar_time: 1000 };
    let mut g = Graph::new();
    let a = g.add_node(Node::new(0, 0));
    let b = g.add_node(Node::new(100, 0));
    let c = g.add_node(Node::new(250, 0));
    let ab = g.add_edge(Edge::new(a, b));
    let bc = g.add_edge(Edge::new(b, c));
    let mut sim = sim_at(0);
    sim.signals.push(Signal { cur_edge: ab, start_time: 0 });
    sim.time = 400;
    let arrivals = sim.step(&g, tempo, 400);
    assert!(arrivals.is_empty());
    assert_eq!(sim.signals, vec![Signal { cur_edge: ab, start_time: 0 }]);
    sim.time = 1300;
    let arrivals = sim.step(&g, tempo, 900);
    assert_eq!(arrivals.len(), 1);
    assert_eq!(arrivals[0].node, b);
    assert_eq!(arrivals[0].pos, Point { x: 100, y: 0 });
    assert_eq!(arrivals[0].sample, None);
    assert_eq!(sim.signals, vec![Signal { cur_edge: bc, start_time: 1000 }]);
}

#[test]
fn travel_time_rounds_up() {
    let tempo = Tempo { px_per_bar: 150, bar_time: 1000 };
    let mut g = Graph::new();
    let a = g.add_node(Node::new(0, 0));
    let b = g.add_node(Node::new(100, 0));
    let c = g.add_node(Node::new(200, 0));
    let ab = g.add_edge(Edge::new(a, b));
    let bc = g.add_edge(Edge::new(b, c));
    let mut sim = sim_at(666);
    sim.signals.push(Signal { cur_edge: ab, start_time: 0 });
    assert!(sim.step(&g, tempo, 16).is_empty());
    sim.time = 667;
    assert_eq!(sim.step(&g, tempo, 1).len(), 1);
    assert_eq!(sim.signals, vec![Signal { cur_edge: bc, start_time: 667 }]);
}

#[test]
fn a_signal_on_a_removed_edge_is_dropped() {
    let tempo = Tempo { px_per_bar: 150, bar_time: 1000 };
    let mut g = Graph::new();
    let a = g.add_node(Node::new(0, 0));
    let b = g.add_node(Node::new(150, 0));
    g.set_node(b, Node { pos: Point { x: 150, y: 0 }, kind: NodeKind::Sample(2) });
    let ab = g.add_edge(Edge::new(a, b));
    let mut sim = sim_at(0);
    sim.signals.push(Signal { cur_edge: ab, start_time: 0 });
    assert!(sim.step(&g, tempo, 10).is_empty());
    g.remove_edge(ab);
    sim.time = 5000;
    let arrivals = sim.step(&g, tempo, 10);
    assert!(arrivals.is_empty());
    assert!(sim.signals.is_empty());
}

#[test]
fn an_arrival_fans_out_over_every_outgoing_edge() {
    let tempo = Tempo { px_per_bar: 150, bar_time: 1000 };
    let mut g = Graph::new();
    let a = g.add_node(Node::new(0, 0));
    let hub = g.add_node(Node::new(150, 0));
    let x = g.add_node(Node::new(300, -50));
    let y = g.add_node(Node::new(300, 0));
    let z = g.add_node(Node::new(300, 50));
    let e = g.add_edge(Edge::new(a, hub));
    let hx = g.add_edge(Edge::new(hub, x));
    let hy = g.add_edge(Edge::new(hub, y));
    let hz = g.add_edge(Edge::new(hub, z));
    let mut sim = sim_at(1200);
    sim.signals.push(Signal { cur_edge: e, start_time: 100 });
    let arrivals = sim.step(&g, tempo, 16);
    assert_eq!(arrivals.len(), 1);
    assert_eq!(sim.signals.len(), 3);
    for s in &sim.signals {
        assert_eq!(s.start_time, 1100);
    }
    let edges: Vec<_> = sim.signals.iter().map(|s| s.cur_edge).collect();
    assert_eq!(edges, vec![hx, hy, hz]);
}

#[test]
fn a_dead_end_swallows_the_signal_after_its_arrival() {
    let tempo = Tempo { px_per_bar: 150, bar_time: 1000 };
    let mut g = Graph::new();
    let a = g.add_node(Node::new(0, 0));
    let b = g.add_node(Node::new(150, 0));
    g.set_node(b, Node { pos: Point { x: 150, y: 0 }, kind: NodeKind::Sample(7) });
    let ab = g.add_edge(Edge::new(a, b));
    let mut sim = sim_at(1000);
    sim.signals.push(Signal { cur_edge: ab, start_time: 0 });
    let arrivals = sim.step(&g, tempo, 16);
    assert_eq!(arrivals.len(), 1);
    assert_eq!(arrivals[0].sample, Some(7));
    assert!(sim.signals.is_empty());
}

#[test]
fn a_signal_on_a_leftward_edge_waits() {
    let tempo = Tempo { px_per_bar: 150, bar_time: 1000 };
    let mut g = Graph::new();
    let a = g.add_node(Node::new(300, 0));
    let b = g.add_node(Node::new(0, 0));
    let ab = g.add_edge(Edge::new(a, b));
    let mut sim = sim_at(10_000);
    sim.signals.push(Signal { cur_edge: ab, start_time: 0 });
    assert!(sim.step(&g, tempo, 16).is_empty());
    assert_eq!(sim.signals, vec![Signal { cur_edge: ab, start_time: 16 }]);
    sim.signals[0].start_time = u64::MAX - 3;
    sim.step(&g, tempo, 16);
    assert_eq!(sim.signals[0].start_time, u64::MAX);
}

#[test]
fn a_spawner_drives_a_sample_each_bar() {
    let tempo = Tempo { px_per_bar: 150, bar_time: 1000 };
    let mut g = Graph::new();
    let s = g.add_node(Node::new(0, 0));
    g.set_node(s, Node { pos: Point { x: 0, y: 0 }, kind: NodeKind::Spawner { bar_delay: 1, next_spawn: 0 } });
    let t = g.add_node(Node::new(150, 0));
    g.set_node(t, Node { pos: Point { x: 150, y: 0 }, kind: NodeKind::Sample(4) });
    let st = g.add_edge(Edge::new(s, t));
    let mut sim = Simulation::new();
    sim.spawn(&mut g, tempo);
    assert_eq!(sim.signals, vec![Signal { cur_edge: st, start_time: 0 }]);
    assert_eq!(g.node(s).unwrap().kind, NodeKind::Spawner { bar_delay: 1, next_spawn: 1000 });
    assert!(sim.step(&g, tempo, 0).is_empty());
    sim.advance(600);
    sim.spawn(&mut g, tempo);
    assert_eq!(sim.signals.len(), 1);
    assert!(sim.step(&g, tempo, 600).is_empty());
    sim.advance(400);
    assert_eq!(sim.time, 1000);
    sim.spawn(&mut g, tempo);
    assert_eq!(g.node(s).unwrap().kind, NodeKind::Spawner { bar_delay: 1, next_spawn: 2000 });
    let arrivals = sim.step(&g, tempo, 400);
    assert_eq!(arrivals.len(), 1);
    assert_eq!(arrivals[0].node, t);
    assert_eq!(arrivals[0].sample, Some(4));
    assert_eq!(sim.signals, vec![Signal { cur_edge: st, start_time: 1000 }]);
}

#[test]
fn pause_freezes_time() {
    let mut sim = Simulation::new();
    sim.advance(16);
    assert_eq!(sim.time, 16);
    sim.toggle_pause();
    sim.advance(16);
    assert_eq!(sim.time, 16);
    sim.toggle_pause();
    sim.time = u64::MAX - 1;
    sim.advance(16);
    assert_eq!(sim.time, u64::MAX);
}
