//! Signals travelling along edges in simulated time.
use vstd::prelude::*;
use crate::geom::Point;
use crate::graph::{EdgeId, Graph, Link, Node, NodeId, NodeKind};
use crate::slots::{adj_slots_get, node_slots_keys};

verus! {

/// Largest bar duration, in time units, and largest bar length, in canvas
/// units, that a tempo may have.
pub const BAR_TIME_LIMIT: u64 = 4294967296;

/// How fast signals travel: `px_per_bar` canvas units every `bar_time` time
/// units.
#[derive(Clone, Copy, Debug, PartialEq, Eq, Structural)]
pub struct Tempo {
    pub px_per_bar: u64,
    pub bar_time: u64,
}

impl Tempo {
    pub open spec fn wf(self) -> bool {
        0 < self.px_per_bar <= BAR_TIME_LIMIT && self.bar_time <= BAR_TIME_LIMIT
    }
}

/// A signal on edge `cur_edge`, which it began to traverse at `start_time`.
#[derive(Clone, Copy, Debug, PartialEq, Eq, Structural)]
pub struct Signal {
    pub cur_edge: EdgeId,
    pub start_time: u64,
}

/// A signal reached `node`, which stands at `pos`; `sample` is the sample
/// that the node asks to play, if it is a sample trigger.
#[derive(Clone, Copy, Debug, PartialEq, Eq, Structural)]
pub struct Arrival {
    pub node: NodeId,
    pub pos: Point,
    pub sample: Option<usize>,
}

/// `x`, or `u64::MAX` where `x` is larger.
pub open spec fn sat(x: int) -> u64 {
    if x > u64::MAX { u64::MAX } else { x as u64 }
}

/// Time to cross a horizontal distance `dx`, rounded up to a whole time unit.
pub open spec fn travel_time(tempo: Tempo, dx: int) -> int {
    (dx * tempo.bar_time + tempo.px_per_bar - 1) / (tempo.px_per_bar as int)
}

/// Horizontal distance from an edge's source to its target.
pub open spec fn edge_dx(g: Graph, e: EdgeId) -> int {
    let (u, v) = g.edge_map()[e.0].nodes;
    g.node_map()[v.0].pos.x - g.node_map()[u.0].pos.x
}

/// Whether a signal on a live, rightward edge has reached its target at `time`.
pub open spec fn arrives(g: Graph, tempo: Tempo, time: u64, s: Signal) -> bool {
    &&& g.edge_map().dom().contains(s.cur_edge.0)
    &&& edge_dx(g, s.cur_edge) >= 0
    &&& s.start_time <= time
    &&& time - s.start_time >= travel_time(tempo, edge_dx(g, s.cur_edge))
}

/// The signals that one signal leaves after a tick at `time` that lasted `dt`:
/// none where its edge is gone; itself, `dt` later, on a leftward edge;
/// itself while in transit; on arrival, one signal on each outgoing edge of the
/// target, all starting when the arrival was due.
pub open spec fn signal_outcome(g: Graph, tempo: Tempo, time: u64, dt: u64, s: Signal) -> Seq<Signal> {
    if !g.edge_map().dom().contains(s.cur_edge.0) {
        Seq::empty()
    } else if edge_dx(g, s.cur_edge) < 0 {
        seq![Signal { cur_edge: s.cur_edge, start_time: sat(s.start_time + dt) }]
    } else if !arrives(g, tempo, time, s) {
        seq![s]
    } else {
        let v = g.edge_map()[s.cur_edge.0].nodes.1;
        let start = (s.start_time + travel_time(tempo, edge_dx(g, s.cur_edge))) as u64;
        g.outs(v.0).map_values(|l: Link| Signal { cur_edge: l.edge, start_time: start })
    }
}

/// What the arrival of one signal asks of the outside: nothing, or one arrival.
pub open spec fn signal_arrival(g: Graph, tempo: Tempo, time: u64, s: Signal) -> Seq<Arrival> {
    if arrives(g, tempo, time, s) {
        let v = g.edge_map()[s.cur_edge.0].nodes.1;
        let node = g.node_map()[v.0];
        seq![Arrival { node: v, pos: node.pos, sample: sample_of(node.kind) }]
    } else {
        Seq::empty()
    }
}

pub open spec fn sample_of(kind: NodeKind) -> Option<usize> {
    match kind {
        NodeKind::Sample(i) => Some(i),
        _ => None,
    }
}

/// The signals that a list of signals leaves after one tick, in order.
pub open spec fn step_all(g: Graph, tempo: Tempo, time: u64, dt: u64, s: Seq<Signal>) -> Seq<Signal>
    decreases s.len(),
{
    if s.len() == 0 {
        Seq::empty()
    } else {
        step_all(g, tempo, time, dt, s.drop_last()) + signal_outcome(g, tempo, time, dt, s.last())
    }
}

/// The arrivals of one tick, in the order of the signals.
pub open spec fn arrivals_all(g: Graph, tempo: Tempo, time: u64, s: Seq<Signal>) -> Seq<Arrival>
    decreases s.len(),
{
    if s.len() == 0 {
        Seq::empty()
    } else {
        arrivals_all(g, tempo, time, s.drop_last()) + signal_arrival(g, tempo, time, s.last())
    }
}

/// Whether node `n` is a spawner whose next spawn is due at `time`.
pub open spec fn spawn_due(n: Node, time: u64) -> bool {
    match n.kind {
        NodeKind::Spawner { next_spawn, .. } => next_spawn <= time,
        _ => false,
    }
}

/// Node `n` after a spawner tick at `time`: a due spawner's next spawn moves
/// on by `bar_delay` bars.
pub open spec fn spawner_advanced(n: Node, tempo: Tempo, time: u64) -> Node {
    match n.kind {
        NodeKind::Spawner { bar_delay, next_spawn } => if next_spawn <= time {
            Node {
                pos: n.pos,
                kind: NodeKind::Spawner {
                    bar_delay,
                    next_spawn: sat(next_spawn + sat(bar_delay * tempo.bar_time)),
                },
            }
        } else {
            n
        },
        _ => n,
    }
}

/// The signals that node `k` injects in a spawner tick at `time`: one on each
/// outgoing edge, starting when the spawn was due.
pub open spec fn spawned(g: Graph, time: u64, k: u64) -> Seq<Signal> {
    match g.node_map()[k].kind {
        NodeKind::Spawner { next_spawn, .. } => if next_spawn <= time {
            g.outs(k).map_values(|l: Link| Signal { cur_edge: l.edge, start_time: next_spawn })
        } else {
            Seq::empty()
        },
        _ => Seq::empty(),
    }
}

/// The signals that the nodes `keys` inject, in that order.
pub open spec fn spawned_all(g: Graph, time: u64, keys: Seq<u64>) -> Seq<Signal>
    decreases keys.len(),
{
    if keys.len() == 0 {
        Seq::empty()
    } else {
        spawned_all(g, time, keys.drop_last()) + spawned(g, time, keys.last())
    }
}

/// The signals in flight and the simulated time.
pub struct Simulation {
    pub signals: Vec<Signal>,
    pub time: u64,
    pub paused: bool,
}

/// `bar_delay` bars in time units, or `u64::MAX` where that is larger.
fn spawn_period(bar_delay: u64, tempo: Tempo) -> (r: u64)
    ensures
        r == sat(bar_delay * tempo.bar_time),
{
    match bar_delay.checked_mul(tempo.bar_time) {
        Some(p) => p,
        None => u64::MAX,
    }
}

/// Time to cross `dx`, rounded up.
fn travel(tempo: Tempo, dx: i64) -> (r: u64)
    requires
        tempo.wf(),
        0 <= dx <= 0x2_0000,
    ensures
        r == travel_time(tempo, dx as int),
{
    let d = dx as u64;
    assert(d * tempo.bar_time <= 0x2_0000 * BAR_TIME_LIMIT) by (nonlinear_arith)
        requires d <= 0x2_0000, tempo.bar_time <= BAR_TIME_LIMIT;
    let num = d * tempo.bar_time + (tempo.px_per_bar - 1);
    num / tempo.px_per_bar
}

impl Simulation {
    pub fn new() -> (r: Simulation)
        ensures
            r.signals@ == Seq::<Signal>::empty(),
            r.time == 0,
            !r.paused,
    {
        Simulation { signals: Vec::new(), time: 0, paused: false }
    }

    /// Lets `dt` pass, unless paused.
    pub fn advance(&mut self, dt: u64)
        ensures
            final(self).time == if old(self).paused { old(self).time } else { sat(old(self).time + dt) },
            final(self).signals == old(self).signals,
            final(self).paused == old(self).paused,
    {
        if !self.paused {
            self.time = self.time.saturating_add(dt);
        }
    }

    pub fn toggle_pause(&mut self)
        ensures
            final(self).paused == !old(self).paused,
            final(self).time == old(self).time,
            final(self).signals == old(self).signals,
    {
        self.paused = !self.paused;
    }

    /// Moves every signal on by one tick that lasted `dt`, visiting each once:
    /// signals on removed edges are dropped, signals on leftward edges wait,
    /// and arriving signals fan out over the target's outgoing edges. Returns
    /// the arrivals, for playback and effects.
    pub fn step(&mut self, g: &Graph, tempo: Tempo, dt: u64) -> (r: Vec<Arrival>)
        requires
            g.wf(),
            tempo.wf(),
        ensures
            final(self).signals@ == step_all(*g, tempo, old(self).time, dt, old(self).signals@),
            r@ == arrivals_all(*g, tempo, old(self).time, old(self).signals@),
            final(self).time == old(self).time,
            final(self).paused == old(self).paused,
    {
        let ghost s0 = self.signals@;
        let mut next: Vec<Signal> = Vec::new();
        let mut arrivals: Vec<Arrival> = Vec::new();
        let mut i: usize = 0;
        while i < self.signals.len()
            invariant
                g.wf(),
                tempo.wf(),
                self.signals@ == s0,
                i <= s0.len(),
                next@ == step_all(*g, tempo, self.time, dt, s0.subrange(0, i as int)),
                arrivals@ == arrivals_all(*g, tempo, self.time, s0.subrange(0, i as int)),
            decreases s0.len() - i,
        {
            let s = self.signals[i];
            proof {
                assert(s0.subrange(0, i + 1).drop_last() =~= s0.subrange(0, i as int));
                assert(s0.subrange(0, i + 1).last() == s);
            }
            match g.edge(s.cur_edge) {
                None => {
                    assert(signal_outcome(*g, tempo, self.time, dt, s) =~= Seq::<Signal>::empty());
                },
                Some(edge) => {
                    let (u, v) = edge.nodes;
                    let nu = g.node(u).unwrap();
                    let nv = g.node(v).unwrap();
                    let dx = nv.pos.x - nu.pos.x;
                    if dx < 0 {
                        next.push(Signal { cur_edge: s.cur_edge, start_time: s.start_time.saturating_add(dt) });
                    } else {
                        let t = travel(tempo, dx);
                        if s.start_time <= self.time && self.time - s.start_time >= t {
                            let start = s.start_time + t;
                            let a = adj_slots_get(&g.adj, v.0).unwrap();
                            let ghost before = next@;
                            let mut j: usize = 0;
                            while j < a.outgoing.len()
                                invariant
                                    j <= a.outgoing@.len(),
                                    next@ == before + a.outgoing@.subrange(0, j as int).map_values(
                                        |l: Link| Signal { cur_edge: l.edge, start_time: start }),
                                decreases a.outgoing@.len() - j,
                            {
                                next.push(Signal { cur_edge: a.outgoing[j].edge, start_time: start });
                                proof {
                                    assert(a.outgoing@.subrange(0, j + 1).map_values(
                                        |l: Link| Signal { cur_edge: l.edge, start_time: start })
                                        =~= a.outgoing@.subrange(0, j as int).map_values(
                                        |l: Link| Signal { cur_edge: l.edge, start_time: start }).push(
                                        Signal { cur_edge: a.outgoing@[j as int].edge, start_time: start }));
                                }
                                j = j + 1;
                            }
                            proof {
                                assert(a.outgoing@.subrange(0, j as int) =~= a.outgoing@);
                            }
                            arrivals.push(Arrival { node: v, pos: nv.pos, sample: match nv.kind {
                                NodeKind::Sample(idx) => Some(idx),
                                _ => None,
                            } });
                        } else {
                            next.push(s);
                        }
                    }
                },
            }
            i = i + 1;
        }
        proof {
            assert(s0.subrange(0, i as int) =~= s0);
        }
        self.signals = next;
        arrivals
    }
}


impl Simulation {
    /// Every spawner whose next spawn is due injects a signal on each of its
    /// outgoing edges, starting at the due time, and its next spawn moves on
    /// by `bar_delay` bars.
    pub fn spawn(&mut self, g: &mut Graph, tempo: Tempo)
        requires
            old(g).wf(),
            tempo.wf(),
        ensures
            final(g).wf(),
            final(g).node_map().dom() == old(g).node_map().dom(),
            forall|k: u64| #[trigger] final(g).node_map().dom().contains(k) ==>
                final(g).node_map()[k] == spawner_advanced(old(g).node_map()[k], tempo, old(self).time),
            final(g).edge_map() == old(g).edge_map(),
            final(g).adj_map() == old(g).adj_map(),
            final(self).time == old(self).time,
            final(self).paused == old(self).paused,
            exists|order: Seq<u64>| {
                &&& order.no_duplicates()
                &&& forall|k: u64| order.contains(k) <==> old(g).node_map().dom().contains(k)
                &&& final(self).signals@ == old(self).signals@ + spawned_all(*old(g), old(self).time, order)
            },
    {
        let ghost g0 = *old(g);
        let ghost s0 = self.signals@;
        let keys = node_slots_keys(&g.nodes);
        let mut i: usize = 0;
        while i < keys.len()
            invariant
                g.wf(),
                tempo.wf(),
                self.time == old(self).time,
                self.paused == old(self).paused,
                keys@.no_duplicates(),
                forall|k: u64| keys@.contains(k) <==> g0.node_map().dom().contains(k),
                i <= keys@.len(),
                g.node_map().dom() == g0.node_map().dom(),
                g.edge_map() == g0.edge_map(),
                g.adj_map() == g0.adj_map(),
                forall|j: int| 0 <= j < i ==> g.node_map()[#[trigger] keys@[j]]
                    == spawner_advanced(g0.node_map()[keys@[j]], tempo, self.time),
                forall|j: int| i <= j < keys@.len() ==> g.node_map()[#[trigger] keys@[j]]
                    == g0.node_map()[keys@[j]],
                self.signals@ == s0 + spawned_all(g0, self.time, keys@.subrange(0, i as int)),
            decreases keys@.len() - i,
        {
            let k = keys[i];
            proof {
                assert(keys@.contains(k));
                assert(keys@.subrange(0, i + 1).drop_last() =~= keys@.subrange(0, i as int));
                assert(keys@.subrange(0, i + 1).last() == k);
            }
            let node = g.node(NodeId(k)).unwrap();
            let ghost before = self.signals@;
            match node.kind {
                NodeKind::Spawner { bar_delay, next_spawn } => {
                    if next_spawn <= self.time {
                        let a = adj_slots_get(&g.adj, k).unwrap();
                        let mut j: usize = 0;
                        while j < a.outgoing.len()
                            invariant
                                j <= a.outgoing@.len(),
                                self.time == old(self).time,
                                self.paused == old(self).paused,
                                self.signals@ == before + a.outgoing@.subrange(0, j as int).map_values(
                                    |l: Link| Signal { cur_edge: l.edge, start_time: next_spawn }),
                            decreases a.outgoing@.len() - j,
                        {
                            self.signals.push(Signal { cur_edge: a.outgoing[j].edge, start_time: next_spawn });
                            proof {
                                assert(a.outgoing@.subrange(0, j + 1).map_values(
                                    |l: Link| Signal { cur_edge: l.edge, start_time: next_spawn })
                                    =~= a.outgoing@.subrange(0, j as int).map_values(
                                    |l: Link| Signal { cur_edge: l.edge, start_time: next_spawn }).push(
                                    Signal { cur_edge: a.outgoing@[j as int].edge, start_time: next_spawn }));
                            }
                            j = j + 1;
                        }
                        proof {
                            assert(a.outgoing@.subrange(0, j as int) =~= a.outgoing@);
                        }
                        let next = next_spawn.saturating_add(spawn_period(bar_delay, tempo));
                        g.set_node(NodeId(k), Node {
                            pos: node.pos,
                            kind: NodeKind::Spawner { bar_delay, next_spawn: next },
                        });
                    } else {
                        assert(spawned(g0, self.time, k) =~= Seq::<Signal>::empty());
                    }
                },
                _ => {
                    assert(spawned(g0, self.time, k) =~= Seq::<Signal>::empty());
                },
            }
            proof {
                assert forall|j: int| i + 1 <= j < keys@.len() implies g.node_map()[#[trigger] keys@[j]]
                    == g0.node_map()[keys@[j]] by {
                    assert(keys@[j] != keys@[i as int]);
                }
                assert forall|j: int| 0 <= j < i + 1 implies g.node_map()[#[trigger] keys@[j]]
                    == spawner_advanced(g0.node_map()[keys@[j]], tempo, self.time) by {
                    if j < i {
                        assert(keys@[j] != keys@[i as int]);
                    }
                }
            }
            i = i + 1;
        }
        proof {
            assert(keys@.subrange(0, i as int) =~= keys@);
            assert forall|k: u64| #[trigger] g.node_map().dom().contains(k) implies
                g.node_map()[k] == spawner_advanced(g0.node_map()[k], tempo, self.time) by {
                assert(keys@.contains(k));
                let j = choose|j: int| 0 <= j < keys@.len() && keys@[j] == k;
            }
            assert(self.signals@ == s0 + spawned_all(g0, self.time, keys@));
        }
    }
}


/// A signal's successors start when its arrival was due, `start_time` plus
/// the edge's travel time, whatever the time of the tick that sees it arrive.
pub proof fn lemma_carry_over(g: Graph, tempo: Tempo, s: Signal, t1: u64, dt1: u64, t2: u64, dt2: u64)
    requires
        tempo.wf(),
        arrives(g, tempo, t1, s),
        arrives(g, tempo, t2, s),
    ensures
        step_all(g, tempo, t1, dt1, seq![s]) == step_all(g, tempo, t2, dt2, seq![s]),
        forall|i: int| 0 <= i < step_all(g, tempo, t1, dt1, seq![s]).len() ==>
            #[trigger] step_all(g, tempo, t1, dt1, seq![s])[i].start_time
                == s.start_time + travel_time(tempo, edge_dx(g, s.cur_edge)),
{
    reveal_with_fuel(step_all, 2);
    reveal_with_fuel(arrivals_all, 2);
    assert(seq![s].drop_last() =~= Seq::<Signal>::empty());
    assert(seq![s].last() == s);
    assert(step_all(g, tempo, t1, dt1, seq![s]) =~= signal_outcome(g, tempo, t1, dt1, s));
    assert(step_all(g, tempo, t2, dt2, seq![s]) =~= signal_outcome(g, tempo, t2, dt2, s));
    let dx = edge_dx(g, s.cur_edge);
    assert(travel_time(tempo, dx) >= 0) by (nonlinear_arith)
        requires dx >= 0, tempo.px_per_bar > 0,
            travel_time(tempo, dx) == (dx * tempo.bar_time + tempo.px_per_bar - 1) / (tempo.px_per_bar as int);
}

/// A signal whose edge is gone is dropped, with no arrival.
pub proof fn lemma_pruned(g: Graph, tempo: Tempo, time: u64, dt: u64, s: Signal)
    requires
        !g.edge_map().dom().contains(s.cur_edge.0),
    ensures
        step_all(g, tempo, time, dt, seq![s]) == Seq::<Signal>::empty(),
        arrivals_all(g, tempo, time, seq![s]) == Seq::<Arrival>::empty(),
{
    reveal_with_fuel(step_all, 2);
    reveal_with_fuel(arrivals_all, 2);
    assert(seq![s].drop_last() =~= Seq::<Signal>::empty());
    assert(seq![s].last() == s);
    assert(step_all(g, tempo, time, dt, seq![s]) =~= Seq::<Signal>::empty());
    assert(arrivals_all(g, tempo, time, seq![s]) =~= Seq::<Arrival>::empty());
}

/// An arriving signal becomes one signal on each outgoing edge of its
/// target, all with the same carried-over start time, and one arrival.
pub proof fn lemma_fan_out(g: Graph, tempo: Tempo, time: u64, dt: u64, s: Signal)
    requires
        arrives(g, tempo, time, s),
    ensures
        ({
            let v = g.edge_map()[s.cur_edge.0].nodes.1;
            let next = step_all(g, tempo, time, dt, seq![s]);
            &&& next.len() == g.outs(v.0).len()
            &&& forall|i: int| 0 <= i < next.len() ==> #[trigger] next[i] == (Signal {
                cur_edge: g.outs(v.0)[i].edge,
                start_time: (s.start_time + travel_time(tempo, edge_dx(g, s.cur_edge))) as u64,
            })
            &&& arrivals_all(g, tempo, time, seq![s]).len() == 1
        }),
{
    reveal_with_fuel(step_all, 2);
    reveal_with_fuel(arrivals_all, 2);
    assert(seq![s].drop_last() =~= Seq::<Signal>::empty());
    assert(seq![s].last() == s);
    assert(step_all(g, tempo, time, dt, seq![s]) =~= signal_outcome(g, tempo, time, dt, s));
    assert(arrivals_all(g, tempo, time, seq![s]) =~= signal_arrival(g, tempo, time, s));
}

} // verus!
