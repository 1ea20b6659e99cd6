//! A node-graph sequencer core: a graph of nodes and directed edges, signals
//! that travel along the edges in simulated time, and the editing modes that
//! change the graph while the simulation runs.

pub mod geom;
pub mod graph;
pub mod mode;
pub mod sim;
pub mod slots;
pub mod util;
