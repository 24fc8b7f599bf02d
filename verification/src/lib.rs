//! Interaction core of a graph widget: selection, dragging and navigation
//! decisions over a `petgraph` stable graph, with every mutation reported as a
//! change record.

pub mod change;
pub mod edge_groups;
pub mod elements;
pub mod frame_state;
pub mod graph;
pub mod graph_view;
pub mod ids;
pub mod interaction;
pub mod selections;
pub mod settings;
pub mod sink;
