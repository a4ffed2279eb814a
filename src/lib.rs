//! State and geometry engine of an interactive node-link diagram editor.
//!
//! The engine owns the graph of nodes and edges, the camera transform, the
//! connection being drawn, the selection, and undo/redo/clipboard history.
//! Coordinates are integers in diagram units; zoom factors are written in
//! thousandths.

mod arith;
pub mod geometry;
pub mod types;
pub mod path;
pub mod flow;

