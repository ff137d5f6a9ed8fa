//! Kinship path-finding over a semicolon-delimited family table.
//!
//! Rows are merged into one canonical record per identifier, every record
//! gets a node in an undirected `petgraph` graph, spouse / father / mother
//! references become labelled edges, and a shortest-path query is reported
//! as a chain of relationship lines.
pub mod family;
pub mod graph;
pub mod person;
pub mod render;
pub mod resolve;
pub mod table;
