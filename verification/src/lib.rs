//! Service graphs from sampled stacks.
//!
//! The graph is a module-adjacency graph over sampled stack frames: its nodes are the
//! `crate::module`s that appear in the stacks, its edges the observed caller-to-callee
//! transitions, each weighted by samples. Frames of other than application crates collapse into
//! a single `runtime` node.
//!
//! - [`symbol`], [`chain`]: from a frame to its node, and from a stack to its chain of nodes.
//! - [`columns`], [`samples`]: decoding part-files. Everything taken on trust about `parquet` and
//!   `arrow` stands in [`columns`].
//! - [`accum`], [`merge_laws`]: merging part-files, and what merging does not depend on.
//! - [`graph`], [`node_table`], [`edge_table`]: building the graph.
//! - [`graph_laws`], [`flow_laws`]: what holds of every graph.
//! - [`frame_laws`], [`part_laws`], [`weight_laws`], [`service_laws`]: what frames, part-files,
//!   weights and requests come to, in terms of characters, rows, frames and fields.
//! - [`request`], [`snapshot`], [`stream`]: the trace-graph endpoint as a state machine.
//! - [`state`], [`credentials`], [`assets`]: the server's configuration, who serves a request,
//!   and the UI files.
//! - [`id_map`], [`order`], [`text`], [`text_set`]: maps, orders and texts.
pub mod accum;
pub mod assets;
pub mod chain;
pub mod columns;
pub mod credentials;
pub mod edge_table;
pub mod flow_laws;
pub mod frame_laws;
pub mod graph;
pub mod graph_laws;
pub mod id_map;
pub mod merge_laws;
pub mod node_table;
pub mod order;
pub mod part_laws;
pub mod request;
pub mod samples;
pub mod service_laws;
pub mod snapshot;
pub mod state;
pub mod stream;
pub mod symbol;
pub mod text;
pub mod text_set;
pub mod weight_laws;
