//! Nodes for the Maelstrom workloads: the gossip engine that replicates a
//! growing set of integers, and the counter that commits local increments to a
//! sequential key-value store by compare-and-swap.
pub mod accounting;
pub mod broadcast;
pub mod challange;
pub mod cluster;
pub mod convergence;
pub mod echo;
pub mod error;
pub mod fx;
pub mod g_counter;
pub mod init;
pub mod message;
pub mod run;
pub mod serve;
pub mod settlement;
pub mod text;
pub mod unique_ids;
pub mod xtask;
