//! Lowering of a small imperative language to basic blocks, dead-block
//! elimination, and a reference interpreter for the block program.

pub mod ast;
pub mod blocks;
pub mod blocks_optimization;
pub mod flow_graph;
pub mod history;
pub mod laws;
pub mod lower_expr;
pub mod lower_stmt;
pub mod machine;
pub mod names;
pub mod prover;
pub mod scope;
pub mod state;
pub mod typing;
pub mod value;
pub mod zgen;
