//! Chunk execution apart from block production.
//!
//! A block fixes which chunks are executed; the execution itself happens later
//! and on its own. This crate holds the decisions of a node that executes
//! chunks and checks the executions of others: which receipts it waits for and
//! in which order they are applied, when a block can be executed, what is
//! recorded and sent once it was, and when the witness of an execution is
//! accepted.
//!
//! What the node reads from its store, its epoch manager and its runtime comes
//! in as answers to questions: see [`view::ChainView`].
pub mod answer_laws;
pub mod block;
pub mod block_laws;
pub mod by_hash;
pub mod check_laws;
pub mod core_statements;
pub mod data_distribution;
pub mod error;
pub mod execution_laws;
pub mod executor;
pub mod flow;
pub mod flow_laws;
pub mod hash;
pub mod incoming;
pub mod job_laws;
pub mod jobs;
pub mod kept_laws;
pub mod messages;
pub mod order;
pub mod order_laws;
pub mod outcome;
pub mod outcome_laws;
pub mod receipt_laws;
pub mod receipts;
pub mod receipts_cache;
pub mod saved_laws;
pub mod shown_laws;
pub mod statement_laws;
pub mod statements;
pub mod stop_laws;
pub mod validation;
pub mod view;
pub mod view_laws;
pub mod witness;
pub mod witness_laws;
pub mod work_laws;
