//! A verified sliding-window text-transformation pipeline core.
//!
//! A large document is encoded into tokens, split into overlapping
//! token-bounded chunks, each chunk is handed (with flanking context) to an
//! external text-transformation service, and the results are reassembled in
//! original chunk order.  This crate holds the verified core: the chunk
//! planner and its boundary arithmetic, the window decoding around the
//! tokenizer, the index-ordered collection of task outcomes, and the
//! reassembly of the final document.

pub mod assemble;
pub mod config;
pub mod dispatch;
pub mod planner;
pub mod tokenizer;
