//! Batching of transactions, and what is known of batches.

pub mod batch;
pub mod batcher;
pub mod cache;
pub mod client_listener;
pub mod confirmation_router;
pub mod messages;
pub mod processor;
pub mod receiver;
pub mod rr_batcher;
pub mod rules;
pub mod sealer;
pub mod tx;
pub mod tx_pool;
