//! Artemis: a view leader strings blocks together, and a leader who is drawn anew for every
//! round votes for the chain.

pub mod commit;
pub mod context;
pub mod coordinator;
pub mod laws;
pub mod leaders;
pub mod message;
pub mod metrics;
pub mod reactor;
pub mod request;
pub mod round_vote;
pub mod rules;
pub mod state;
pub mod types;
