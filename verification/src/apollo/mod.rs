//! Apollo: the leader rotates with every round, and a block commits once enough rounds were
//! built on it.

pub mod commit;
pub mod context;
pub mod laws;
pub mod message;
pub mod proposal;
pub mod reactor;
pub mod request;
pub mod rules;
pub mod state;
pub mod types;
