//! Sync HotStuff: the leader of the view proposes, everybody votes, and a block commits when
//! twice the network delay has passed without trouble.

pub mod commit;
pub mod context;
pub mod proposal;
pub mod queue;
pub mod reactor;
pub mod rules;
pub mod state;
pub mod types;
pub mod vote;
