//! Opt Sync: Sync HotStuff with a fast path. A block that three quarters of the nodes voted for
//! commits at once.

pub mod context;
pub mod process;
pub mod reactor;
pub mod rules;
pub mod vote;
