pub mod apollo;
pub mod artemis;
pub mod certs;
pub mod chain;
pub mod client;
pub mod config;
pub mod digest;
pub mod fnv_map;
pub mod genconfig;
pub mod handlers;
pub mod hash;
pub mod mempool;
pub mod net;
pub mod optsync;
pub mod split_map;
pub mod stats;
pub mod stress;
pub mod synchs;
pub mod text;
