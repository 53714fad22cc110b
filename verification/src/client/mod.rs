//! What a client does between sending transactions and hearing that they have committed.

pub mod keyed;
pub mod windowed;
