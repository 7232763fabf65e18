//! A small ordered set of port numbers that keeps up to sixteen values inline
//! and moves them to a sorted `SmallVec` once a seventeenth arrives.

pub mod small;
pub mod order;
pub mod chimera;
pub mod laws;

pub use chimera::Chimera;
pub use chimera::INLINE_CAP;
