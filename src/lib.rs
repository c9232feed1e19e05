//! Client-side conflict resolution for a replicated key-value store: the
//! version model that concurrent reads return, and the deterministic
//! last-write-wins resolver that picks one version among them.

pub mod order;
pub mod wire;
pub mod clock;
pub mod version;
pub mod resolve;
