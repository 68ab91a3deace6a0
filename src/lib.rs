//! A rollback-netcode core: per-player input queues with prediction, a ring of
//! simulation snapshots, and a session that advances speculatively, stalls when
//! remote confirmations fall too far behind, and rolls back and resimulates
//! when a prediction turns out wrong.
pub mod input;
pub mod queue;
pub mod snapshot;
pub mod game;
pub mod session;
pub mod world;
pub mod protocol;
