//! The per-domain packet plane of a streaming dataflow engine: a group-commit
//! durability queue that batches writes to base nodes and persists them as one
//! merged packet per flush, and the per-node routing state that accounts for
//! packet labels, buffers outgoing packets, and replays them on `resume_at`.

pub mod idmap;
pub mod logenc;
pub mod node;
pub mod packet;
pub mod persistence;
pub mod txtime;
