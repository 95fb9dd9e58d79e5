//! Bounded storage: pools, tables, block-wise transfers and the engine.
pub mod blocks;
pub mod body;
pub mod builder;
pub mod capacities;
pub mod endpoint;
pub mod engine;
pub mod io;
pub mod laws;
pub mod memory;
pub mod metrics;
pub mod observe;
pub mod pool;
pub mod profiles;
pub mod rows;
pub mod table;
pub mod transfer;

pub use endpoint::{BlockKey, BodyTag, DedupKey, Endpoint, ExchangeKey, ObserveKey, SlotId};
pub use pool::{DatagramPool, DatagramSlot};
pub use rows::{DedupEntry, ExchangeEntry, ObserveInterest, PendingCon, Retransmit};
pub use body::{BlockProgress, QBlockRecover};
pub use transfer::{BlockRole, BlockTransfer, BodyPool, OutgoingBlock};
pub use io::{DatagramIo, DatagramIoError, Port};
pub use metrics::Metrics;
pub use engine::{Confirm, Engine, Store};
pub use builder::{EngineBuilder, Missing, Present};
pub use capacities::Capacities;
pub use memory::{Memory, MemoryProfile, NoBodies, Storage, WithBodies};
