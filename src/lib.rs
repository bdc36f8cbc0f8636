//! A partition of a durable invocation runtime: the state machine that applies a partition's
//! log, the codecs of its stored records, the versioned metadata store, the storage engine's
//! column-family rules and the timer service.

pub mod codec;
pub mod conversion;
pub mod dedup;
pub mod invocation_status;
pub mod journal;
pub mod metadata_store;
pub mod partition;
pub mod rocksdb;
pub mod state_machine;
pub mod state_table;
pub mod storage_codec;
pub mod timer;
pub mod types;
pub mod utf8_text;
pub mod uuid_bytes;
pub mod version;
pub mod wipe;
