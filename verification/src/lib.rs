//! Core of a native-protocol ClickHouse client: wire primitives, the
//! compression envelope, the type grammar and the columnar codec, each with a
//! machine-checked contract.

pub mod block;
pub mod block_law;
pub mod clickhouse_enum;
pub mod compression;
pub mod errors;
pub mod io;
pub mod lock;
pub mod migrate;
pub mod packets;
pub mod protocol;
pub mod session;
pub mod text;
pub mod types;
pub mod values;

pub use block::{Block, BlockInfo, Column};
pub use errors::KlickhouseError;
pub use migrate::{ClusterMigration, ClusterName};
pub use lock::{ClickhouseLock, ClickhouseLockHandle, LockAttempt};
pub use io::{ByteReader, ClickhouseRead, ClickhouseWrite};
pub use types::Type;
pub use values::{
    i256, u256, Date, DateTime, DynDateTime64, MultiPolygon, Point, Polygon, Ring, Value,
};
