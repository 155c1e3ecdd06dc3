//! The log store: a ring that keeps the most recent records.

pub mod audit;
pub mod durable;
pub mod file;
pub mod flusher;
pub mod header;
pub mod log;
pub mod mem;
pub mod modulo;
pub mod persistence;
pub mod record;
pub mod retention;

pub use durable::{wait_durable, DurableGate, WaitDurable};
pub use file::FileRing;
pub use log::{Store, StoreError};
pub use mem::MemRing;
pub use record::decode_record;
