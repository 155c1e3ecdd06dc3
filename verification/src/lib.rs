//! A message broker's logic: wire protocol, log store, subscriptions,
//! connection sessions, access control, health, and the client side of
//! benchmarks and fuzzing.

pub mod bench;
pub mod broker;
pub mod bytes;
pub mod config;
pub mod fuzz;
pub mod health;
pub mod metrics;
pub mod protocol;
pub mod security;
pub mod store;
pub mod subscription;

pub use config::Config;
pub use protocol::{
    encode_ack, encode_data, encode_fetch, encode_notify, encode_publish, encode_subscribe,
    FrameRef, Op, Parser,
};
pub use store::{FileRing, MemRing, Store, StoreError};
pub use subscription::{SubMap, Subscriber};
