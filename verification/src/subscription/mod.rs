//! Who listens to which topic.

pub mod map;
pub mod shard;

pub use map::SubMap;
pub use shard::{Shard, Subscriber};
