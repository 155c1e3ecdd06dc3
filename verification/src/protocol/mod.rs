//! Wire protocol: frames, their encoding and an incremental parser.

pub mod calls;
pub mod codec;
pub mod frame;
pub mod parser;
pub mod stream;
pub mod wire;

pub use codec::{
    encode_ack, encode_auth, encode_data, encode_error, encode_fetch, encode_frame, encode_notify,
    encode_publish, encode_subscribe,
};
pub use parser::Parser;
pub use frame::{FrameRef, Op, HEADER_SIZE, LEN_PREFIX, MAX_FRAME, MIN_FRAME};

