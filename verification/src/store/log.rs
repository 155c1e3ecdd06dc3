//! What a store keeps, and what every store does.

use crate::protocol::wire;
use vstd::prelude::*;

verus! {

#[derive(Debug, Clone, Copy, PartialEq, Eq, Structural)]
pub enum StoreError {
    /// The record takes more than half of the ring.
    Full,
    /// The range was written once and has been overwritten.
    NotFound,
    /// The range reaches beyond what was written.
    InvalidOffset,
    /// The record would overwrite what is still to be delivered.
    Overflow,
}

/// A record as it lies in the log: both lengths, then topic and payload.
pub open spec fn record(topic: Seq<u8>, payload: Seq<u8>) -> Seq<u8> {
    wire::be32(topic.len() as u32) + wire::be32(payload.len() as u32) + topic + payload
}

/// The log: a stream of bytes of which the last `capacity` are kept.
#[verifier::ext_equal]
pub struct Log {
    /// How many bytes are kept at most.
    pub capacity: nat,
    /// How many bytes were ever written.
    pub end: nat,
    /// The bytes that are kept, up to `end`.
    pub bytes: Seq<u8>,
    /// Bytes from here on must not be overwritten, where set.
    pub keep_from: Option<u64>,
}

impl Log {
    /// The position of the first byte that is kept.
    pub open spec fn start(self) -> nat {
        if self.end > self.capacity {
            (self.end - self.capacity) as nat
        } else {
            0
        }
    }

    pub open spec fn wf(self) -> bool {
        &&& 0 < self.capacity <= isize::MAX
        &&& self.bytes.len() == self.end - self.start()
    }

    /// The range is kept.
    pub open spec fn holds(self, offset: int, len: int) -> bool {
        self.start() <= offset && 0 <= len && offset + len <= self.end
    }

    /// The `len` bytes at `offset`.
    pub open spec fn at(self, offset: int, len: int) -> Seq<u8> {
        self.bytes.subrange(offset - self.start(), offset - self.start() + len)
    }

    /// The log with `rec` behind it.
    pub open spec fn appended(self, rec: Seq<u8>) -> Log {
        let longer = Log { end: self.end + rec.len(), ..self };
        Log { bytes: (self.bytes + rec).skip(longer.start() - self.start()), ..longer }
    }

    /// What an append of `rec` reports.
    pub open spec fn append_result(self, rec: Seq<u8>) -> Result<(u64, u32), StoreError> {
        if rec.len() > self.capacity / 2 {
            Err(StoreError::Full)
        } else if self.keep_from matches Some(w) && self.end + rec.len() > w + self.capacity {
            Err(StoreError::Overflow)
        } else {
            Ok((self.end as u64, rec.len() as u32))
        }
    }

    /// What an append of `rec` leaves.
    pub open spec fn after_append(self, rec: Seq<u8>) -> Log {
        if self.append_result(rec) is Ok {
            self.appended(rec)
        } else {
            self
        }
    }

    /// The log with another watermark, where it heeds one.
    pub open spec fn with_watermark(self, watermark: u64) -> Log {
        Log {
            keep_from: if self.keep_from is Some {
                Some(watermark)
            } else {
                None
            },
            ..self
        }
    }

    /// What a read reports.
    pub open spec fn read_result(self, offset: int, len: int) -> Result<(), StoreError> {
        if offset + len > self.end {
            Err(StoreError::InvalidOffset)
        } else if offset < self.start() {
            Err(StoreError::NotFound)
        } else {
            Ok(())
        }
    }
}

pub trait Store {
    spec fn wf(&self) -> bool;

    /// What the store keeps.
    spec fn log(&self) -> Log;

    /// Up to where the log is safe by this store's own measure.
    spec fn durable(&self) -> nat;

    /// A well-formed store keeps a well-formed log.
    proof fn log_is_wf(&self)
        requires
            self.wf(),
        ensures
            self.log().wf(),
    ;

    /// Appends the record of a topic and a payload. On success: its position
    /// and its length.
    fn append(&mut self, topic: &[u8], payload: &[u8]) -> (r: Result<(u64, u32), StoreError>)
        requires
            old(self).wf(),
            old(self).log().end + 8 + topic@.len() + payload@.len() <= u64::MAX,
        ensures
            final(self).wf(),
            r == old(self).log().append_result(record(topic@, payload@)),
            final(self).log() == old(self).log().after_append(record(topic@, payload@)),
    ;

    /// Whether records that would overwrite undelivered bytes are refused.
    fn rejects_overflow(&self) -> (yes: bool)
        requires
            self.wf(),
        ensures
            yes == (self.log().keep_from is Some),
    ;

    /// Sets the watermark: the first byte that is still to be delivered. It
    /// counts only where overflow is rejected.
    fn attach_watermark(&mut self, watermark: u64)
        requires
            old(self).wf(),
        ensures
            final(self).wf(),
            final(self).log() == old(self).log().with_watermark(watermark),
    ;

    /// Copies the `len` bytes at `offset` into `out`, which an error leaves
    /// as it is.
    fn read(&self, offset: u64, len: u32, out: &mut Vec<u8>) -> (r: Result<(), StoreError>)
        requires
            self.wf(),
        ensures
            r == self.log().read_result(offset as int, len as int),
            r is Ok ==> final(out)@ == self.log().at(offset as int, len as int),
            r is Err ==> final(out)@ == old(out)@,
    ;

    /// How many bytes were ever written.
    fn write_pos(&self) -> (pos: u64)
        requires
            self.wf(),
        ensures
            pos == self.log().end,
    ;

    /// Up to where the log is safe.
    fn durable_pos(&self) -> (pos: u64)
        requires
            self.wf(),
        ensures
            pos == self.durable(),
    ;
}

} // verus!
