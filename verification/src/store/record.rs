//! Records read back from the log.

use super::log;
use crate::protocol::wire;
use vstd::prelude::*;
use vstd::slice::slice_subrange;

verus! {

broadcast use crate::protocol::wire::be32_len;

/// Topic and payload of the record at the front of `raw`, where all of it is
/// there.
pub open spec fn decoded(raw: Seq<u8>) -> Option<(Seq<u8>, Seq<u8>)> {
    let topic_len = wire::u32_at(raw, 0) as int;
    let payload_len = wire::u32_at(raw, 4) as int;
    if raw.len() >= 8 && raw.len() >= 8 + topic_len + payload_len {
        Some(
            (
                raw.subrange(8, 8 + topic_len),
                raw.subrange(8 + topic_len, 8 + topic_len + payload_len),
            ),
        )
    } else {
        None
    }
}

/// A record reads back as the topic and the payload it was made of, whatever
/// follows it.
pub proof fn record_round_trip(topic: Seq<u8>, payload: Seq<u8>, more: Seq<u8>)
    requires
        topic.len() <= u32::MAX,
        payload.len() <= u32::MAX,
    ensures
        decoded(log::record(topic, payload) + more) == Some((topic, payload)),
{
    let raw = log::record(topic, payload) + more;
    let t = topic.len() as int;
    let p = payload.len() as int;
    assert(raw.subrange(0, 4) =~= wire::be32(t as u32));
    assert(raw.subrange(4, 8) =~= wire::be32(p as u32));
    wire::u32_round_trip(t as u32, raw, 0);
    wire::u32_round_trip(p as u32, raw, 4);
    assert(raw.subrange(8, 8 + t) =~= topic);
    assert(raw.subrange(8 + t, 8 + t + p) =~= payload);
}

/// Topic and payload of the record at the front of `raw`.
pub fn decode_record(raw: &[u8]) -> (r: Option<(&[u8], &[u8])>)
    ensures
        match r {
            Some((topic, payload)) => decoded(raw@) == Some((topic@, payload@)),
            None => decoded(raw@) is None,
        },
{
    if raw.len() < 8 {
        return None;
    }
    let topic_len: u64 = wire::get_u32(raw, 0) as u64;
    let payload_len: u64 = wire::get_u32(raw, 4) as u64;
    if (raw.len() as u64) < 8 + topic_len + payload_len {
        return None;
    }
    let split: usize = 8 + topic_len as usize;
    Some(
        (slice_subrange(raw, 8, split), slice_subrange(raw, split, split + payload_len as usize)),
    )
}

/// What is decoded was there: the record of topic and payload is what the
/// bytes begin with.
pub proof fn decoded_records_are_there(raw: Seq<u8>)
    requires
        decoded(raw) is Some,
    ensures
        ({
            let (topic, payload) = decoded(raw)->0;
            let n = 8 + topic.len() + payload.len();
            n <= raw.len() && log::record(topic, payload) == raw.take(n as int)
        }),
{
    let (topic, payload) = decoded(raw)->0;
    let n = 8 + topic.len() + payload.len();
    wire::bytes_round_trip(raw, 0);
    wire::bytes_round_trip(raw, 4);
    let rec = log::record(topic, payload);
    assert forall|i: int| 0 <= i < n implies rec[i] == raw[i] by {
        if i < 4 {
            assert(raw.subrange(0, 4)[i] == raw[i]);
        } else if i < 8 {
            assert(raw.subrange(4, 8)[i - 4] == raw[i]);
        }
    }
    assert(rec =~= raw.take(n as int));
}

/// A record has both lengths in front, in four bytes each, and topic and
/// payload behind them as they are.
pub proof fn records_carry_their_lengths(topic: Seq<u8>, payload: Seq<u8>)
    requires
        topic.len() <= u32::MAX,
        payload.len() <= u32::MAX,
    ensures
        ({
            let rec = log::record(topic, payload);
            &&& rec.len() == 8 + topic.len() + payload.len()
            &&& rec[0] * 16777216 + rec[1] * 65536 + rec[2] * 256 + rec[3] == topic.len()
            &&& rec[4] * 16777216 + rec[5] * 65536 + rec[6] * 256 + rec[7] == payload.len()
            &&& rec.skip(8) == topic + payload
        }),
{
    let rec = log::record(topic, payload);
    wire::be32_is_positional(topic.len() as u32);
    wire::be32_is_positional(payload.len() as u32);
    assert(rec.skip(8) =~= topic + payload);
}

} // verus!
