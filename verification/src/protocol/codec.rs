//! Encoders: each appends one frame to a buffer.

use super::frame;
use super::frame::{Message, Op, LEN_PREFIX, MIN_FRAME};
use super::wire;
use vstd::prelude::*;
use vstd::string::*;

verus! {

broadcast use crate::protocol::wire::be32_len;

/// Appends the frame for an operation, a topic and a payload.
pub fn encode_frame(buf: &mut Vec<u8>, op: Op, topic: &[u8], payload: &[u8])
    requires
        13 + topic@.len() + payload@.len() <= usize::MAX,
    ensures
        final(buf)@ == old(buf)@ + (Message { op, topic: topic@, payload: payload@ }).encoded(),
{
    let total_len: usize = MIN_FRAME + topic.len() + payload.len();
    buf.reserve(LEN_PREFIX + total_len);
    wire::put_u32(buf, total_len as u32);
    buf.push(op.to_u8());
    wire::put_u32(buf, topic.len() as u32);
    wire::put_u32(buf, payload.len() as u32);
    wire::put_bytes(buf, topic);
    wire::put_bytes(buf, payload);
    assert(buf@ =~= old(buf)@ + (Message { op, topic: topic@, payload: payload@ }).encoded());
}

pub fn encode_publish(buf: &mut Vec<u8>, topic: &[u8], payload: &[u8])
    requires
        13 + topic@.len() + payload@.len() <= usize::MAX,
    ensures
        final(buf)@ == old(buf)@ + (Message {
            op: Op::Publish,
            topic: topic@,
            payload: payload@,
        }).encoded(),
{
    encode_frame(buf, Op::Publish, topic, payload);
}

pub fn encode_subscribe(buf: &mut Vec<u8>, topic: &[u8])
    requires
        13 + topic@.len() <= usize::MAX,
    ensures
        final(buf)@ == old(buf)@ + (Message {
            op: Op::Subscribe,
            topic: topic@,
            payload: Seq::empty(),
        }).encoded(),
{
    let nothing: Vec<u8> = Vec::new();
    encode_frame(buf, Op::Subscribe, topic, nothing.as_slice());
}

/// Appends a frame whose payload is a log position and a record length.
fn encode_located(buf: &mut Vec<u8>, op: Op, topic: &[u8], offset: u64, len: u32)
    requires
        25 + topic@.len() <= usize::MAX,
    ensures
        final(buf)@ == old(buf)@ + (Message {
            op,
            topic: topic@,
            payload: frame::locator(offset, len),
        }).encoded(),
{
    let mut payload: Vec<u8> = Vec::with_capacity(12);
    wire::put_u64(&mut payload, offset);
    wire::put_u32(&mut payload, len);
    assert(payload@ =~= frame::locator(offset, len));
    encode_frame(buf, op, topic, payload.as_slice());
}

/// A request for the record of `len` bytes at `offset`.
pub fn encode_fetch(buf: &mut Vec<u8>, topic: &[u8], offset: u64, len: u32)
    requires
        25 + topic@.len() <= usize::MAX,
    ensures
        final(buf)@ == old(buf)@ + (Message {
            op: Op::Fetch,
            topic: topic@,
            payload: frame::locator(offset, len),
        }).encoded(),
{
    encode_located(buf, Op::Fetch, topic, offset, len);
}

/// The acknowledgement of a record of `len` bytes at `offset`.
pub fn encode_ack(buf: &mut Vec<u8>, topic: &[u8], offset: u64, len: u32)
    requires
        25 + topic@.len() <= usize::MAX,
    ensures
        final(buf)@ == old(buf)@ + (Message {
            op: Op::Ack,
            topic: topic@,
            payload: frame::locator(offset, len),
        }).encoded(),
{
    encode_located(buf, Op::Ack, topic, offset, len);
}

/// The announcement of a record of `len` bytes at `offset`.
pub fn encode_notify(buf: &mut Vec<u8>, topic: &[u8], offset: u64, len: u32)
    requires
        25 + topic@.len() <= usize::MAX,
    ensures
        final(buf)@ == old(buf)@ + (Message {
            op: Op::Notify,
            topic: topic@,
            payload: frame::locator(offset, len),
        }).encoded(),
{
    encode_located(buf, Op::Notify, topic, offset, len);
}

pub fn encode_data(buf: &mut Vec<u8>, topic: &[u8], payload: &[u8])
    requires
        13 + topic@.len() + payload@.len() <= usize::MAX,
    ensures
        final(buf)@ == old(buf)@ + (Message {
            op: Op::Data,
            topic: topic@,
            payload: payload@,
        }).encoded(),
{
    encode_frame(buf, Op::Data, topic, payload);
}

/// The topic of authentication frames.
pub open spec fn auth_topic() -> Seq<u8> {
    seq![97u8, 117u8, 116u8, 104u8]
}

/// The bytes of `auth`.
pub fn auth_topic_bytes() -> (topic: Vec<u8>)
    ensures
        topic@ == auth_topic(),
{
    let topic: Vec<u8> = vec![97u8, 117u8, 116u8, 104u8];
    assert(topic@ =~= auth_topic());
    topic
}

/// A client's token, under the topic `auth`.
pub fn encode_auth(buf: &mut Vec<u8>, token: &[u8])
    requires
        17 + token@.len() <= usize::MAX,
    ensures
        final(buf)@ == old(buf)@ + (Message {
            op: Op::Auth,
            topic: auth_topic(),
            payload: token@,
        }).encoded(),
{
    encode_frame(buf, Op::Auth, auth_topic_bytes().as_slice(), token);
}

/// A refusal, with a text for the client.
pub fn encode_error(buf: &mut Vec<u8>, topic: &[u8], message: &str)
    requires
        13 + topic@.len() + message.spec_bytes().len() <= usize::MAX,
    ensures
        final(buf)@ == old(buf)@ + (Message {
            op: Op::Error,
            topic: topic@,
            payload: message.spec_bytes(),
        }).encoded(),
{
    encode_frame(buf, Op::Error, topic, message.as_bytes());
}

} // verus!
