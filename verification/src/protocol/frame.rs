//! Frames: each message travels as a length prefix of four bytes, the least
//! significant first, and then as many bytes of payload.

use crate::error::ProtocolError;
use crate::protocol::codec::lemma_short_text;
use crate::protocol::decode::decode_admin;
use crate::protocol::encode::encode_node;
use crate::protocol::message::{AdminToNode, AdminToNodeView, NodeToAdmin};
use crate::protocol::wire::{decoded, lemma_round_trip, Wire};
use vstd::prelude::*;
use vstd::slice::slice_subrange;

verus! {

/// The number of bytes of a length prefix.
pub const PREFIX_LEN: usize = 4;

/// The length prefix for a payload of `len` bytes.
pub open spec fn prefix_bytes(len: u32) -> Seq<u8> {
    seq![
        (len % 0x100) as u8,
        (len / 0x100 % 0x100) as u8,
        (len / 0x1_0000 % 0x100) as u8,
        (len / 0x100_0000) as u8,
    ]
}

/// The length that a prefix announces.
pub open spec fn prefix_value(prefix: Seq<u8>) -> int {
    prefix[0] + prefix[1] * 0x100 + prefix[2] * 0x1_0000 + prefix[3] * 0x100_0000
}

/// The frame that carries `payload`.
pub open spec fn frame(payload: Seq<u8>) -> Seq<u8> {
    prefix_bytes(payload.len() as u32) + payload
}

/// The first frame of a stream, if the stream holds all of it: its payload
/// and the position after it.
pub open spec fn framed(stream: Seq<u8>) -> Option<(Seq<u8>, int)> {
    if stream.len() >= PREFIX_LEN && PREFIX_LEN + prefix_value(stream.take(PREFIX_LEN as int))
        <= stream.len() {
        let end = PREFIX_LEN + prefix_value(stream.take(PREFIX_LEN as int));
        Some((stream.subrange(PREFIX_LEN as int, end), end))
    } else {
        None
    }
}

/// A prefix announces the length that it was made for, and is made of the
/// length that it announces.
pub proof fn lemma_prefix(len: u32, prefix: Seq<u8>)
    ensures
        prefix_bytes(len).len() == PREFIX_LEN,
        prefix_value(prefix_bytes(len)) == len,
        0 <= prefix_value(prefix) <= u32::MAX,
        prefix.len() == PREFIX_LEN ==> prefix_bytes(prefix_value(prefix) as u32) == prefix,
{
    if prefix.len() == PREFIX_LEN {
        assert(prefix_bytes(prefix_value(prefix) as u32) =~= prefix);
    }
}

/// A frame is read back from the beginning of a stream, whatever follows it.
pub proof fn lemma_framed(payload: Seq<u8>, rest: Seq<u8>)
    requires
        payload.len() <= u32::MAX,
    ensures
        framed(frame(payload) + rest) == Some((payload, PREFIX_LEN + payload.len())),
{
    let stream = frame(payload) + rest;
    let prefix = prefix_bytes(payload.len() as u32);
    lemma_prefix(payload.len() as u32, prefix);
    assert(stream.take(PREFIX_LEN as int) =~= prefix);
    assert(stream.subrange(PREFIX_LEN as int, PREFIX_LEN + payload.len()) =~= payload);
}

/// A message of the administrator that is written, framed and read back from
/// the beginning of a stream is the same message.
pub proof fn lemma_message_round_trip(message: AdminToNodeView, rest: Seq<u8>)
    requires
        message.wf(),
        message.enc().len() <= u32::MAX,
    ensures
        framed(frame(message.enc()) + rest) == Some(
            (message.enc(), PREFIX_LEN + message.enc().len()),
        ),
        decoded::<AdminToNodeView>(message.enc()) == Some(message),
{
    lemma_framed(message.enc(), rest);
    lemma_round_trip(message);
}

/// A message of the node that is written and read back is the same message.
pub proof fn lemma_reply_round_trip(message: NodeToAdmin)
    ensures
        framed(frame(message.enc())) == Some((message.enc(), PREFIX_LEN + message.enc().len())),
        decoded::<NodeToAdmin>(message.enc()) == Some(message),
{
    reveal_strlit("Ready");
    lemma_short_text("Ready"@);
    lemma_framed(message.enc(), Seq::empty());
    assert(frame(message.enc()) + Seq::<u8>::empty() =~= frame(message.enc()));
    lemma_round_trip(message);
}

/// The length that a prefix announces.
pub fn payload_len(prefix: &[u8; 4]) -> (len: u32)
    ensures
        len == prefix_value(prefix@),
{
    let b0 = prefix[0] as u32;
    let b1 = prefix[1] as u32;
    let b2 = prefix[2] as u32;
    let b3 = prefix[3] as u32;
    b0 + b1 * 0x100 + b2 * 0x1_0000 + b3 * 0x100_0000
}

/// Puts a payload that fits in a frame.
fn frame_of(payload: &[u8]) -> (bytes: Vec<u8>)
    requires
        payload@.len() <= u32::MAX,
    ensures
        bytes@ == frame(payload@),
{
    let len = payload.len() as u32;
    let mut bytes: Vec<u8> = Vec::new();
    bytes.push((len % 0x100) as u8);
    bytes.push((len / 0x100 % 0x100) as u8);
    bytes.push((len / 0x1_0000 % 0x100) as u8);
    bytes.push((len / 0x100_0000) as u8);
    bytes.extend_from_slice(payload);
    assert(bytes@ =~= frame(payload@));
    bytes
}

/// Puts a payload in a frame. A payload that is too long for the prefix is
/// refused.
pub fn encode_frame(payload: &[u8]) -> (r: Result<Vec<u8>, ProtocolError>)
    ensures
        match r {
            Ok(bytes) => payload@.len() <= u32::MAX && bytes@ == frame(payload@),
            Err(e) => payload@.len() > u32::MAX && e == ProtocolError::FrameTooLong,
        },
{
    if payload.len() > u32::MAX as usize {
        Err(ProtocolError::FrameTooLong)
    } else {
        Ok(frame_of(payload))
    }
}

/// The bytes that carry a message of the node: its wire form in a frame.
pub fn send_message(message: NodeToAdmin) -> (bytes: Vec<u8>)
    ensures
        bytes@ == frame(message.enc()),
{
    let payload = encode_node(message);
    proof {
        reveal_strlit("Ready");
        lemma_short_text("Ready"@);
    }
    frame_of(payload.as_slice())
}

/// Reads one message of the administrator from the beginning of a stream:
/// the message and the number of bytes that its frame takes. A stream that
/// ends before the frame does is truncated; a frame whose payload is the wire
/// form of no message is malformed.
pub fn recv_message(stream: &[u8]) -> (r: Result<(AdminToNode, usize), ProtocolError>)
    ensures
        match r {
            Ok((message, used)) => framed(stream@) matches Some((payload, end)) && used == end
                && decoded::<AdminToNodeView>(payload) == Some(message@),
            Err(e) => match framed(stream@) {
                Some((payload, _)) => e == ProtocolError::Malformed && decoded::<
                    AdminToNodeView,
                >(payload) is None,
                None => e == ProtocolError::Truncated,
            },
        },
{
    if stream.len() < PREFIX_LEN {
        return Err(ProtocolError::Truncated);
    }
    let prefix: [u8; 4] = [stream[0], stream[1], stream[2], stream[3]];
    assert(prefix@ =~= stream@.take(PREFIX_LEN as int));
    let len = payload_len(&prefix);
    if len as u64 > (stream.len() - PREFIX_LEN) as u64 {
        return Err(ProtocolError::Truncated);
    }
    let end = PREFIX_LEN + len as usize;
    match decode_admin(slice_subrange(stream, PREFIX_LEN, end)) {
        Ok(message) => Ok((message, end)),
        Err(e) => Err(e),
    }
}

} // verus!
