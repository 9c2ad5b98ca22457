//! Length-prefixed framing: one payload per frame, behind a four-byte
//! big-endian length.
//!
//! The frame carries no type tag. Which message a payload holds follows
//! from the order of the protocol alone.

use crate::bytes::{be_u32_bytes, be_u32_value, lemma_be_u32_round_trip};
use byteorder::{BigEndian, ReadBytesExt, WriteBytesExt};
use vstd::prelude::*;
use vstd::slice::{slice_subrange, slice_to_vec};

verus! {

/// The number of bytes in a frame's length prefix.
pub const PREFIX_LEN: usize = 4;

/// The frame that carries `payload`: its length as four big-endian bytes,
/// then the payload itself. The prefix holds the length modulo 2^32; no
/// maximum size is enforced.
pub open spec fn frame(payload: Seq<u8>) -> Seq<u8> {
    be_u32_bytes((payload.len() % 0x1_0000_0000) as u32) + payload
}

/// The payload length that the prefix of `input` declares.
pub open spec fn declared_len(input: Seq<u8>) -> nat
    recommends
        input.len() >= PREFIX_LEN,
{
    be_u32_value(input) as nat
}

/// The payload of the first frame of `input`: the declared number of bytes
/// behind the prefix.
pub open spec fn first_payload(input: Seq<u8>) -> Seq<u8>
    recommends
        frame_missing(input) == 0,
{
    input.subrange(PREFIX_LEN as int, PREFIX_LEN + declared_len(input))
}

/// How many bytes `input` still lacks before its first frame is whole:
/// the rest of the prefix while the prefix is short, then the rest of the
/// declared payload; zero once the frame is there.
pub open spec fn frame_missing(input: Seq<u8>) -> nat {
    if input.len() < PREFIX_LEN {
        (PREFIX_LEN - input.len()) as nat
    } else if input.len() < PREFIX_LEN + declared_len(input) {
        (PREFIX_LEN + declared_len(input) - input.len()) as nat
    } else {
        0
    }
}

/// The frames that carry `payloads`, one after the other.
pub open spec fn frames(payloads: Seq<Seq<u8>>) -> Seq<u8>
    decreases payloads.len(),
{
    if payloads.len() == 0 {
        Seq::empty()
    } else {
        frames(payloads.drop_last()) + frame(payloads.last())
    }
}

/// The payloads of the first `count` frames of `input`, read one frame after
/// the other; reading stops early where a frame is not whole.
pub open spec fn payloads_in(input: Seq<u8>, count: nat) -> Seq<Seq<u8>>
    decreases count,
{
    if count == 0 || frame_missing(input) > 0 {
        Seq::empty()
    } else {
        seq![first_payload(input)] + payloads_in(
            input.skip(PREFIX_LEN + declared_len(input)),
            (count - 1) as nat,
        )
    }
}

/// What reading one frame from a buffer gives.
#[derive(Debug)]
pub enum FrameRead {
    /// The buffer ends inside the frame; at least `missing` more bytes are
    /// needed before anything can be decoded.
    Incomplete { missing: u64 },
    /// The buffer starts with a whole frame of `consumed` bytes that carries
    /// `payload`.
    Complete { payload: Vec<u8>, consumed: usize },
}

/// `byteorder::WriteBytesExt::write_u32::<BigEndian>` on a `Vec<u8>`:
/// appends the four bytes of `n`, most significant first. A vector takes
/// every write, so the call's `io::Result` is always `Ok` and is dropped.
#[verifier::external_body]
fn write_u32_be(out: &mut Vec<u8>, n: u32)
    ensures
        final(out)@ == old(out)@ + be_u32_bytes(n),
{
    let _ = out.write_u32::<BigEndian>(n);
}

/// `byteorder::ReadBytesExt::read_u32::<BigEndian>` on a byte slice: the
/// number spelled by the first four bytes, most significant first; an error
/// (here `None`) when fewer than four bytes are there.
#[verifier::external_body]
fn read_u32_be(input: &[u8]) -> (r: Option<u32>)
    ensures
        input@.len() >= 4 ==> r == Some(be_u32_value(input@)),
        input@.len() < 4 ==> r is None,
{
    let mut reader = input;
    reader.read_u32::<BigEndian>().ok()
}

/// Appends to `out` the frame that carries `item`.
pub fn serialize_item(out: &mut Vec<u8>, item: &[u8])
    ensures
        final(out)@ == old(out)@ + frame(item@),
{
    let ghost before = out@;
    let len: u64 = item.len() as u64;
    let prefix: u32 = (len % 0x1_0000_0000) as u32;
    write_u32_be(out, prefix);
    let ghost middle = out@;
    out.extend_from_slice(item);
    assert(out@ =~= middle + item@);
    assert(out@ =~= before + frame(item@));
}

/// Frames every item of one pass of the outbound queue, in the order in
/// which they were queued, into one buffer to be written and flushed once.
pub fn serialize_items(items: &Vec<Vec<u8>>) -> (out: Vec<u8>)
    ensures
        out@ == frames(items@.map_values(|item: Vec<u8>| item@)),
{
    let ghost payloads = items@.map_values(|item: Vec<u8>| item@);
    let mut out: Vec<u8> = Vec::new();
    let mut i: usize = 0;
    while i < items.len()
        invariant
            i <= items.len(),
            payloads == items@.map_values(|item: Vec<u8>| item@),
            out@ == frames(payloads.take(i as int)),
        decreases items.len() - i,
    {
        serialize_item(&mut out, items[i].as_slice());
        proof {
            assert(payloads.take(i + 1).drop_last() =~= payloads.take(i as int));
            assert(payloads.take(i + 1).last() == items@[i as int]@);
        }
        i += 1;
    }
    proof {
        assert(payloads.take(i as int) =~= payloads);
    }
    out
}

/// Reads the first frame of `input`, if it is whole.
pub fn deserialize_item(input: &[u8]) -> (r: FrameRead)
    ensures
        match r {
            FrameRead::Incomplete { missing } => missing > 0 && missing == frame_missing(input@),
            FrameRead::Complete { payload, consumed } => {
                &&& frame_missing(input@) == 0
                &&& consumed == PREFIX_LEN + declared_len(input@)
                &&& payload@ == first_payload(input@)
            },
        },
{
    let have: u64 = input.len() as u64;
    match read_u32_be(input) {
        None => FrameRead::Incomplete { missing: 4 - have },
        Some(declared) => {
            let need: u64 = 4 + declared as u64;
            if have < need {
                FrameRead::Incomplete { missing: need - have }
            } else {
                let consumed: usize = need as usize;
                let payload = slice_to_vec(slice_subrange(input, 4, consumed));
                FrameRead::Complete { payload, consumed }
            }
        },
    }
}

/// Decoding an encoded payload gives the payload back, and what follows the
/// frame in the buffer is left alone: the frame is whole, it declares the
/// payload's length, and its payload bytes are the payload.
pub proof fn lemma_frame_round_trip(payload: Seq<u8>, rest: Seq<u8>)
    requires
        payload.len() <= u32::MAX,
    ensures
        frame(payload).len() == PREFIX_LEN + payload.len(),
        frame_missing(frame(payload) + rest) == 0,
        declared_len(frame(payload) + rest) == payload.len(),
        first_payload(frame(payload) + rest) == payload,
        (frame(payload) + rest).skip(PREFIX_LEN + payload.len()) == rest,
{
    let n = (payload.len() % 0x1_0000_0000) as u32;
    let buffer = frame(payload) + rest;
    lemma_be_u32_round_trip(n, payload + rest);
    assert(buffer =~= be_u32_bytes(n) + (payload + rest));
    assert(buffer.subrange(PREFIX_LEN as int, PREFIX_LEN + payload.len()) =~= payload);
    assert(buffer.skip(PREFIX_LEN + payload.len()) =~= rest);
}

/// A frame whose declared length exceeds the bytes at hand is not decoded:
/// every proper prefix of a frame is reported incomplete, and once the
/// prefix is in, the count of missing bytes is exactly what remains.
pub proof fn lemma_partial_frame_is_incomplete(payload: Seq<u8>, have: nat)
    requires
        payload.len() <= u32::MAX,
        have < frame(payload).len(),
    ensures
        frame_missing(frame(payload).take(have as int)) > 0,
        have < PREFIX_LEN ==> frame_missing(frame(payload).take(have as int)) == PREFIX_LEN
            - have,
        have >= PREFIX_LEN ==> frame_missing(frame(payload).take(have as int)) == frame(
            payload,
        ).len() - have,
{
    let n = (payload.len() % 0x1_0000_0000) as u32;
    let part = frame(payload).take(have as int);
    if have >= PREFIX_LEN {
        let tail = payload.take(have - PREFIX_LEN);
        lemma_be_u32_round_trip(n, tail);
        assert(part =~= be_u32_bytes(n) + tail);
    }
}

/// Framing a first payload and then the others is framing them all.
proof fn lemma_frames_of_first_and_rest(first: Seq<u8>, others: Seq<Seq<u8>>)
    ensures
        frames(seq![first] + others) == frame(first) + frames(others),
    decreases others.len(),
{
    let all = seq![first] + others;
    if others.len() == 0 {
        assert(all.drop_last() =~= Seq::<Seq<u8>>::empty());
        assert(all.last() == first);
        assert(frames(all.drop_last()) =~= Seq::<u8>::empty());
        assert(frames(all) == frames(all.drop_last()) + frame(all.last()));
        assert(frames(all) =~= frame(first));
        assert(frame(first) + frames(others) =~= frame(first));
    } else {
        assert(all.drop_last() =~= seq![first] + others.drop_last());
        assert(all.last() == others.last());
        lemma_frames_of_first_and_rest(first, others.drop_last());
        assert(frames(all) =~= frame(first) + frames(others));
    }
}

/// What one pass of the outbound queue writes is read back frame by frame as
/// the payloads that were queued, in the order in which they were queued,
/// whatever follows them on the stream.
pub proof fn lemma_stream_round_trip(payloads: Seq<Seq<u8>>, rest: Seq<u8>)
    requires
        forall|i: int| 0 <= i < payloads.len() ==> (#[trigger] payloads[i]).len() <= u32::MAX,
    ensures
        payloads_in(frames(payloads) + rest, payloads.len()) == payloads,
    decreases payloads.len(),
{
    if payloads.len() > 0 {
        let first = payloads[0];
        let others = payloads.skip(1);
        let stream = frames(payloads) + rest;
        assert(payloads =~= seq![first] + others);
        lemma_frames_of_first_and_rest(first, others);
        assert(stream =~= frame(first) + (frames(others) + rest));
        lemma_frame_round_trip(first, frames(others) + rest);
        assert forall|i: int| 0 <= i < others.len() implies (#[trigger] others[i]).len()
            <= u32::MAX by {
            assert(others[i] == payloads[i + 1]);
        }
        lemma_stream_round_trip(others, rest);
        assert(payloads_in(stream, payloads.len()) =~= payloads);
    }
}

} // verus!
