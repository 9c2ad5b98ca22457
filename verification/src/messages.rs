//! The messages of a session and their payload encodings.
//!
//! A payload is what a frame carries. The three setup messages are encoded
//! here, through `alkahest` formulas of plain values; a timed command wraps a
//! command of the simulation, whose encoding belongs to the simulation.

use crate::wire::{first_payload, frame, frame_missing, lemma_frame_round_trip};
use alkahest::DeserializeError;
use vstd::bytes::{
    lemma_auto_spec_u32_to_from_le_bytes, lemma_auto_spec_u64_to_from_le_bytes,
    spec_u32_from_le_bytes, spec_u32_to_le_bytes, spec_u64_from_le_bytes, spec_u64_to_le_bytes,
};
use vstd::prelude::*;
use vstd::utf8::{
    decode_utf8, encode_utf8, encode_utf8_decode_utf8, encode_utf8_valid_utf8, valid_utf8,
};

verus! {

/// The first message of a session, sent by each peer: the peer's name.
#[derive(Clone, Debug)]
pub struct Handshake {
    pub my_name: String,
}

/// A numbered probe of the latency calibration, echoed back unchanged.
#[derive(Clone, Copy, Debug, PartialEq, Eq, Structural)]
pub struct TimingPacket {
    pub sequence_number: u64,
}

/// The input delay, in ticks, that governs both peers for the session.
#[derive(Clone, Copy, Debug, PartialEq, Eq, Structural)]
pub struct SetInputDelay {
    pub input_delay: u64,
}

/// Names one ability of a character.
#[derive(Clone, Copy, Debug, PartialEq, Eq, Structural)]
pub struct AbilityId(pub u8);

/// A command together with the tick at which it is to be applied.
#[derive(Clone, Debug)]
pub struct TimedCommand<C> {
    pub time: u64,
    pub command: C,
}

/// Why a payload was refused.
#[derive(Clone, Copy, Debug, PartialEq, Eq, Structural)]
pub enum WireError {
    /// The payload does not have the shape of the message that the protocol
    /// expects at this point.
    Malformed,
}

/// `alkahest::DeserializeError`, the error of `alkahest::deserialize`. It is
/// carried from the call to the place where it becomes a `WireError`, and
/// nothing is read from it.
#[verifier::external_type_specification]
#[verifier::external_body]
pub struct ExDeserializeError(DeserializeError);

/// The payload of a 64-bit number: its eight bytes, least significant first.
pub open spec fn number_payload(value: u64) -> Seq<u8> {
    spec_u64_to_le_bytes(value)
}

/// The number that a payload holds: the one spelled by its last eight bytes,
/// least significant first. Fewer than eight bytes hold none; bytes before
/// the last eight are not looked at.
pub open spec fn parse_number(payload: Seq<u8>) -> Option<u64> {
    if payload.len() >= 8 {
        Some(spec_u64_from_le_bytes(payload.skip(payload.len() - 8)))
    } else {
        None
    }
}

/// The payload of a text: its UTF-8 bytes, then a reference to them, which
/// is the offset at which they end and their length, each as four bytes,
/// least significant first.
pub open spec fn text_payload(text: Seq<char>) -> Seq<u8> {
    let bytes = encode_utf8(text);
    bytes + spec_u32_to_le_bytes(bytes.len() as u32) + spec_u32_to_le_bytes(bytes.len() as u32)
}

/// The bytes that the reference at the end of a payload points at, if the
/// payload has room for a reference and the reference stays inside it.
pub open spec fn referenced_bytes(payload: Seq<u8>) -> Option<Seq<u8>> {
    if payload.len() < 8 {
        None
    } else {
        let body = payload.len() - 8;
        let end = spec_u32_from_le_bytes(payload.subrange(body, body + 4)) as int;
        let len = spec_u32_from_le_bytes(payload.subrange(body + 4, body + 8)) as int;
        if end <= body && len <= end {
            Some(payload.subrange(end - len, end))
        } else {
            None
        }
    }
}

/// The text that a payload holds: the referenced bytes, read as UTF-8.
pub open spec fn parse_text(payload: Seq<u8>) -> Option<Seq<char>> {
    match referenced_bytes(payload) {
        Some(bytes) => if valid_utf8(bytes) {
            Some(decode_utf8(bytes))
        } else {
            None
        },
        None => None,
    }
}

/// `alkahest::serialize_to_vec` with the formula `u64`, into a fresh vector:
/// the vector then holds the eight bytes of `value`, least significant
/// first, and nothing else.
#[verifier::external_body]
fn serialize_u64(value: u64) -> (out: Vec<u8>)
    ensures
        out@ == number_payload(value),
{
    let mut out = Vec::new();
    alkahest::serialize_to_vec::<u64, u64>(value, &mut out);
    out
}

/// `alkahest::deserialize` with the formula `u64`: reads the last eight
/// bytes of `input`, least significant first, and fails when `input` is
/// shorter than that. Bytes before the last eight are ignored.
#[verifier::external_body]
fn deserialize_u64(input: &[u8]) -> (r: Result<u64, DeserializeError>)
    ensures
        match r {
            Ok(value) => parse_number(input@) == Some(value),
            Err(_) => parse_number(input@) is None,
        },
{
    alkahest::deserialize::<u64, u64>(input)
}

/// `alkahest::serialize_to_vec` with the formula `String`, into a fresh
/// vector: the vector then holds the text's UTF-8 bytes, followed by the
/// offset at which they end and by their length, each as a little-endian
/// `u32`. Lengths that do not fit in a `u32` are left out: on them the
/// outside code fails a debug assertion.
#[verifier::external_body]
fn serialize_text(value: &String) -> (out: Vec<u8>)
    requires
        encode_utf8(value@).len() <= u32::MAX,
    ensures
        out@ == text_payload(value@),
{
    let mut out = Vec::new();
    alkahest::serialize_to_vec::<String, &String>(value, &mut out);
    out
}

/// `alkahest::deserialize` with the formula `String`: reads the reference
/// in the last eight bytes of `input` (offset of the end of the text, then
/// length), checks that it stays inside what precedes it, and reads the
/// bytes it points at as UTF-8. It fails when `input` is shorter than a
/// reference, when the reference points outside, and when the bytes are not
/// UTF-8.
#[verifier::external_body]
fn deserialize_text(input: &[u8]) -> (r: Result<String, DeserializeError>)
    ensures
        match r {
            Ok(text) => {
                &&& referenced_bytes(input@) is Some
                &&& encode_utf8(text@) == referenced_bytes(input@)->Some_0
            },
            Err(_) => parse_text(input@) is None,
        },
{
    alkahest::deserialize::<String, String>(input)
}

impl TimingPacket {
    /// The payload that carries this packet.
    pub open spec fn payload(self) -> Seq<u8> {
        number_payload(self.sequence_number)
    }

    /// The packet that a payload carries, if it has the shape of one.
    pub open spec fn parse(payload: Seq<u8>) -> Option<TimingPacket> {
        match parse_number(payload) {
            Some(n) => Some(TimingPacket { sequence_number: n }),
            None => None,
        }
    }

    /// Encodes the packet as a payload.
    pub fn encode(&self) -> (out: Vec<u8>)
        ensures
            out@ == self.payload(),
    {
        serialize_u64(self.sequence_number)
    }

    /// Decodes a payload that is to hold a timing packet.
    pub fn decode(payload: &[u8]) -> (r: Result<TimingPacket, WireError>)
        ensures
            r == match TimingPacket::parse(payload@) {
                Some(packet) => Ok::<TimingPacket, WireError>(packet),
                None => Err(WireError::Malformed),
            },
    {
        match deserialize_u64(payload) {
            Ok(n) => Ok(TimingPacket { sequence_number: n }),
            Err(_) => Err(WireError::Malformed),
        }
    }
}

impl SetInputDelay {
    /// The payload that carries this message.
    pub open spec fn payload(self) -> Seq<u8> {
        number_payload(self.input_delay)
    }

    /// The message that a payload carries, if it has the shape of one.
    pub open spec fn parse(payload: Seq<u8>) -> Option<SetInputDelay> {
        match parse_number(payload) {
            Some(n) => Some(SetInputDelay { input_delay: n }),
            None => None,
        }
    }

    /// Encodes the message as a payload.
    pub fn encode(&self) -> (out: Vec<u8>)
        ensures
            out@ == self.payload(),
    {
        serialize_u64(self.input_delay)
    }

    /// Decodes a payload that is to hold the input delay.
    pub fn decode(payload: &[u8]) -> (r: Result<SetInputDelay, WireError>)
        ensures
            r == match SetInputDelay::parse(payload@) {
                Some(message) => Ok::<SetInputDelay, WireError>(message),
                None => Err(WireError::Malformed),
            },
    {
        match deserialize_u64(payload) {
            Ok(n) => Ok(SetInputDelay { input_delay: n }),
            Err(_) => Err(WireError::Malformed),
        }
    }
}

impl Handshake {
    /// Whether the name is short enough for a payload to refer to it: its
    /// UTF-8 form has at most `u32::MAX` bytes.
    pub open spec fn encodable(&self) -> bool {
        encode_utf8(self.my_name@).len() <= u32::MAX
    }

    /// The payload that carries this handshake.
    pub open spec fn payload(&self) -> Seq<u8> {
        text_payload(self.my_name@)
    }

    /// The name in the handshake that a payload carries, if it has the shape
    /// of one.
    pub open spec fn parse(payload: Seq<u8>) -> Option<Seq<char>> {
        parse_text(payload)
    }

    /// The payload of this handshake, or `None` when the name is too long to
    /// be encoded.
    pub fn encode(&self) -> (out: Option<Vec<u8>>)
        ensures
            match out {
                Some(bytes) => self.encodable() && bytes@ == self.payload(),
                None => !self.encodable(),
            },
    {
        let text = self.my_name.as_str().as_bytes();
        if text.len() as u64 <= u32::MAX as u64 {
            Some(serialize_text(&self.my_name))
        } else {
            None
        }
    }

    /// Decodes a payload that is to hold a handshake.
    pub fn decode(payload: &[u8]) -> (r: Result<Handshake, WireError>)
        ensures
            match r {
                Ok(handshake) => Handshake::parse(payload@) == Some(handshake.my_name@),
                Err(e) => e == WireError::Malformed && Handshake::parse(payload@) is None,
            },
    {
        match deserialize_text(payload) {
            Ok(name) => {
                proof {
                    encode_utf8_valid_utf8(name@);
                    encode_utf8_decode_utf8(name@);
                }
                Ok(Handshake { my_name: name })
            },
            Err(_) => Err(WireError::Malformed),
        }
    }
}

/// Encoding a number and reading the payload back gives the number.
pub proof fn lemma_number_round_trip(value: u64)
    ensures
        number_payload(value).len() == 8,
        parse_number(number_payload(value)) == Some(value),
{
    lemma_auto_spec_u64_to_from_le_bytes();
    assert(number_payload(value).skip(0) =~= number_payload(value));
}

/// Encoding a text that is short enough and reading the payload back gives
/// the text.
pub proof fn lemma_text_round_trip(text: Seq<char>)
    requires
        encode_utf8(text).len() <= u32::MAX,
    ensures
        parse_text(text_payload(text)) == Some(text),
{
    lemma_auto_spec_u32_to_from_le_bytes();
    let bytes = encode_utf8(text);
    let n = bytes.len() as u32;
    let payload = text_payload(text);
    let body = payload.len() - 8;
    assert(body == bytes.len());
    assert(payload.subrange(body, body + 4) =~= spec_u32_to_le_bytes(n));
    assert(payload.subrange(body + 4, body + 8) =~= spec_u32_to_le_bytes(n));
    assert(payload.subrange(0, body) =~= bytes);
    encode_utf8_valid_utf8(text);
    encode_utf8_decode_utf8(text);
}

/// Every timing packet survives encoding and decoding.
pub proof fn lemma_timing_packet_round_trip(packet: TimingPacket)
    ensures
        TimingPacket::parse(packet.payload()) == Some(packet),
{
    lemma_number_round_trip(packet.sequence_number);
}

/// Every delay assignment survives encoding and decoding.
pub proof fn lemma_set_input_delay_round_trip(message: SetInputDelay)
    ensures
        SetInputDelay::parse(message.payload()) == Some(message),
{
    lemma_number_round_trip(message.input_delay);
}

/// Every handshake whose name can be encoded survives encoding and decoding.
pub proof fn lemma_handshake_round_trip(handshake: Handshake)
    requires
        handshake.encodable(),
    ensures
        Handshake::parse(handshake.payload()) == Some(handshake.my_name@),
{
    lemma_text_round_trip(handshake.my_name@);
}

/// A timing packet that is encoded and framed is read back as it was,
/// whatever follows its frame in the buffer.
pub proof fn lemma_timing_packet_survives_the_wire(packet: TimingPacket, rest: Seq<u8>)
    ensures
        frame_missing(frame(packet.payload()) + rest) == 0,
        TimingPacket::parse(first_payload(frame(packet.payload()) + rest)) == Some(packet),
{
    lemma_timing_packet_round_trip(packet);
    lemma_number_round_trip(packet.sequence_number);
    lemma_frame_round_trip(packet.payload(), rest);
}

/// A delay assignment that is encoded and framed is read back as it was,
/// whatever follows its frame in the buffer.
pub proof fn lemma_set_input_delay_survives_the_wire(message: SetInputDelay, rest: Seq<u8>)
    ensures
        frame_missing(frame(message.payload()) + rest) == 0,
        SetInputDelay::parse(first_payload(frame(message.payload()) + rest)) == Some(message),
{
    lemma_set_input_delay_round_trip(message);
    lemma_number_round_trip(message.input_delay);
    lemma_frame_round_trip(message.payload(), rest);
}

/// A handshake that is encoded and framed is read back with the name it
/// had, whatever follows its frame in the buffer, as long as the payload is
/// short enough for the frame's prefix to hold its length.
pub proof fn lemma_handshake_survives_the_wire(handshake: Handshake, rest: Seq<u8>)
    requires
        handshake.payload().len() <= u32::MAX,
    ensures
        frame_missing(frame(handshake.payload()) + rest) == 0,
        Handshake::parse(first_payload(frame(handshake.payload()) + rest)) == Some(
            handshake.my_name@,
        ),
{
    lemma_auto_spec_u32_to_from_le_bytes();
    lemma_handshake_round_trip(handshake);
    lemma_frame_round_trip(handshake.payload(), rest);
}

} // verus!
