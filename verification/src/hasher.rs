//! A hasher for keys that are already well spread 64-bit numbers: the hash
//! of a key is the key's bytes read as a number, with no mixing.

use crate::bytes::be_u64_value;
use byteorder::{BigEndian, ReadBytesExt};
use std::io::Cursor;
use vstd::prelude::*;

verus! {

/// Takes one write of at least eight bytes and gives their first eight back
/// as the hash.
#[derive(Debug)]
pub struct U64DoNothingHasher {
    value: u64,
    already_written: bool,
}

/// Builds hashers that have taken no write yet.
#[derive(Clone, Copy, Debug, Default)]
pub struct U64DoNothingBuildHasher {}

/// `byteorder::ReadBytesExt::read_u64::<BigEndian>` on a `std::io::Cursor`
/// over `bytes`: the number spelled by the first eight bytes, most
/// significant first; an error (here `None`) when fewer than eight bytes
/// are there.
#[verifier::external_body]
fn read_u64_be(bytes: &[u8]) -> (r: Option<u64>)
    ensures
        bytes@.len() >= 8 ==> r == Some(be_u64_value(bytes@)),
        bytes@.len() < 8 ==> r is None,
{
    Cursor::new(bytes).read_u64::<BigEndian>().ok()
}

impl U64DoNothingHasher {
    /// The hash as it stands: zero before the write, the number written
    /// after it.
    pub closed spec fn value(&self) -> u64 {
        self.value
    }

    /// Whether the one write has been taken.
    pub closed spec fn written(&self) -> bool {
        self.already_written
    }

    /// Whether the one write has been taken.
    pub fn is_written(&self) -> (written: bool)
        ensures
            written == self.written(),
    {
        self.already_written
    }

    /// The hash.
    pub fn finish(&self) -> (hash: u64)
        ensures
            hash == self.value(),
    {
        self.value
    }

    /// Takes the key: the hash becomes the number that the first eight
    /// bytes spell, most significant first. A hasher takes one write, of
    /// eight bytes or more.
    pub fn write(&mut self, bytes: &[u8])
        requires
            !old(self).written(),
            bytes@.len() >= 8,
        ensures
            final(self).written(),
            final(self).value() == be_u64_value(bytes@),
    {
        if let Some(value) = read_u64_be(bytes) {
            self.value = value;
            self.already_written = true;
        }
    }
}

impl U64DoNothingBuildHasher {
    /// A hasher that has taken no write.
    pub fn build_hasher(&self) -> (hasher: U64DoNothingHasher)
        ensures
            !hasher.written(),
            hasher.value() == 0,
    {
        U64DoNothingHasher { value: 0, already_written: false }
    }
}

} // verus!
