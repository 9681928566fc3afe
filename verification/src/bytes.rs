//! An owned byte buffer with the reads that the decoders need.

use crate::utils::{decrypted, decrypt, initial_cursor, le_u16, le_u32, utf8_text};
use vstd::prelude::*;
use vstd::string::StringSliceAdditionalSpecFns;
use vstd::utf8::{decode_utf8, encode_utf8_decode_utf8, valid_utf8};

verus! {

/// The bytes of one archive region or payload.
#[derive(Debug, PartialEq, Clone)]
pub struct Bytes {
    bytes: Vec<u8>,
}

impl View for Bytes {
    type V = Seq<u8>;

    closed spec fn view(&self) -> Seq<u8> {
        self.bytes@
    }
}

impl Bytes {
    /// Wraps a vector of bytes.
    pub fn from(bytes: Vec<u8>) -> (wrapped: Bytes)
        ensures
            wrapped@ == bytes@,
    {
        Bytes { bytes }
    }

    /// Number of bytes held.
    pub fn len(&self) -> (n: usize)
        ensures
            n == self@.len(),
    {
        self.bytes.len()
    }

    /// The byte at position `ix`.
    pub fn get(&self, ix: usize) -> (byte: u8)
        requires
            ix < self@.len(),
        ensures
            byte == self@[ix as int],
    {
        self.bytes[ix]
    }

    /// All the bytes, as a slice.
    pub fn as_slice(&self) -> (slice: &[u8])
        ensures
            slice@ == self@,
    {
        self.bytes.as_slice()
    }

    /// Reads an unsigned 32-bit little-endian integer at `offset` and
    /// advances `offset` by 4.
    pub fn read_u32(&self, offset: &mut usize) -> (value: u32)
        requires
            *old(offset) + 4 <= self@.len(),
        ensures
            value as int == le_u32(self@, *old(offset) as int),
            *final(offset) == *old(offset) + 4,
    {
        let at: usize = *offset;
        assert(self.bytes@.len() == self.bytes.len());
        let value: u32 = self.bytes[at] as u32 + self.bytes[at + 1] as u32 * 256 + self.bytes[at
            + 2] as u32 * 65536 + self.bytes[at + 3] as u32 * 16777216;
        *offset = at + 4;
        value
    }

    /// Reads an unsigned 16-bit little-endian integer at `offset` and
    /// advances `offset` by 2.
    pub fn read_u16(&self, offset: &mut usize) -> (value: u16)
        requires
            *old(offset) + 2 <= self@.len(),
        ensures
            value as int == le_u16(self@, *old(offset) as int),
            *final(offset) == *old(offset) + 2,
    {
        let at: usize = *offset;
        assert(self.bytes@.len() == self.bytes.len());
        let value: u16 = self.bytes[at] as u16 + self.bytes[at + 1] as u16 * 256;
        *offset = at + 2;
        value
    }

    /// The bytes as text, where they are valid UTF-8.
    pub fn as_text(&self) -> (text: Option<&str>)
        ensures
            text is Some <==> valid_utf8(self@),
            text matches Some(s) ==> s@ == decode_utf8(self@),
    {
        let text: Option<&str> = utf8_text(self.bytes.as_slice());
        proof {
            if let Some(s) = text {
                encode_utf8_decode_utf8(s@);
            }
        }
        text
    }

    /// Decrypts the buffer in place as one independent unit of the cipher.
    pub fn decrypt(&mut self, encryption_key: &[u8])
        requires
            encryption_key@.len() > 0,
        ensures
            final(self)@ == decrypted(
                old(self)@,
                encryption_key@,
                initial_cursor(encryption_key@.len() as int),
            ),
    {
        let plain: Vec<u8> = decrypt(self.bytes.as_slice(), encryption_key);
        self.bytes = plain;
    }
}

} // verus!
