//! Decoder for GLB game-asset archives: the stream cipher that hides the
//! directory and selected payloads, the directory parser, and the decoders
//! that turn one entry's bytes into text, a palette, a sprite or a tile map.

pub mod bytes;
pub mod canvas;
pub mod error;
pub mod extracted;
pub mod file;
pub mod glb_archive;
pub mod utils;

pub use error::GlbError;
pub use extracted::{CollectionMode, EntryFailure, EntryKind, Extracted};
pub use file::{ArgbPixel, File, Palette, Pic, Text, TileMap, Tiles, UntypedFile};
pub use glb_archive::{FatEntry, FileAllocationTable, Flag, GlbArchive, ENCRYPTION_KEY};

use utils::{decrypt_byte, decrypted, le_u32, lemma_cursor_step};
use vstd::prelude::*;

verus! {

/// Position in the key at which the cipher starts a directory chunk.
pub const CHUNK_CURSOR: usize = 1;

/// Decrypts the first 28 bytes of `encrypted_bytes` as one directory chunk,
/// with the key cursor starting at position 1.
pub fn decrypt(encrypted_bytes: &[u8], encryption_key: &[u8]) -> (plain: [u8; 28])
    requires
        encrypted_bytes@.len() >= 28,
        encryption_key@.len() >= 2,
    ensures
        plain@ == decrypted(encrypted_bytes@.subrange(0, 28), encryption_key@, 1),
{
    let ghost chunk: Seq<u8> = encrypted_bytes@.subrange(0, 28);
    let mut key_index: usize = CHUNK_CURSOR;
    let mut previous_byte_read: u8 = encryption_key[key_index];
    let mut decrypted_bytes: [u8; 28] = [0; 28];
    let mut ix: usize = 0;
    proof {
        vstd::arithmetic::div_mod::lemma_small_mod(1, encryption_key@.len());
    }
    while ix < 28
        invariant
            encryption_key@.len() >= 2,
            encrypted_bytes@.len() >= 28,
            chunk == encrypted_bytes@.subrange(0, 28),
            ix <= 28,
            key_index as int == (1 + ix) % (encryption_key@.len() as int),
            previous_byte_read == utils::previous_byte(chunk, encryption_key@, 1, ix as int),
            forall|j: int|
                0 <= j < ix ==> decrypted_bytes@[j] == utils::plain_byte(
                    chunk,
                    encryption_key@,
                    1,
                    j,
                ),
        decreases 28 - ix,
    {
        let plain: u8 = decrypt_byte(
            encrypted_bytes[ix],
            encryption_key[key_index],
            previous_byte_read,
        );
        previous_byte_read = encrypted_bytes[ix];
        decrypted_bytes[ix] = plain;
        proof {
            lemma_cursor_step(1, ix as int, encryption_key@.len() as int);
        }
        key_index = key_index + 1;
        if key_index == encryption_key.len() {
            key_index = 0;
        }
        ix = ix + 1;
    }
    decrypted_bytes
}

/// Interprets four bytes as a little-endian unsigned 32-bit integer.
pub fn as_u32_le(array: &[u8; 4]) -> (value: u32)
    ensures
        value as int == le_u32(array@, 0),
{
    array[0] as u32 + array[1] as u32 * 256 + array[2] as u32 * 65536 + array[3] as u32
        * 16777216
}

} // verus!
