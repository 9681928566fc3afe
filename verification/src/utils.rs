//! The stream cipher and little-endian integer reading that every other
//! module builds on.

use vstd::prelude::*;
use vstd::string::StringSliceAdditionalSpecFns;
use vstd::utf8::valid_utf8;

verus! {

/// Position in the key at which the cipher starts each independent unit.
pub open spec fn initial_cursor(key_len: int) -> int {
    25int % key_len
}

/// The value subtracted as "previous byte" at position `i`: the key byte
/// under the starting cursor for the first position, and afterwards the
/// ciphertext byte just consumed.
pub open spec fn previous_byte(cipher: Seq<u8>, key: Seq<u8>, start: int, i: int) -> u8 {
    if i == 0 {
        key[start]
    } else {
        cipher[i - 1]
    }
}

/// Plaintext byte at position `i` of a unit whose key cursor starts at `start`.
pub open spec fn plain_byte(cipher: Seq<u8>, key: Seq<u8>, start: int, i: int) -> u8 {
    ((cipher[i] - key[(start + i) % (key.len() as int)] - previous_byte(cipher, key, start, i))
        % 256) as u8
}

/// Plaintext of one independent unit: same length as the ciphertext.
pub open spec fn decrypted(cipher: Seq<u8>, key: Seq<u8>, start: int) -> Seq<u8> {
    Seq::new(cipher.len(), |i: int| plain_byte(cipher, key, start, i))
}

/// Value of the four bytes of `s` that begin at `at`, least significant first.
pub open spec fn le_u32(s: Seq<u8>, at: int) -> int {
    s[at] + 256 * s[at + 1] + 65536 * s[at + 2] + 16777216 * s[at + 3]
}

/// Value of the two bytes of `s` that begin at `at`, least significant first.
pub open spec fn le_u16(s: Seq<u8>, at: int) -> int {
    s[at] + 256 * s[at + 1]
}

/// One cipher step: the ciphertext byte less the key byte and the previous
/// byte, wrapped into eight bits.
pub fn decrypt_byte(cipher_byte: u8, key_byte: u8, previous: u8) -> (plain: u8)
    ensures
        plain as int == (cipher_byte - key_byte - previous) % 256,
{
    let wide: i32 = cipher_byte as i32 - key_byte as i32 - previous as i32;
    let wrapped: i32 = (wide + 512) % 256;
    wrapped as u8
}

/// Interprets the first four bytes of `array` as a little-endian unsigned
/// 32-bit integer.
pub fn as_u32_le(array: &[u8]) -> (value: u32)
    requires
        array@.len() >= 4,
    ensures
        value as int == le_u32(array@, 0),
{
    array[0] as u32 + array[1] as u32 * 256 + array[2] as u32 * 65536 + array[3] as u32
        * 16777216
}

/// Decrypts `encrypted_bytes` as one independent unit of the cipher.
pub fn decrypt(encrypted_bytes: &[u8], encryption_key: &[u8]) -> (plain: Vec<u8>)
    requires
        encryption_key@.len() > 0,
    ensures
        plain@ == decrypted(
            encrypted_bytes@,
            encryption_key@,
            initial_cursor(encryption_key@.len() as int),
        ),
{
    let ghost start: int = initial_cursor(encryption_key@.len() as int);
    let mut key_index: usize = 25 % encryption_key.len();
    let mut previous_byte_read: u8 = encryption_key[key_index];
    let mut decrypted_bytes: Vec<u8> = Vec::with_capacity(encrypted_bytes.len());
    let mut ix: usize = 0;
    proof {
        vstd::arithmetic::div_mod::lemma_mod_twice(25, encryption_key@.len() as int);
    }
    while ix < encrypted_bytes.len()
        invariant
            encryption_key@.len() > 0,
            start == initial_cursor(encryption_key@.len() as int),
            ix <= encrypted_bytes@.len(),
            key_index as int == (start + ix) % (encryption_key@.len() as int),
            previous_byte_read == previous_byte(encrypted_bytes@, encryption_key@, start, ix as int),
            decrypted_bytes@.len() == ix,
            forall|j: int|
                0 <= j < ix ==> decrypted_bytes@[j] == plain_byte(
                    encrypted_bytes@,
                    encryption_key@,
                    start,
                    j,
                ),
        decreases encrypted_bytes@.len() - ix,
    {
        let plain: u8 = decrypt_byte(encrypted_bytes[ix], encryption_key[key_index], previous_byte_read);
        previous_byte_read = encrypted_bytes[ix];
        decrypted_bytes.push(plain);
        proof {
            lemma_cursor_step(start, ix as int, encryption_key@.len() as int);
        }
        key_index = key_index + 1;
        if key_index == encryption_key.len() {
            key_index = 0;
        }
        ix = ix + 1;
    }
    decrypted_bytes
}

/// Reads `bytes` as UTF-8 text through `core::str::from_utf8`: the text is
/// returned exactly when the bytes are valid UTF-8, and its encoding is then
/// the bytes themselves.
#[verifier::external_body]
pub(crate) fn utf8_text(bytes: &[u8]) -> (text: Option<&str>)
    ensures
        text is Some <==> valid_utf8(bytes@),
        text matches Some(s) ==> s.spec_bytes() == bytes@,
{
    match core::str::from_utf8(bytes) {
        Ok(s) => Some(s),
        Err(_) => None,
    }
}

/// Whether `text` ends with `suffix`, by `str::ends_with`: the characters
/// of `suffix` are the last characters of `text`.
#[verifier::external_body]
pub(crate) fn str_ends_with(text: &str, suffix: &str) -> (found: bool)
    ensures
        found == suffix@.is_suffix_of(text@),
{
    text.ends_with(suffix)
}

/// Whether `text` starts with `prefix`, by `str::starts_with`: the
/// characters of `prefix` are the first characters of `text`.
#[verifier::external_body]
pub(crate) fn str_starts_with(text: &str, prefix: &str) -> (found: bool)
    ensures
        found == prefix@.is_prefix_of(text@),
{
    text.starts_with(prefix)
}

/// Decrypting keeps the length, and with a key of eight bytes a unit starts
/// at position 1 of the key.
pub proof fn lemma_decrypted_len(cipher: Seq<u8>, key: Seq<u8>, start: int)
    ensures
        decrypted(cipher, key, start).len() == cipher.len(),
        initial_cursor(8) == 1,
{
}

/// Advancing the cursor by one with wrap-around keeps it equal to the
/// position taken modulo the key length.
pub proof fn lemma_cursor_step(start: int, i: int, key_len: int)
    requires
        key_len > 0,
        0 <= start,
        0 <= i,
    ensures
        (start + i + 1) % key_len == if (start + i) % key_len + 1 == key_len {
            0
        } else {
            (start + i) % key_len + 1
        },
{
    let q: int = (start + i) / key_len;
    let r: int = (start + i) % key_len;
    vstd::arithmetic::div_mod::lemma_fundamental_div_mod(start + i, key_len);
    vstd::arithmetic::div_mod::lemma_mod_bound(start + i, key_len);
    if r + 1 == key_len {
        assert(start + i + 1 == (q + 1) * key_len + 0) by (nonlinear_arith)
            requires
                start + i == key_len * q + r,
                r + 1 == key_len,
        ;
        vstd::arithmetic::div_mod::lemma_fundamental_div_mod_converse(
            start + i + 1,
            key_len,
            q + 1,
            0,
        );
    } else {
        assert(start + i + 1 == q * key_len + (r + 1)) by (nonlinear_arith)
            requires
                start + i == key_len * q + r,
        ;
        vstd::arithmetic::div_mod::lemma_fundamental_div_mod_converse(
            start + i + 1,
            key_len,
            q,
            r + 1,
        );
    }
}

} // verus!
