//! Frame integrity checking and in-place decryption.
//!
//! A frame is an 8-byte header followed by a body and, for some protocol
//! codes, a trailing 16-bit checksum. Validation compares the declared body
//! length with the actual one and, when the protocol code asks for it, the
//! trailing checksum with the checksum of all preceding bytes. The body is
//! obfuscated by XOR with a fixed repeating 7-byte mask; applying the mask
//! twice restores the original bytes.

use crate::ProxyError;
use vstd::prelude::*;

verus! {

/// Number of header bytes preceding the frame body.
pub const HEADER_SIZE: usize = 8;

/// CRC-16/MODBUS checksum of a byte sequence.
///
/// The checksum is a function of the bytes alone; its definition is left to
/// the checksum library (see [`crc16_of`]).
pub uninterp spec fn crc16_modbus(bytes: Seq<u8>) -> u16;

/// Relies on `crc16::State::<MODBUS>::calculate`: the CRC-16/MODBUS checksum
/// of the given bytes, a deterministic function of the bytes alone.
#[verifier::external_body]
pub(crate) fn crc16_of(data: &[u8]) -> (r: u16)
    ensures
        r == crc16_modbus(data@),
{
    crc16::State::<crc16::MODBUS>::calculate(data)
}

/// Byte `i` of the repeating obfuscation mask, for `0 <= i < 7`.
pub open spec fn mask_byte(i: int) -> u8 {
    if i == 0 {
        0x47
    } else if i == 1 {
        0x72
    } else if i == 2 {
        0x6f
    } else if i == 3 {
        0x77
    } else if i == 4 {
        0x61
    } else if i == 5 {
        0x74
    } else {
        0x74
    }
}

/// The buffer with every byte from offset 8 onward XOR-ed with the repeating
/// mask; the header bytes are untouched.
pub open spec fn decrypted(data: Seq<u8>) -> Seq<u8> {
    Seq::new(
        data.len(),
        |i: int|
            if i < 8 {
                data[i]
            } else {
                data[i] ^ mask_byte((i - 8) % 7)
            },
    )
}

/// Decryption is its own inverse: applying it twice restores any buffer.
pub proof fn lemma_decrypt_self_inverse(data: Seq<u8>)
    ensures
        decrypted(decrypted(data)) == data,
{
    let twice = decrypted(decrypted(data));
    assert forall|i: int| 0 <= i < data.len() implies twice[i] == data[i] by {
        if i >= 8 {
            let b = data[i];
            let m = mask_byte((i - 8) % 7);
            assert((b ^ m) ^ m == b) by (bit_vector);
        }
    }
    assert(twice =~= data);
}

/// Big-endian 16-bit body length declared in the header.
pub open spec fn declared_body_len(data: Seq<u8>) -> int
    recommends
        data.len() >= 6,
{
    data[4] * 256 + data[5]
}

/// The declared body length matches the byte count after the header.
pub open spec fn length_ok(data: Seq<u8>) -> bool
    recommends
        data.len() >= 8,
{
    declared_body_len(data) == data.len() - HEADER_SIZE
}

/// Protocol codes 0x05 and 0x06 carry a trailing checksum.
pub open spec fn needs_checksum(data: Seq<u8>) -> bool
    recommends
        data.len() >= 4,
{
    data[3] == 0x05 || data[3] == 0x06
}

/// Big-endian 16-bit checksum stored in the last two bytes.
pub open spec fn stored_checksum(data: Seq<u8>) -> int
    recommends
        data.len() >= 2,
{
    data[data.len() - 2] * 256 + data[data.len() - 1]
}

/// The stored checksum equals the checksum of all bytes preceding it.
pub open spec fn checksum_ok(data: Seq<u8>) -> bool
    recommends
        data.len() >= 2,
{
    stored_checksum(data) == crc16_modbus(data.subrange(0, data.len() - 2))
}

/// A frame is valid when its declared length matches and, whenever the
/// protocol code requires one, its checksum matches.
pub open spec fn frame_valid(data: Seq<u8>) -> bool
    recommends
        data.len() >= 8,
{
    &&& length_ok(data)
    &&& needs_checksum(data) ==> checksum_ok(data)
}

/// Checks frame integrity without modifying the buffer.
///
/// A length mismatch and a checksum mismatch are reported as distinct
/// errors; the length is checked first.
pub fn validate(data: &[u8]) -> (r: Result<(), ProxyError>)
    requires
        data@.len() >= 8,
    ensures
        r is Ok <==> frame_valid(data@),
        !length_ok(data@) ==> r == Err::<(), ProxyError>(ProxyError::LengthMismatch),
        length_ok(data@) && needs_checksum(data@) && !checksum_ok(data@) ==> r == Err::<
            (),
            ProxyError,
        >(ProxyError::ChecksumMismatch),
{
    let size = data.len();
    let declared = (data[4] as usize) * 256 + (data[5] as usize);
    let actual = size - HEADER_SIZE;
    if declared != actual {
        return Err(ProxyError::LengthMismatch);
    }
    let protocol = data[3];
    if protocol == 0x05 || protocol == 0x06 {
        let stored = (data[size - 2] as u16) * 256 + (data[size - 1] as u16);
        let computed = crc16_of(&data[0..size - 2]);
        if stored != computed {
            return Err(ProxyError::ChecksumMismatch);
        }
    }
    Ok(())
}

/// Byte `i` of the repeating obfuscation mask.
fn mask_byte_at(i: usize) -> (b: u8)
    requires
        i < 7,
    ensures
        b == mask_byte(i as int),
{
    match i {
        0 => 0x47,
        1 => 0x72,
        2 => 0x6f,
        3 => 0x77,
        4 => 0x61,
        5 => 0x74,
        _ => 0x74,
    }
}

/// XORs every byte from offset 8 onward with the repeating mask.
///
/// The operation is its own inverse (see [`lemma_decrypt_self_inverse`]),
/// so the same call also re-encrypts a decrypted buffer.
pub fn decrypt_in_place(data: &mut Vec<u8>)
    ensures
        final(data)@ == decrypted(old(data)@),
{
    let len = data.len();
    let mut i: usize = HEADER_SIZE;
    while i < len
        invariant
            8 <= i <= len || (len < 8 && i == 8),
            len == data@.len(),
            len == old(data)@.len(),
            forall|k: int| 0 <= k < i && k < len ==> data@[k] == decrypted(old(data)@)[k],
            forall|k: int| i <= k < len ==> data@[k] == old(data)@[k],
        decreases len - i,
    {
        let m = mask_byte_at((i - HEADER_SIZE) % 7);
        let b = data[i];
        data.set(i, b ^ m);
        i = i + 1;
    }
    assert(data@ =~= decrypted(old(data)@));
}

} // verus!
