//! The framing protocol and the bit-packing transform shared by the encoder
//! and the decoder.
//!
//! One logical byte of the framed stream maps to four consecutive carrier
//! bytes: the low two bits of each carrier byte hold one two-bit group of the
//! logical byte, most significant group first. The framed stream is the
//! payload between the fixed start and end markers.

use vstd::prelude::*;

use crate::errors::StegError;

verus! {

/// First byte of the start marker.
pub const MAGIC_START_0: u8 = 171;

/// Second byte of the start marker.
pub const MAGIC_START_1: u8 = 176;

/// First byte of the end marker.
pub const MAGIC_END_0: u8 = 186;

/// Second byte of the end marker.
pub const MAGIC_END_1: u8 = 187;

/// The `i`-th two-bit group of `v`, most significant first, as a value in
/// `0..4`.
pub open spec fn two_bit_group(v: u8, i: int) -> u8 {
    if i == 0 {
        (v >> 6) & 3
    } else if i == 1 {
        (v >> 4) & 3
    } else if i == 2 {
        (v >> 2) & 3
    } else {
        v & 3
    }
}

/// Carrier byte `c` with its low two bits replaced by the `i`-th two-bit
/// group of the logical byte `v`. The high six bits of `c` are untouched.
pub open spec fn pack_bits(v: u8, c: u8, i: int) -> u8 {
    (c & 0xFC) | two_bit_group(v, i)
}

/// The logical byte reassembled from the low two bits of four consecutive
/// carrier bytes, most significant pair first.
pub open spec fn unpack_bits(c0: u8, c1: u8, c2: u8, c3: u8) -> u8 {
    (((c0 & 3) << 6) | ((c1 & 3) << 4) | ((c2 & 3) << 2)) | (c3 & 3)
}

/// The framed logical stream: start marker, payload, end marker.
pub open spec fn framed(payload: Seq<u8>) -> Seq<u8> {
    seq![MAGIC_START_0, MAGIC_START_1] + payload + seq![MAGIC_END_0, MAGIC_END_1]
}

/// The carrier after the framed stream for `payload` has been written into
/// it: byte `j` of the touched prefix carries the `(j % 4)`-th two-bit group
/// of logical byte `j / 4`; everything past the prefix is unchanged.
pub open spec fn encoded(carrier: Seq<u8>, payload: Seq<u8>) -> Seq<u8> {
    Seq::new(
        carrier.len(),
        |j: int|
            if j < (payload.len() + 4) * 4 {
                pack_bits(framed(payload)[j / 4], carrier[j], j % 4)
            } else {
                carrier[j]
            },
    )
}

/// The logical byte stream read back out of a carrier: one byte per full
/// group of four carrier bytes; trailing carrier bytes short of a full group
/// carry nothing.
pub open spec fn logical_bytes(carrier: Seq<u8>) -> Seq<u8> {
    Seq::new(
        carrier.len() / 4,
        |k: int| unpack_bits(carrier[4 * k], carrier[4 * k + 1], carrier[4 * k + 2], carrier[4 * k + 3]),
    )
}

/// The decoder's scan over the logical bytes that follow the start marker.
/// `ends_seen` counts the first-end-marker bytes swallowed so far. A byte
/// equal to the first end-marker byte is accumulated, never emitted; the
/// first byte equal to the second end-marker byte terminates the scan, which
/// succeeds exactly when one first-end-marker byte preceded it; every other
/// byte is emitted as payload. Running out of bytes is a bounds failure.
pub open spec fn scan_after_start(stream: Seq<u8>, ends_seen: nat) -> Result<Seq<u8>, StegError>
    decreases stream.len(),
{
    if stream.len() == 0 {
        Err(StegError::Bounds)
    } else if stream[0] == MAGIC_END_0 {
        scan_after_start(stream.drop_first(), ends_seen + 1)
    } else if stream[0] == MAGIC_END_1 {
        if ends_seen == 1 {
            Ok(Seq::empty())
        } else {
            Err(StegError::EndMarker)
        }
    } else {
        match scan_after_start(stream.drop_first(), ends_seen) {
            Ok(rest) => Ok(seq![stream[0]] + rest),
            Err(e) => Err(e),
        }
    }
}

/// `r` with `prefix` prepended to its payload on success, `r` itself on
/// failure.
pub open spec fn prepend_payload(prefix: Seq<u8>, r: Result<Seq<u8>, StegError>) -> Result<
    Seq<u8>,
    StegError,
> {
    match r {
        Ok(rest) => Ok(prefix + rest),
        Err(e) => Err(e),
    }
}

/// What decoding a carrier yields: a capacity failure below the 16-byte
/// minimum, a start-marker failure when the first two logical bytes are not
/// the start marker, and otherwise the scan over the remaining logical bytes.
pub open spec fn decode_spec(carrier: Seq<u8>) -> Result<Seq<u8>, StegError> {
    if carrier.len() < 16 {
        Err(StegError::Capacity)
    } else if logical_bytes(carrier)[0] != MAGIC_START_0 || logical_bytes(carrier)[1]
        != MAGIC_START_1 {
        Err(StegError::StartMarker)
    } else {
        scan_after_start(logical_bytes(carrier).skip(2), 0)
    }
}

/// Unpacking four carrier bytes that were packed from `v` gives back `v`,
/// whatever the carrier bytes held before.
pub proof fn lemma_pack_unpack(v: u8, c0: u8, c1: u8, c2: u8, c3: u8)
    ensures
        unpack_bits(pack_bits(v, c0, 0), pack_bits(v, c1, 1), pack_bits(v, c2, 2), pack_bits(v, c3, 3)) == v,
{
    assert((((((c0 & 0xFC) | ((v >> 6) & 3)) & 3) << 6) | ((((c1 & 0xFC) | ((v >> 4) & 3)) & 3)
        << 4) | ((((c2 & 0xFC) | ((v >> 2) & 3)) & 3) << 2) | (((c3 & 0xFC) | (v & 3)) & 3))
        == v) by (bit_vector);
}

/// Packing never changes the high six bits of the carrier byte.
pub proof fn lemma_pack_preserves_high_bits(v: u8, c: u8, i: int)
    ensures
        pack_bits(v, c, i) & 0xFC == c & 0xFC,
{
    let g = two_bit_group(v, i);
    assert(g <= 3) by {
        let x = v;
        assert(((x >> 6) & 3) <= 3 && ((x >> 4) & 3) <= 3 && ((x >> 2) & 3) <= 3 && (x & 3)
            <= 3) by (bit_vector);
    }
    assert(((c & 0xFC) | g) & 0xFC == c & 0xFC) by (bit_vector)
        requires
            g <= 3,
    ;
}

/// Reads one logical byte out of four consecutive carrier bytes.
pub fn unpack_group(c0: u8, c1: u8, c2: u8, c3: u8) -> (r: u8)
    ensures
        r == unpack_bits(c0, c1, c2, c3),
{
    (((c0 & 3) << 6u8) | ((c1 & 3) << 4u8) | ((c2 & 3) << 2u8)) | (c3 & 3)
}

} // verus!
