//! Properties that relate the encoder and the decoder.

use vstd::prelude::*;

use crate::errors::StegError;
use crate::framing::decode_spec;
use crate::framing::encoded;
use crate::framing::framed;
use crate::framing::lemma_pack_unpack;
use crate::framing::logical_bytes;
use crate::framing::pack_bits;
use crate::framing::scan_after_start;
use crate::framing::MAGIC_END_0;
use crate::framing::MAGIC_END_1;
use crate::framing::MAGIC_START_0;
use crate::framing::MAGIC_START_1;

verus! {

/// The logical bytes read back out of an encoded carrier start with the
/// framed stream that was written into it.
proof fn lemma_encoded_logical(carrier: Seq<u8>, payload: Seq<u8>)
    requires
        (payload.len() + 4) * 4 <= carrier.len(),
    ensures
        logical_bytes(encoded(carrier, payload)).len() == carrier.len() / 4,
        payload.len() + 4 <= carrier.len() / 4,
        forall|k: int|
            0 <= k < payload.len() + 4 ==> logical_bytes(encoded(carrier, payload))[k] == framed(
                payload,
            )[k],
{
    let enc = encoded(carrier, payload);
    assert(enc.len() == carrier.len());
    assert forall|k: int| 0 <= k < payload.len() + 4 implies logical_bytes(enc)[k] == framed(
        payload,
    )[k] by {
        assert(4 * k + 4 <= carrier.len());
        assert((4 * k) / 4 == k && (4 * k + 1) / 4 == k && (4 * k + 2) / 4 == k && (4 * k + 3) / 4
            == k);
        assert((4 * k) % 4 == 0 && (4 * k + 1) % 4 == 1 && (4 * k + 2) % 4 == 2 && (4 * k + 3) % 4
            == 3);
        let v = framed(payload)[k];
        assert(enc[4 * k] == pack_bits(v, carrier[4 * k], 0));
        assert(enc[4 * k + 1] == pack_bits(v, carrier[4 * k + 1], 1));
        assert(enc[4 * k + 2] == pack_bits(v, carrier[4 * k + 2], 2));
        assert(enc[4 * k + 3] == pack_bits(v, carrier[4 * k + 3], 3));
        lemma_pack_unpack(v, carrier[4 * k], carrier[4 * k + 1], carrier[4 * k + 2], carrier[4 * k
            + 3]);
    }
}

/// A payload free of terminator bytes, followed by the end marker and
/// anything at all, scans back to exactly that payload.
proof fn lemma_scan_of_clean_payload(payload: Seq<u8>, tail: Seq<u8>)
    requires
        forall|i: int|
            0 <= i < payload.len() ==> payload[i] != MAGIC_END_0 && payload[i] != MAGIC_END_1,
    ensures
        scan_after_start(payload + seq![MAGIC_END_0, MAGIC_END_1] + tail, 0) == Ok::<
            Seq<u8>,
            StegError,
        >(payload),
    decreases payload.len(),
{
    let stream = payload + seq![MAGIC_END_0, MAGIC_END_1] + tail;
    if payload.len() == 0 {
        assert(stream =~= seq![MAGIC_END_0, MAGIC_END_1] + tail);
        assert(stream[0] == MAGIC_END_0);
        assert(stream.drop_first() =~= seq![MAGIC_END_1] + tail);
        assert(stream.drop_first()[0] == MAGIC_END_1);
        assert(scan_after_start(stream.drop_first(), 1) == Ok::<Seq<u8>, StegError>(Seq::empty()));
        assert(scan_after_start(stream, 0) == scan_after_start(stream.drop_first(), 1));
        assert(payload =~= Seq::<u8>::empty());
    } else {
        assert(stream[0] == payload[0]);
        assert(stream.drop_first() =~= payload.drop_first() + seq![MAGIC_END_0, MAGIC_END_1]
            + tail);
        lemma_scan_of_clean_payload(payload.drop_first(), tail);
        assert(scan_after_start(stream, 0) == Ok::<Seq<u8>, StegError>(seq![payload[0]]
            + payload.drop_first()));
        assert(seq![payload[0]] + payload.drop_first() =~= payload);
    }
}

/// Whatever the scan emits as payload contains no terminator byte: bytes
/// equal to either end-marker byte are swallowed or stop the scan.
proof fn lemma_scan_output_clean(stream: Seq<u8>, ends_seen: nat)
    ensures
        match scan_after_start(stream, ends_seen) {
            Ok(q) => forall|i: int|
                0 <= i < q.len() ==> q[i] != MAGIC_END_0 && q[i] != MAGIC_END_1,
            Err(_) => true,
        },
    decreases stream.len(),
{
    if stream.len() == 0 {
    } else if stream[0] == MAGIC_END_0 {
        lemma_scan_output_clean(stream.drop_first(), ends_seen + 1);
    } else if stream[0] == MAGIC_END_1 {
    } else {
        lemma_scan_output_clean(stream.drop_first(), ends_seen);
        match scan_after_start(stream.drop_first(), ends_seen) {
            Ok(rest) => {
                assert forall|i: int| 0 <= i < (seq![stream[0]] + rest).len() implies (
                seq![stream[0]] + rest)[i] != MAGIC_END_0 && (seq![stream[0]] + rest)[i]
                    != MAGIC_END_1 by {
                    if i > 0 {
                        assert((seq![stream[0]] + rest)[i] == rest[i - 1]);
                    }
                }
            },
            Err(_) => {},
        }
    }
}

/// Round trip: a payload free of the two terminator byte values, hidden in
/// any carrier with room for it, decodes back to exactly that payload,
/// whatever the carrier's high six bits held. A payload holding a
/// terminator byte value is excluded here; see `lemma_marker_collision`.
#[verifier::rlimit(50)]
pub proof fn lemma_round_trip(carrier: Seq<u8>, payload: Seq<u8>)
    requires
        (payload.len() + 4) * 4 <= carrier.len(),
        forall|i: int|
            0 <= i < payload.len() ==> payload[i] != MAGIC_END_0 && payload[i] != MAGIC_END_1,
    ensures
        decode_spec(encoded(carrier, payload)) == Ok::<Seq<u8>, StegError>(payload),
{
    let enc = encoded(carrier, payload);
    let stream = logical_bytes(enc);
    lemma_encoded_logical(carrier, payload);
    assert(enc.len() >= 16);
    assert(framed(payload)[0] == MAGIC_START_0 && framed(payload)[1] == MAGIC_START_1);
    let tail = stream.skip(payload.len() + 4 as int);
    assert forall|j: int| 0 <= j < stream.len() - 2 implies stream.skip(2)[j] == (payload
        + seq![MAGIC_END_0, MAGIC_END_1] + tail)[j] by {
        if j < payload.len() {
            assert(framed(payload)[j + 2] == payload[j]);
        } else if j == payload.len() {
            assert(framed(payload)[j + 2] == MAGIC_END_0);
        } else if j == payload.len() + 1 {
            assert(framed(payload)[j + 2] == MAGIC_END_1);
        } else {
            assert((payload + seq![MAGIC_END_0, MAGIC_END_1] + tail)[j] == tail[j - payload.len()
                - 2]);
        }
    }
    assert(stream.skip(2) =~= payload + seq![MAGIC_END_0, MAGIC_END_1] + tail);
    lemma_scan_of_clean_payload(payload, tail);
}

/// Known edge case of the framing format: a payload that itself contains a
/// terminator byte value never survives the round trip, because the decoder
/// misreads that byte as terminator material and there is no escaping
/// mechanism.
pub proof fn lemma_marker_collision(carrier: Seq<u8>, payload: Seq<u8>)
    requires
        (payload.len() + 4) * 4 <= carrier.len(),
        exists|i: int|
            0 <= i < payload.len() && (payload[i] == MAGIC_END_0 || payload[i] == MAGIC_END_1),
    ensures
        decode_spec(encoded(carrier, payload)) != Ok::<Seq<u8>, StegError>(payload),
{
    let enc = encoded(carrier, payload);
    match decode_spec(enc) {
        Ok(q) => {
            lemma_scan_output_clean(logical_bytes(enc).skip(2), 0);
            let i = choose|i: int|
                0 <= i < payload.len() && (payload[i] == MAGIC_END_0 || payload[i]
                    == MAGIC_END_1);
            assert(q[i] != MAGIC_END_0 && q[i] != MAGIC_END_1 || q.len() != payload.len());
            assert(q != payload);
        },
        Err(_) => {},
    }
}

} // verus!
