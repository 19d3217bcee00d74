//! Recovers a framed payload from the low two bits of a carrier buffer.

use vstd::prelude::*;

use crate::errors::StegError;
use crate::framing::decode_spec;
use crate::framing::logical_bytes;
use crate::framing::prepend_payload;
use crate::framing::scan_after_start;
use crate::framing::unpack_group;
use crate::framing::MAGIC_END_0;
use crate::framing::MAGIC_END_1;
use crate::framing::MAGIC_START_0;
use crate::framing::MAGIC_START_1;

verus! {

/// Scans a carrier buffer from the start and reconstructs the payload hidden
/// in the low two bits of its bytes. The carrier is only read, never
/// mutated.
#[derive(Debug)]
pub struct Decoder {
    source_bytes: Vec<u8>,
}

/// Reads the `k`-th logical byte out of carrier bytes `[4k, 4k + 4)`.
fn read_unit(bytes: &Vec<u8>, k: usize) -> (r: u8)
    requires
        4 * (k as int) + 4 <= bytes.len(),
    ensures
        r == logical_bytes(bytes@)[k as int],
{
    let base: usize = 4 * k;
    unpack_group(bytes[base], bytes[base + 1], bytes[base + 2], bytes[base + 3])
}

impl Decoder {
    /// The carrier buffer being decoded.
    pub closed spec fn carrier(&self) -> Seq<u8> {
        self.source_bytes@
    }

    /// Takes ownership of the carrier buffer to decode.
    pub fn new(source_bytes: Vec<u8>) -> (r: Result<Decoder, StegError>)
        ensures
            r matches Ok(dec) && dec.carrier() == source_bytes@,
    {
        Ok(Decoder { source_bytes })
    }

    /// Scans the carrier and returns the payload found between the start and
    /// end markers, exactly as `decode_spec` describes: a capacity failure
    /// below 16 carrier bytes, a start-marker failure when the first two
    /// logical bytes are wrong, an end-marker failure on a malformed
    /// terminator, a bounds failure when the carrier runs out, and the
    /// payload otherwise. No partial payload is ever returned.
    pub fn decode(&mut self) -> (r: Result<Vec<u8>, StegError>)
        ensures
            final(self).carrier() == old(self).carrier(),
            match r {
                Ok(payload) => decode_spec(old(self).carrier()) == Ok::<Seq<u8>, StegError>(
                    payload@,
                ),
                Err(e) => decode_spec(old(self).carrier()) == Err::<Seq<u8>, StegError>(e),
            },
    {
        if self.source_bytes.len() < 16 {
            return Err(StegError::Capacity);
        }
        let n_units: usize = self.source_bytes.len() / 4;
        let start_0 = read_unit(&self.source_bytes, 0);
        let start_1 = read_unit(&self.source_bytes, 1);
        if start_0 != MAGIC_START_0 || start_1 != MAGIC_START_1 {
            return Err(StegError::StartMarker);
        }
        let mut result: Vec<u8> = Vec::new();
        let mut ends_seen: usize = 0;
        let mut k: usize = 2;
        proof {
            let stream = logical_bytes(old(self).carrier()).skip(2);
            match scan_after_start(stream, 0) {
                Ok(rest) => {
                    assert(Seq::<u8>::empty() + rest =~= rest);
                },
                Err(_) => {},
            }
        }
        while k < n_units
            invariant
                self.source_bytes@ == old(self).carrier(),
                old(self).carrier().len() >= 16,
                n_units == old(self).carrier().len() / 4,
                logical_bytes(old(self).carrier())[0] == MAGIC_START_0,
                logical_bytes(old(self).carrier())[1] == MAGIC_START_1,
                2 <= k <= n_units,
                ends_seen <= k,
                prepend_payload(
                    result@,
                    scan_after_start(
                        logical_bytes(old(self).carrier()).skip(k as int),
                        ends_seen as nat,
                    ),
                ) == scan_after_start(logical_bytes(old(self).carrier()).skip(2), 0),
            decreases n_units - k,
        {
            let unit = read_unit(&self.source_bytes, k);
            proof {
                let stream = logical_bytes(old(self).carrier());
                assert(stream.skip(k as int)[0] == stream[k as int]);
                assert(stream.skip(k as int).drop_first() =~= stream.skip(k as int + 1));
            }
            if unit == MAGIC_END_0 {
                proof {
                    let stream = logical_bytes(old(self).carrier());
                    assert(scan_after_start(stream.skip(k as int), ends_seen as nat)
                        == scan_after_start(stream.skip(k as int + 1), (ends_seen + 1) as nat));
                }
                // tentative first terminator byte: swallowed, never emitted
                ends_seen = ends_seen + 1;
            } else if unit == MAGIC_END_1 {
                if ends_seen == 1 {
                    proof {
                        assert(result@ + Seq::<u8>::empty() =~= result@);
                    }
                    return Ok(result);
                }
                return Err(StegError::EndMarker);
            } else {
                let ghost prev_result = result@;
                result.push(unit);
                proof {
                    let stream = logical_bytes(old(self).carrier());
                    assert(result@ =~= prev_result + seq![unit]);
                    match scan_after_start(stream.skip(k as int + 1), ends_seen as nat) {
                        Ok(rest) => {
                            assert(scan_after_start(stream.skip(k as int), ends_seen as nat)
                                == Ok::<Seq<u8>, StegError>(seq![unit] + rest));
                            assert((prev_result + seq![unit]) + rest =~= prev_result + (seq![unit]
                                + rest));
                        },
                        Err(e) => {
                            assert(scan_after_start(stream.skip(k as int), ends_seen as nat)
                                == Err::<Seq<u8>, StegError>(e));
                        },
                    }
                }
            }
            k = k + 1;
        }
        proof {
            let stream = logical_bytes(old(self).carrier());
            assert(stream.skip(n_units as int).len() == 0);
        }
        Err(StegError::Bounds)
    }
}

} // verus!
