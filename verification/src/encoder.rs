//! Writes a framed payload into the low two bits of a carrier buffer.

use vstd::prelude::*;

use crate::errors::StegError;
use crate::framing::encoded;
use crate::framing::framed;
use crate::framing::lemma_pack_preserves_high_bits;
use crate::framing::pack_bits;
use crate::framing::MAGIC_END_0;
use crate::framing::MAGIC_END_1;
use crate::framing::MAGIC_START_0;
use crate::framing::MAGIC_START_1;

verus! {

/// Hides a payload in a carrier buffer by overwriting the low two bits of
/// the carrier bytes in place. Owns both buffers for the duration of the
/// operation; the payload is never mutated.
#[derive(Debug)]
pub struct Encoder {
    source_bytes: Vec<u8>,
    message: Vec<u8>,
}

impl Encoder {
    /// The carrier buffer as it currently stands.
    pub closed spec fn carrier(&self) -> Seq<u8> {
        self.source_bytes@
    }

    /// The payload to hide.
    pub closed spec fn payload(&self) -> Seq<u8> {
        self.message@
    }

    /// Takes ownership of the carrier buffer and of the payload to hide in
    /// it.
    pub fn new(source_bytes: Vec<u8>, message: Vec<u8>) -> (r: Result<Encoder, StegError>)
        ensures
            r matches Ok(enc) && enc.carrier() == source_bytes@ && enc.payload() == message@,
    {
        Ok(Encoder { source_bytes, message })
    }

    /// Writes the framed stream `START ++ payload ++ END` into the carrier,
    /// one logical byte per four carrier bytes, and returns the count of
    /// logical bytes written. Fails with a capacity error, before any
    /// mutation, when the carrier cannot hold the framed stream; the high
    /// six bits of every carrier byte survive in either case.
    pub fn encode(&mut self) -> (r: Result<usize, StegError>)
        ensures
            final(self).payload() == old(self).payload(),
            final(self).carrier().len() == old(self).carrier().len(),
            (old(self).payload().len() + 4) * 4 <= old(self).carrier().len() ==> {
                &&& r == Ok::<usize, StegError>((old(self).payload().len() + 4) as usize)
                &&& final(self).carrier() == encoded(old(self).carrier(), old(self).payload())
            },
            old(self).carrier().len() < (old(self).payload().len() + 4) * 4 ==> {
                &&& r == Err::<usize, StegError>(StegError::Capacity)
                &&& final(self).carrier() == old(self).carrier()
            },
            forall|j: int|
                0 <= j < final(self).carrier().len() ==> final(self).carrier()[j] & 0xFC
                    == old(self).carrier()[j] & 0xFC,
            forall|j: int|
                (old(self).payload().len() + 4) * 4 <= j < final(self).carrier().len()
                    ==> final(self).carrier()[j] == old(self).carrier()[j],
    {
        // capacity in whole four-byte groups; one logical byte needs one group
        let cap_units: usize = self.source_bytes.len() / 4;
        if cap_units < 4 || self.message.len() > cap_units - 4 {
            return Err(StegError::Capacity);
        }
        let total: usize = self.message.len() + 4;
        let mut k: usize = 0;
        while k < total
            invariant
                total == old(self).payload().len() + 4,
                total <= usize::MAX / 4,
                k <= total,
                self.message@ == old(self).payload(),
                self.source_bytes@.len() == old(self).carrier().len(),
                4 * total <= self.source_bytes@.len(),
                forall|j: int|
                    0 <= j < 4 * k ==> self.source_bytes@[j] == encoded(
                        old(self).carrier(),
                        old(self).payload(),
                    )[j],
                forall|j: int|
                    4 * k <= j < self.source_bytes@.len() ==> self.source_bytes@[j]
                        == old(self).carrier()[j],
            decreases total - k,
        {
            // the k-th logical byte of the framed stream
            let target_byte: u8 = if k < 2 {
                if k == 0 {
                    MAGIC_START_0
                } else {
                    MAGIC_START_1
                }
            } else if k < total - 2 {
                self.message[k - 2]
            } else {
                if k == total - 2 {
                    MAGIC_END_0
                } else {
                    MAGIC_END_1
                }
            };
            proof {
                assert(framed(old(self).payload())[k as int] == target_byte);
            }
            let base: usize = 4 * k;
            let c0 = self.source_bytes[base];
            self.source_bytes[base] = (c0 & 0xFC) | ((target_byte >> 6u8) & 3);
            let c1 = self.source_bytes[base + 1];
            self.source_bytes[base + 1] = (c1 & 0xFC) | ((target_byte >> 4u8) & 3);
            let c2 = self.source_bytes[base + 2];
            self.source_bytes[base + 2] = (c2 & 0xFC) | ((target_byte >> 2u8) & 3);
            let c3 = self.source_bytes[base + 3];
            self.source_bytes[base + 3] = (c3 & 0xFC) | (target_byte & 3);
            proof {
                let enc = encoded(old(self).carrier(), old(self).payload());
                assert forall|j: int| 4 * k <= j < 4 * (k + 1) implies self.source_bytes@[j]
                    == enc[j] by {
                    assert(j / 4 == k && j % 4 == j - 4 * k);
                    assert(self.source_bytes@[j] == pack_bits(
                        target_byte,
                        old(self).carrier()[j],
                        j % 4,
                    ));
                }
            }
            k = k + 1;
        }
        proof {
            let enc = encoded(old(self).carrier(), old(self).payload());
            assert(self.source_bytes@ =~= enc);
            assert forall|j: int| 0 <= j < self.source_bytes@.len() implies self.source_bytes@[j]
                & 0xFC == old(self).carrier()[j] & 0xFC by {
                if j < (old(self).payload().len() + 4) * 4 {
                    lemma_pack_preserves_high_bits(
                        framed(old(self).payload())[j / 4],
                        old(self).carrier()[j],
                        j % 4,
                    );
                }
            }
        }
        Ok(total)
    }

    /// Read-only access to the carrier buffer.
    pub fn source_bytes(&self) -> (r: &Vec<u8>)
        ensures
            r@ == self.carrier(),
    {
        &self.source_bytes
    }

    /// Gives the carrier buffer back to the caller.
    pub fn into_source(self) -> (r: Vec<u8>)
        ensures
            r@ == self.carrier(),
    {
        self.source_bytes
    }
}

} // verus!
