//! Packet-scoped, most-significant-bit-first reading.

use super::error::EntropyError;
use crate::bits;
use vstd::prelude::*;

verus! {

/// A place in a bit string of which the first `limit` bits can be read.
pub struct BitCursor {
    /// The bytes that hold the bits.
    pub bytes: Seq<u8>,
    /// The number of readable bits.
    pub limit: usize,
    /// The offset of the next bit to read.
    pub position: usize,
}

impl BitCursor {
    /// The same bit string at another bit.
    pub open spec fn moved(self, position: int) -> BitCursor {
        BitCursor { bytes: self.bytes, limit: self.limit, position: position as usize }
    }

    /// The error of a read of `count` bits of which not all are there.
    pub open spec fn end_error(self, count: u8) -> EntropyError {
        EntropyError::UnexpectedEnd {
            bit_position: self.position,
            requested_bits: count,
            bit_length: self.limit,
        }
    }

    /// What a read of `count` bits gives, and where it leaves the cursor.
    ///
    /// A read that fails leaves the cursor where it was.
    pub open spec fn read(self, count: u8) -> (Result<u64, EntropyError>, BitCursor) {
        if count > 64 {
            (
                Err(
                    EntropyError::InvalidParameter { parameter: "bit count", value: count as i64 },
                ),
                self,
            )
        } else if self.position + count > self.limit {
            (Err(self.end_error(count)), self)
        } else {
            (
                Ok(bits::bits_value(self.bytes, self.position as int, count as nat) as u64),
                self.moved(self.position + count),
            )
        }
    }

    /// What a read of one bit gives, and where it leaves the cursor.
    pub open spec fn read_bit(self) -> (Result<bool, EntropyError>, BitCursor) {
        if self.position + 1 > self.limit {
            (Err(self.end_error(1)), self)
        } else {
            (
                Ok(bits::bits_value(self.bytes, self.position as int, 1) != 0),
                self.moved(self.position + 1),
            )
        }
    }
}

/// The number of bits in `length` bytes, capped at the largest `usize`.
pub open spec fn available_bits(length: int) -> usize {
    if 8 * length > usize::MAX {
        usize::MAX
    } else {
        (8 * length) as usize
    }
}

/// A bounds-checked view over exactly one tile packet payload.
#[derive(Debug)]
pub struct PacketBitReader<'a> {
    bytes: &'a [u8],
    bit_position: usize,
    bit_length: usize,
}

impl<'a> View for PacketBitReader<'a> {
    type V = BitCursor;

    closed spec fn view(&self) -> BitCursor {
        BitCursor { bytes: self.bytes@, limit: self.bit_length, position: self.bit_position }
    }
}

impl<'a> Clone for PacketBitReader<'a> {
    fn clone(&self) -> (reader: Self)
        ensures
            reader@ == self@,
    {
        proof {
            use_type_invariant(self);
        }
        PacketBitReader {
            bytes: self.bytes,
            bit_position: self.bit_position,
            bit_length: self.bit_length,
        }
    }
}

fn capped_bits(length: usize) -> (bits: usize)
    ensures
        bits == available_bits(length as int),
{
    match length.checked_mul(8) {
        Some(bits) => bits,
        None => usize::MAX,
    }
}

impl<'a> PacketBitReader<'a> {
    #[verifier::type_invariant]
    closed spec fn in_bounds(&self) -> bool {
        self.bit_position <= self.bit_length <= 8 * self.bytes@.len()
    }

    /// Creates a reader covering every bit in `bytes`.
    #[must_use]
    pub fn new(bytes: &'a [u8]) -> (reader: Self)
        ensures
            reader@ == (BitCursor {
                bytes: bytes@,
                limit: available_bits(bytes@.len() as int),
                position: 0,
            }),
    {
        PacketBitReader { bytes, bit_position: 0, bit_length: capped_bits(bytes.len()) }
    }

    /// Creates a reader bounded to `bit_length`, which may end mid-byte.
    pub fn with_bit_length(bytes: &'a [u8], bit_length: usize) -> (result: Result<
        Self,
        EntropyError,
    >)
        ensures
            match result {
                Ok(reader) => bit_length <= available_bits(bytes@.len() as int) && reader@ == (
                BitCursor { bytes: bytes@, limit: bit_length, position: 0 }),
                Err(error) => bit_length > available_bits(bytes@.len() as int) && error == (
                EntropyError::InvalidBitLength {
                    bit_length,
                    available_bits: available_bits(bytes@.len() as int),
                }),
            },
    {
        let available: usize = capped_bits(bytes.len());
        if bit_length > available {
            return Err(
                EntropyError::InvalidBitLength { bit_length, available_bits: available },
            );
        }
        Ok(PacketBitReader { bytes, bit_position: 0, bit_length })
    }

    /// Returns the current offset from the start of the packet payload.
    #[must_use]
    pub fn bit_position(&self) -> (position: usize)
        ensures
            position == self@.position,
            position <= self@.limit,
    {
        proof {
            use_type_invariant(self);
        }
        self.bit_position
    }

    /// Returns the number of unread bits in this packet view.
    #[must_use]
    pub fn bits_remaining(&self) -> (remaining: usize)
        ensures
            remaining == self@.limit - self@.position,
    {
        proof {
            use_type_invariant(self);
        }
        self.bit_length - self.bit_position
    }

    /// Reads one bit.
    pub fn read_bit(&mut self) -> (result: Result<bool, EntropyError>)
        ensures
            (result, final(self)@) == old(self)@.read_bit(),
    {
        let value: u64 = self.read_bits(1)?;
        proof {
            lemma_one_bit(old(self)@);
        }
        Ok(value != 0)
    }

    /// Reads up to 64 bits, most-significant bit first.
    pub fn read_bits(&mut self, count: u8) -> (result: Result<u64, EntropyError>)
        ensures
            (result, final(self)@) == old(self)@.read(count),
    {
        proof {
            use_type_invariant(&*self);
        }
        if count > 64 {
            return Err(
                EntropyError::InvalidParameter { parameter: "bit count", value: count as i64 },
            );
        }
        let end: usize = match self.bit_position.checked_add(count as usize) {
            Some(end) => end,
            None => {
                return Err(
                    EntropyError::UnexpectedEnd {
                        bit_position: self.bit_position,
                        requested_bits: count,
                        bit_length: self.bit_length,
                    },
                );
            },
        };
        if end > self.bit_length {
            return Err(
                EntropyError::UnexpectedEnd {
                    bit_position: self.bit_position,
                    requested_bits: count,
                    bit_length: self.bit_length,
                },
            );
        }
        let mut value: u64 = 0;
        let ghost start = self.bit_position as int;
        while self.bit_position < end
            invariant
                start == old(self)@.position,
                start <= self.bit_position <= end <= self.bit_length,
                self.bit_length <= 8 * self.bytes@.len(),
                end - start == count <= 64,
                self.bytes@ == old(self)@.bytes,
                self.bit_length == old(self)@.limit,
                value == bits::bits_value(self.bytes@, start, (self.bit_position - start) as nat),
            decreases end - self.bit_position,
        {
            let byte: u8 = self.bytes[self.bit_position / 8];
            value =
            bits::append_bit(value, byte, self.bit_position, Ghost(self.bytes@), Ghost(start));
            self.bit_position = self.bit_position + 1;
        }
        Ok(value)
    }
}

proof fn lemma_one_bit(cursor: BitCursor)
    ensures
        bits::bits_value(cursor.bytes, cursor.position as int, 1) <= 1,
{
    crate::bits::lemma_bits_value_bound(cursor.bytes, cursor.position as int, 1);
    vstd::arithmetic::power2::lemma2_to64();
}

} // verus!
