//! Bounds-checked bit reading for headers.

use crate::bits;
use crate::error::NativeError;
use vstd::prelude::*;

verus! {

/// A place in a bit string, together with the first error met on the way there.
///
/// Reading from a cursor that holds an error changes nothing and gives zero, so a sequence of
/// reads and checks can be written down one after the other.
pub struct HeaderCursor {
    /// The bytes that hold the bits.
    pub bytes: Seq<u8>,
    /// The offset of the next bit to read.
    pub position: usize,
    /// The first error, if any.
    pub error: Option<NativeError>,
}

impl HeaderCursor {
    /// The cursor at the first bit.
    pub open spec fn start(bytes: Seq<u8>) -> HeaderCursor {
        HeaderCursor { bytes, position: 0, error: None }
    }

    /// The same cursor with an error, unless it holds one already.
    pub open spec fn fail(self, error: NativeError) -> HeaderCursor {
        if self.error is Some {
            self
        } else {
            HeaderCursor { bytes: self.bytes, position: self.position, error: Some(error) }
        }
    }

    /// The same cursor if `holds`, and otherwise the cursor with the error.
    pub open spec fn require(self, holds: bool, error: NativeError) -> HeaderCursor {
        if holds {
            self
        } else {
            self.fail(error)
        }
    }

    /// The same place, free of errors.
    pub open spec fn place(self) -> HeaderCursor {
        HeaderCursor { bytes: self.bytes, position: self.position, error: None }
    }

    /// Success with `value`, or the error that the cursor holds.
    pub open spec fn outcome<T>(self, value: T) -> Result<T, NativeError> {
        match self.error {
            Some(error) => Err(error),
            None => Ok(value),
        }
    }

    /// Reads `count` bits as an unsigned number.
    pub open spec fn read(self, count: u8) -> (u64, HeaderCursor) {
        if self.error is Some {
            (0, self)
        } else if count > 64 {
            (
                0,
                self.fail(
                    NativeError::ReservedValue { field: "bit read width", value: count as u64 },
                ),
            )
        } else if self.position + count > usize::MAX {
            (0, self.fail(NativeError::IntegerOverflow { operation: "advancing bit reader" }))
        } else if self.position + count > 8 * self.bytes.len() {
            (
                0,
                self.fail(
                    NativeError::Truncated { bit_position: self.position, requested_bits: count },
                ),
            )
        } else {
            (
                bits::bits_value(self.bytes, self.position as int, count as nat) as u64,
                HeaderCursor {
                    bytes: self.bytes,
                    position: (self.position + count) as usize,
                    error: None,
                },
            )
        }
    }

    /// Reads one bit as a truth value.
    pub open spec fn read_flag(self) -> (bool, HeaderCursor) {
        let (value, next) = self.read(1);
        (value != 0, next)
    }

    /// Moves over zero bits to the next byte boundary; a bit that is set is an error, found after
    /// that bit was read.
    pub open spec fn align_zero(self) -> HeaderCursor
        decreases (8 - self.position % 8) % 8, (if self.error is None { 1int } else { 0int }),
    {
        if self.error is Some || self.position % 8 == 0 {
            self
        } else {
            let (bit, next) = self.read_flag();
            next.require(
                !bit,
                NativeError::NonZeroAlignmentBit { bit_position: self.position },
            ).align_zero()
        }
    }
}

/// Most-significant-bit-first reader of header syntax.
pub struct BitReader<'a> {
    bytes: &'a [u8],
    bit_position: usize,
}

impl<'a> View for BitReader<'a> {
    type V = HeaderCursor;

    closed spec fn view(&self) -> HeaderCursor {
        HeaderCursor { bytes: self.bytes@, position: self.bit_position, error: None }
    }
}

impl<'a> BitReader<'a> {
    #[verifier::type_invariant]
    closed spec fn in_bounds(&self) -> bool {
        self.bit_position <= 8 * self.bytes@.len()
    }

    /// Creates a reader at the first bit of `bytes`.
    pub fn new(bytes: &'a [u8]) -> (reader: Self)
        ensures
            reader@ == HeaderCursor::start(bytes@),
    {
        BitReader { bytes, bit_position: 0 }
    }

    /// Returns the offset of the next bit.
    pub fn bit_position(&self) -> (position: usize)
        ensures
            position == self@.position,
            position <= 8 * self@.bytes.len(),
    {
        proof {
            use_type_invariant(self);
        }
        self.bit_position
    }

    /// Reads one bit.
    pub fn read_flag(&mut self) -> (result: Result<bool, NativeError>)
        ensures
            result == old(self)@.read_flag().1.outcome(old(self)@.read_flag().0),
            final(self)@ == old(self)@.read_flag().1.place(),
    {
        let value: u64 = self.read_bits(1)?;
        Ok(value != 0)
    }

    /// Reads up to 64 bits, most-significant bit first.
    pub fn read_bits(&mut self, count: u8) -> (result: Result<u64, NativeError>)
        ensures
            result == old(self)@.read(count).1.outcome(old(self)@.read(count).0),
            final(self)@ == old(self)@.read(count).1.place(),
    {
        proof {
            use_type_invariant(&*self);
        }
        if count > 64 {
            return Err(NativeError::ReservedValue { field: "bit read width", value: count as u64 });
        }
        let end: usize = match self.bit_position.checked_add(count as usize) {
            Some(end) => end,
            None => {
                return Err(NativeError::IntegerOverflow { operation: "advancing bit reader" });
            },
        };
        let length: usize = match self.bytes.len().checked_mul(8) {
            Some(length) => length,
            None => usize::MAX,
        };
        if end > length {
            return Err(
                NativeError::Truncated { bit_position: self.bit_position, requested_bits: count },
            );
        }
        let mut value: u64 = 0;
        let ghost start = self.bit_position as int;
        while self.bit_position < end
            invariant
                start == old(self)@.position,
                start <= self.bit_position <= end,
                end <= 8 * self.bytes@.len(),
                end - start == count <= 64,
                self.bytes@ == old(self)@.bytes,
                value == bits::bits_value(self.bytes@, start, (self.bit_position - start) as nat),
            decreases end - self.bit_position,
        {
            let byte: u8 = self.bytes[self.bit_position / 8];
            value =
            bits::append_bit(value, byte, self.bit_position, Ghost(self.bytes@), Ghost(start));
            self.bit_position = self.bit_position + 1;
        }
        Ok(value)
    }

    /// Moves to the next byte boundary over bits that must all be zero.
    pub fn align_zero(&mut self) -> (result: Result<(), NativeError>)
        ensures
            result == old(self)@.align_zero().outcome(()),
            final(self)@ == old(self)@.align_zero().place(),
    {
        while self.bit_position % 8 != 0
            invariant
                self@.align_zero() == old(self)@.align_zero(),
                self@.error is None,
            decreases (8 - self.bit_position % 8) % 8,
        {
            let position: usize = self.bit_position;
            proof {
                reveal_with_fuel(HeaderCursor::align_zero, 2);
            }
            if self.read_flag()? {
                return Err(NativeError::NonZeroAlignmentBit { bit_position: position });
            }
        }
        Ok(())
    }
}

} // verus!
