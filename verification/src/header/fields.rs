//! Narrow typed reads of header fields.

use crate::bit_reader::{BitReader, HeaderCursor};
use crate::error::NativeError;
use vstd::prelude::*;

verus! {

impl HeaderCursor {
    /// Whether a result says what the cursor says: an error if and only if it holds that error.
    pub open spec fn agrees<T>(self, result: Result<T, NativeError>) -> bool {
        match result {
            Ok(_) => self.error is None,
            Err(error) => self.error == Some(error),
        }
    }

    /// Reads an 8-bit number.
    pub open spec fn read_u8(self, bits: u8) -> (u8, HeaderCursor) {
        let (value, next) = self.read(bits);
        (
            value as u8,
            next.require(
                value <= u8::MAX,
                NativeError::IntegerOverflow { operation: "converting parsed field to u8" },
            ),
        )
    }

    /// Reads a 16-bit number.
    pub open spec fn read_u16(self, bits: u8) -> (u16, HeaderCursor) {
        let (value, next) = self.read(bits);
        (
            value as u16,
            next.require(
                value <= u16::MAX,
                NativeError::IntegerOverflow { operation: "converting parsed field to u16" },
            ),
        )
    }

    /// Reads a dimension that is stored less one.
    pub open spec fn read_dimension(self, bits: u8, operation: &'static str) -> (u32, HeaderCursor) {
        let (value, next) = self.read(bits);
        (
            (value + 1) as u32,
            next.require(value + 1 <= u32::MAX, NativeError::IntegerOverflow { operation }),
        )
    }
}

pub(crate) fn read_dimension(
    reader: &mut BitReader<'_>,
    bits: u8,
    operation: &'static str,
) -> (result: Result<u32, NativeError>)
    requires
        old(reader)@.error is None,
    ensures
        result == old(reader)@.read_dimension(bits, operation).1.outcome(
            old(reader)@.read_dimension(bits, operation).0,
        ),
        final(reader)@ == old(reader)@.read_dimension(bits, operation).1.place(),
{
    let minus_one: u64 = reader.read_bits(bits)?;
    if minus_one >= u32::MAX as u64 {
        return Err(NativeError::IntegerOverflow { operation });
    }
    Ok(minus_one as u32 + 1)
}

pub(crate) fn require_value(value: u64, expected: u64, field: &'static str) -> (result: Result<
    (),
    NativeError,
>)
    ensures
        result == (if value == expected {
            Ok::<(), NativeError>(())
        } else {
            Err(NativeError::ReservedValue { field, value })
        }),
{
    if value == expected {
        Ok(())
    } else {
        Err(NativeError::ReservedValue { field, value })
    }
}

pub(crate) fn read_u8(reader: &mut BitReader<'_>, bits: u8) -> (result: Result<u8, NativeError>)
    requires
        old(reader)@.error is None,
    ensures
        result == old(reader)@.read_u8(bits).1.outcome(old(reader)@.read_u8(bits).0),
        final(reader)@ == old(reader)@.read_u8(bits).1.place(),
{
    let value: u64 = reader.read_bits(bits)?;
    if value > u8::MAX as u64 {
        return Err(
            NativeError::IntegerOverflow { operation: "converting parsed field to u8" },
        );
    }
    Ok(value as u8)
}

pub(crate) fn read_u16(reader: &mut BitReader<'_>, bits: u8) -> (result: Result<u16, NativeError>)
    requires
        old(reader)@.error is None,
    ensures
        result == old(reader)@.read_u16(bits).1.outcome(old(reader)@.read_u16(bits).0),
        final(reader)@ == old(reader)@.read_u16(bits).1.place(),
{
    let value: u64 = reader.read_bits(bits)?;
    if value > u16::MAX as u64 {
        return Err(
            NativeError::IntegerOverflow { operation: "converting parsed field to u16" },
        );
    }
    Ok(value as u16)
}

} // verus!
