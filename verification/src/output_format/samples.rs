//! Typed output storage.

use crate::types::PixelFormat;
use vstd::prelude::*;

verus! {

/// Element of typed output storage.
pub trait Element: Copy + Sized {
    /// The number that the element stands for.
    spec fn number(self) -> int;

    /// Whether a number has an element.
    spec fn holds(number: int) -> bool;

    /// Returns the element of a number.
    fn from_number(number: i64) -> (element: Self)
        requires
            Self::holds(number as int),
        ensures
            element.number() == number,
    ;

    /// Returns the number that the element stands for.
    fn to_number(self) -> (number: i64)
        ensures
            number == self.number(),
            Self::holds(number as int),
    ;
}

impl Element for u8 {
    open spec fn number(self) -> int {
        self as int
    }

    open spec fn holds(number: int) -> bool {
        0 <= number <= u8::MAX
    }

    fn from_number(number: i64) -> (element: Self) {
        number as u8
    }

    fn to_number(self) -> (number: i64) {
        self as i64
    }
}

impl Element for u16 {
    open spec fn number(self) -> int {
        self as int
    }

    open spec fn holds(number: int) -> bool {
        0 <= number <= u16::MAX
    }

    fn from_number(number: i64) -> (element: Self) {
        number as u16
    }

    fn to_number(self) -> (number: i64) {
        self as i64
    }
}

impl Element for i16 {
    open spec fn number(self) -> int {
        self as int
    }

    open spec fn holds(number: int) -> bool {
        i16::MIN <= number <= i16::MAX
    }

    fn from_number(number: i64) -> (element: Self) {
        number as i16
    }

    fn to_number(self) -> (number: i64) {
        self as i64
    }
}

impl Element for i32 {
    open spec fn number(self) -> int {
        self as int
    }

    open spec fn holds(number: int) -> bool {
        i32::MIN <= number <= i32::MAX
    }

    fn from_number(number: i64) -> (element: Self) {
        number as i32
    }

    fn to_number(self) -> (number: i64) {
        self as i64
    }
}

impl Element for u32 {
    open spec fn number(self) -> int {
        self as int
    }

    open spec fn holds(number: int) -> bool {
        0 <= number <= u32::MAX
    }

    fn from_number(number: i64) -> (element: Self) {
        number as u32
    }

    fn to_number(self) -> (number: i64) {
        self as i64
    }
}

/// The numbers that elements stand for.
pub open spec fn numbers<T: Element>(elements: Seq<T>) -> Seq<int> {
    Seq::new(elements.len(), |index: int| elements[index].number())
}

/// Typed output samples. Floating-point samples are held as their bit patterns.
#[derive(Debug, PartialEq, Eq)]
pub enum DecodedSamples {
    /// One bit per sample, the first one in the highest bit.
    BitPacked(Vec<u8>),
    /// Unsigned bytes.
    U8(Vec<u8>),
    /// Unsigned 16-bit words.
    U16(Vec<u16>),
    /// Signed 16-bit words.
    I16(Vec<i16>),
    /// Signed 32-bit words.
    I32(Vec<i32>),
    /// Half-precision bit patterns.
    F16(Vec<u16>),
    /// Single-precision bit patterns.
    F32(Vec<u32>),
    /// Three 5-bit fields in a word.
    Rgb555(Vec<u16>),
    /// Fields of 5, 6 and 5 bits in a word.
    Rgb565(Vec<u16>),
    /// Three 10-bit fields in a double word.
    Rgb101010(Vec<u32>),
    /// Three mantissas and a shared exponent in four bytes.
    Rgbe(Vec<u32>),
}

/// Kind of typed output storage.
#[derive(Debug, Clone, Copy, PartialEq, Eq, Structural)]
pub enum Storage {
    /// One bit per sample.
    BitPacked,
    /// Unsigned bytes.
    U8,
    /// Unsigned 16-bit words.
    U16,
    /// Signed 16-bit words.
    I16,
    /// Signed 32-bit words.
    I32,
    /// Half-precision bit patterns.
    F16,
    /// Single-precision bit patterns.
    F32,
    /// Three 5-bit fields in a word.
    Rgb555,
    /// Fields of 5, 6 and 5 bits in a word.
    Rgb565,
    /// Three 10-bit fields in a double word.
    Rgb101010,
    /// Three mantissas and a shared exponent.
    Rgbe,
}

/// The kind of storage of a pixel format.
#[verifier::allow_in_spec]
pub fn storage_of(format: PixelFormat) -> Storage
    returns
        (match format {
            PixelFormat::BitPacked(_) => Storage::BitPacked,
            PixelFormat::U8(_) => Storage::U8,
            PixelFormat::U16(_) => Storage::U16,
            PixelFormat::I16(_) => Storage::I16,
            PixelFormat::I32(_) => Storage::I32,
            PixelFormat::F16(_) => Storage::F16,
            PixelFormat::F32(_) => Storage::F32,
            PixelFormat::Rgb555 => Storage::Rgb555,
            PixelFormat::Rgb565 => Storage::Rgb565,
            PixelFormat::Rgb101010 => Storage::Rgb101010,
            PixelFormat::Rgbe => Storage::Rgbe,
        }),
{
    match format {
        PixelFormat::BitPacked(_) => Storage::BitPacked,
        PixelFormat::U8(_) => Storage::U8,
        PixelFormat::U16(_) => Storage::U16,
        PixelFormat::I16(_) => Storage::I16,
        PixelFormat::I32(_) => Storage::I32,
        PixelFormat::F16(_) => Storage::F16,
        PixelFormat::F32(_) => Storage::F32,
        PixelFormat::Rgb555 => Storage::Rgb555,
        PixelFormat::Rgb565 => Storage::Rgb565,
        PixelFormat::Rgb101010 => Storage::Rgb101010,
        PixelFormat::Rgbe => Storage::Rgbe,
    }
}

/// Typed output samples as numbers.
pub struct SamplesModel {
    /// Kind of storage.
    pub storage: Storage,
    /// Numbers that the elements stand for.
    pub values: Seq<int>,
}

impl View for DecodedSamples {
    type V = SamplesModel;

    open spec fn view(&self) -> SamplesModel {
        match self {
            DecodedSamples::BitPacked(values) => SamplesModel {
                storage: Storage::BitPacked,
                values: numbers(values@),
            },
            DecodedSamples::U8(values) => SamplesModel {
                storage: Storage::U8,
                values: numbers(values@),
            },
            DecodedSamples::U16(values) => SamplesModel {
                storage: Storage::U16,
                values: numbers(values@),
            },
            DecodedSamples::I16(values) => SamplesModel {
                storage: Storage::I16,
                values: numbers(values@),
            },
            DecodedSamples::I32(values) => SamplesModel {
                storage: Storage::I32,
                values: numbers(values@),
            },
            DecodedSamples::F16(values) => SamplesModel {
                storage: Storage::F16,
                values: numbers(values@),
            },
            DecodedSamples::F32(values) => SamplesModel {
                storage: Storage::F32,
                values: numbers(values@),
            },
            DecodedSamples::Rgb555(values) => SamplesModel {
                storage: Storage::Rgb555,
                values: numbers(values@),
            },
            DecodedSamples::Rgb565(values) => SamplesModel {
                storage: Storage::Rgb565,
                values: numbers(values@),
            },
            DecodedSamples::Rgb101010(values) => SamplesModel {
                storage: Storage::Rgb101010,
                values: numbers(values@),
            },
            DecodedSamples::Rgbe(values) => SamplesModel {
                storage: Storage::Rgbe,
                values: numbers(values@),
            },
        }
    }
}

/// The bytes of an element of a kind of storage.
#[verifier::allow_in_spec]
pub fn element_bytes(storage: Storage) -> usize
    returns
        (match storage {
            Storage::BitPacked | Storage::U8 => 1usize,
            Storage::U16 | Storage::I16 | Storage::F16 | Storage::Rgb555 | Storage::Rgb565 => 2usize,
            Storage::I32 | Storage::F32 | Storage::Rgb101010 | Storage::Rgbe => 4usize,
        }),
{
    match storage {
        Storage::BitPacked | Storage::U8 => 1,
        Storage::U16 | Storage::I16 | Storage::F16 | Storage::Rgb555 | Storage::Rgb565 => 2,
        Storage::I32 | Storage::F32 | Storage::Rgb101010 | Storage::Rgbe => 4,
    }
}

impl DecodedSamples {
    /// Returns the kind of storage.
    pub fn storage(&self) -> (storage: Storage)
        ensures
            storage == self@.storage,
    {
        match self {
            DecodedSamples::BitPacked(_) => Storage::BitPacked,
            DecodedSamples::U8(_) => Storage::U8,
            DecodedSamples::U16(_) => Storage::U16,
            DecodedSamples::I16(_) => Storage::I16,
            DecodedSamples::I32(_) => Storage::I32,
            DecodedSamples::F16(_) => Storage::F16,
            DecodedSamples::F32(_) => Storage::F32,
            DecodedSamples::Rgb555(_) => Storage::Rgb555,
            DecodedSamples::Rgb565(_) => Storage::Rgb565,
            DecodedSamples::Rgb101010(_) => Storage::Rgb101010,
            DecodedSamples::Rgbe(_) => Storage::Rgbe,
        }
    }

    /// Returns the number of elements.
    pub fn len(&self) -> (length: usize)
        ensures
            length == self@.values.len(),
    {
        match self {
            DecodedSamples::BitPacked(values) | DecodedSamples::U8(values) => values.len(),
            DecodedSamples::U16(values) | DecodedSamples::F16(values) | DecodedSamples::Rgb555(
                values,
            ) | DecodedSamples::Rgb565(values) => values.len(),
            DecodedSamples::I16(values) => values.len(),
            DecodedSamples::I32(values) => values.len(),
            DecodedSamples::F32(values) | DecodedSamples::Rgb101010(values) | DecodedSamples::Rgbe(
                values,
            ) => values.len(),
        }
    }

    /// Returns whether there are no elements.
    pub fn is_empty(&self) -> (empty: bool)
        ensures
            empty == (self@.values.len() == 0),
    {
        self.len() == 0
    }

    /// Returns the number of bytes, but no more than the largest number of bytes that fits.
    pub fn byte_len(&self) -> (bytes: usize)
        ensures
            bytes == (if self@.values.len() * element_bytes(self@.storage) > usize::MAX {
                usize::MAX as int
            } else {
                self@.values.len() * element_bytes(self@.storage)
            }),
    {
        match self.len().checked_mul(element_bytes(self.storage())) {
            Some(bytes) => bytes,
            None => usize::MAX,
        }
    }

    /// Returns whether the storage is the one of a pixel format.
    pub fn matches_format(&self, format: PixelFormat) -> (matches: bool)
        ensures
            matches == (self@.storage == storage_of(format)),
    {
        self.storage() == storage_of(format)
    }
}

} // verus!
