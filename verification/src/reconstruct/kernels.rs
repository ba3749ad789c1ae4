//! Application of sample operators to places in a plane.
//!
//! The operators themselves are supplied by the caller as a function from operator and input to
//! output; operators on fewer than sixteen values use the first values and get zeros for the rest.

use crate::reconstruct::contract::ReconstructionError;
use vstd::prelude::*;

verus! {

/// Operator on up to sixteen samples or coefficients.
#[derive(Debug, Clone, Copy, PartialEq, Eq, Structural)]
pub enum Kernel {
    /// Inverse transform of a 4-by-4 block.
    CoreTransform,
    /// First inverse transform of four chroma coefficients.
    ChromaTransform420,
    /// First inverse transform of eight chroma coefficients.
    ChromaTransform422,
    /// Overlap filter of four samples in a line.
    Overlap4,
    /// Overlap filter of a 4-by-4 window.
    Overlap4x4,
    /// Overlap filter of two samples.
    Overlap2,
    /// Overlap filter of a 2-by-2 window.
    Overlap2x2,
    /// Whether a chroma-grid offset is known: some output if it is.
    KnownCentering(u8),
    /// The two samples for a chroma sample, from the one before it, itself and the one behind it,
    /// with a chroma-grid offset.
    UpsampleChroma(u8),
}

/// Whether the executable operators compute what the rule says.
pub open spec fn runs<K: Fn(Kernel, [i32; 16]) -> Option<[i32; 16]>>(
    kernels: K,
    rule: spec_fn(Kernel, Seq<i32>) -> Option<Seq<i32>>,
) -> bool {
    forall|kernel: Kernel, values: [i32; 16], output: Option<[i32; 16]>| #[trigger]
        call_ensures(kernels, (kernel, values), output) ==> match (output, rule(kernel, values@)) {
            (Some(output), Some(expected)) => output@ == expected,
            (None, None) => true,
            _ => false,
        }
}

/// Whether the operators can be called.
pub open spec fn callable<K: Fn(Kernel, [i32; 16]) -> Option<[i32; 16]>>(kernels: K) -> bool {
    forall|kernel: Kernel, values: [i32; 16]| call_requires(kernels, (kernel, values))
}

/// Values, followed by zeros.
pub open spec fn padded(values: Seq<i32>) -> Seq<i32> {
    Seq::new(
        16,
        |index: int|
            if index < values.len() {
                values[index]
            } else {
                0
            },
    )
}

/// The samples at some places, one after the other.
pub open spec fn gathered(samples: Seq<i32>, places: Seq<usize>) -> Seq<i32> {
    Seq::new(places.len(), |index: int| samples[places[index] as int])
}

/// The samples with values written to some places, one after the other.
pub open spec fn scattered(samples: Seq<i32>, places: Seq<usize>, values: Seq<i32>) -> Seq<i32>
    decreases places.len(),
{
    if places.len() == 0 {
        samples
    } else {
        scattered(samples, places.drop_last(), values).update(
            places.last() as int,
            values[places.len() - 1],
        )
    }
}

/// The samples after an operator on some places.
pub open spec fn applied(
    samples: Seq<i32>,
    kernel: Kernel,
    places: Seq<usize>,
    operation: &'static str,
    rule: spec_fn(Kernel, Seq<i32>) -> Option<Seq<i32>>,
) -> Result<Seq<i32>, ReconstructionError> {
    match rule(kernel, padded(gathered(samples, places))) {
        Some(values) => Ok(scattered(samples, places, values)),
        None => Err(ReconstructionError::ArithmeticOverflow(operation)),
    }
}

/// Whether an executable result is the one that is expected: the same error, or the samples that
/// were left behind.
pub open spec fn leaves(
    result: Result<(), ReconstructionError>,
    samples: Seq<i32>,
    expected: Result<Seq<i32>, ReconstructionError>,
) -> bool {
    match (result, expected) {
        (Ok(_), Ok(expected)) => samples == expected,
        (Err(error), Err(expected)) => error == expected,
        _ => false,
    }
}

/// Applies an operator to the samples at some places.
pub(crate) fn apply_kernel<K: Fn(Kernel, [i32; 16]) -> Option<[i32; 16]>>(
    samples: &mut Vec<i32>,
    kernel: Kernel,
    places: &[usize],
    operation: &'static str,
    kernels: &K,
) -> (result: Result<(), ReconstructionError>)
    requires
        callable(*kernels),
        places@.len() <= 16,
        forall|index: int| 0 <= index < places@.len() ==> places@[index] < old(samples)@.len(),
    ensures
        final(samples)@.len() == old(samples)@.len(),
        forall|rule: spec_fn(Kernel, Seq<i32>) -> Option<Seq<i32>>| #[trigger]
            runs(*kernels, rule) ==> leaves(
                result,
                final(samples)@,
                applied(old(samples)@, kernel, places@, operation, rule),
            ),
{
    let mut values: [i32; 16] = [0;16];
    for index in 0..places.len()
        invariant
            places@.len() <= 16,
            forall|index: int| 0 <= index < places@.len() ==> places@[index] < samples@.len(),
            forall|earlier: int|
                0 <= earlier < 16 ==> values@[earlier] == (if earlier < index {
                    samples@[places@[earlier] as int]
                } else {
                    0
                }),
    {
        values[index] = samples[places[index]];
    }
    assert(values@ =~= padded(gathered(samples@, places@)));
    let output: [i32; 16] = match kernels(kernel, values) {
        Some(output) => output,
        None => return Err(ReconstructionError::ArithmeticOverflow(operation)),
    };
    for index in 0..places.len()
        invariant
            places@.len() <= 16,
            forall|index: int| 0 <= index < places@.len() ==> places@[index] < samples@.len(),
            samples@.len() == old(samples)@.len(),
            samples@ == scattered(old(samples)@, places@.take(index as int), output@),
    {
        samples.set(places[index], output[index]);
        assert(places@.take(index as int + 1).drop_last() =~= places@.take(index as int));
    }
    assert(places@.take(places@.len() as int) =~= places@);
    Ok(())
}

/// A sample in a row and a column of a plane is one of its samples.
pub(crate) proof fn lemma_in_plane(x: int, y: int, width: int, height: int)
    requires
        0 <= x < width,
        0 <= y < height,
    ensures
        0 <= y <= y * width,
        0 <= x + y * width < width * height,
{
    assert(y * width >= y && y * width + width <= width * height) by (nonlinear_arith)
        requires
            0 <= y,
            y + 1 <= height,
            0 < width,
    ;
}

} // verus!
