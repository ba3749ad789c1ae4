//! Inverse transforms of macroblocks.

use crate::reconstruct::contract::{ConfigModel, ReconstructionConfig, ReconstructionError};
use crate::reconstruct::dequant;
use crate::reconstruct::kernels;
use crate::reconstruct::kernels::Kernel;
use vstd::prelude::*;

verus! {

/// The first inverse transform for a number of block columns and rows: operator, number of
/// coefficients, and what it is used for.
pub open spec fn first_transform(block_columns: u8, block_rows: u8) -> Option<
    (Kernel, int, &'static str),
> {
    if block_columns == 4 && block_rows == 4 {
        Some((Kernel::CoreTransform, 16, "inverse core transform"))
    } else if block_columns == 2 && block_rows == 4 {
        Some((Kernel::ChromaTransform422, 8, "YUV422 first inverse transform"))
    } else if block_columns == 2 && block_rows == 2 {
        Some((Kernel::ChromaTransform420, 4, "YUV420 first inverse transform"))
    } else {
        None
    }
}

/// Values, the first of which are replaced.
pub open spec fn with_first(values: Seq<i32>, first: Seq<i32>, count: int) -> Seq<i32> {
    Seq::new(
        values.len(),
        |index: int|
            if index < count {
                first[index]
            } else {
                values[index]
            },
    )
}

/// Whether a value fits when it is doubled.
pub open spec fn fits_doubled(value: i32) -> bool {
    i32::MIN <= 2 * value <= i32::MAX
}

/// Values, the first of which are doubled.
pub open spec fn doubled(values: Seq<i32>, count: int) -> Seq<i32> {
    Seq::new(
        values.len(),
        |index: int|
            if index < count {
                (2 * values[index]) as i32
            } else {
                values[index]
            },
    )
}

/// The low-pass values of a macroblock after the first inverse transform.
pub open spec fn first_inverse(
    low: Seq<i32>,
    config: ConfigModel,
    rule: spec_fn(Kernel, Seq<i32>) -> Option<Seq<i32>>,
) -> Result<Seq<i32>, ReconstructionError> {
    match first_transform(config.block_columns, config.block_rows) {
        None => Err(
            ReconstructionError::InvalidPlaneGeometry("unsupported first-level transform shape"),
        ),
        Some((kernel, count, operation)) => match rule(kernel, kernels::padded(low.take(count))) {
            None => Err(ReconstructionError::ArithmeticOverflow(operation)),
            Some(values) => {
                let transformed = with_first(low, values, count);
                if !config.scale_after_first_transform {
                    Ok(transformed)
                } else if forall|index: int|
                    0 <= index < count ==> fits_doubled(#[trigger] transformed[index]) {
                    Ok(doubled(transformed, count))
                } else {
                    Err(ReconstructionError::ArithmeticOverflow("scaled chroma normalization"))
                }
            },
        },
    }
}

/// Returns the low-pass values of a macroblock after the first inverse transform.
pub(crate) fn inverse_first_level<K: Fn(Kernel, [i32; 16]) -> Option<[i32; 16]>>(
    low: [i32; 16],
    config: &ReconstructionConfig,
    kernels: &K,
) -> (result: Result<[i32; 16], ReconstructionError>)
    requires
        kernels::callable(*kernels),
    ensures
        forall|rule: spec_fn(Kernel, Seq<i32>) -> Option<Seq<i32>>| #[trigger]
            kernels::runs(*kernels, rule) ==> dequant::gives(
                result,
                first_inverse(low@, config@, rule),
            ),
{
    let (kernel, count, operation): (Kernel, usize, &'static str) = if config.block_columns == 4
        && config.block_rows == 4 {
        (Kernel::CoreTransform, 16, "inverse core transform")
    } else if config.block_columns == 2 && config.block_rows == 4 {
        (Kernel::ChromaTransform422, 8, "YUV422 first inverse transform")
    } else if config.block_columns == 2 && config.block_rows == 2 {
        (Kernel::ChromaTransform420, 4, "YUV420 first inverse transform")
    } else {
        return Err(
            ReconstructionError::InvalidPlaneGeometry("unsupported first-level transform shape"),
        );
    };
    let mut coefficients: [i32; 16] = [0;16];
    for index in 0..count
        invariant
            count <= 16,
            forall|place: int|
                0 <= place < 16 ==> #[trigger] coefficients@[place] == (if place < index {
                    low@[place]
                } else {
                    0
                }),
    {
        coefficients[index] = low[index];
    }
    assert(coefficients@ =~= kernels::padded(low@.take(count as int)));
    let values: [i32; 16] = match kernels(kernel, coefficients) {
        Some(values) => values,
        None => return Err(ReconstructionError::ArithmeticOverflow(operation)),
    };
    let mut output: [i32; 16] = low;
    for index in 0..count
        invariant
            count <= 16,
            forall|place: int|
                0 <= place < 16 ==> #[trigger] output@[place] == (if place < index {
                    values@[place]
                } else {
                    low@[place]
                }),
    {
        output[index] = values[index];
    }
    assert(output@ =~= with_first(low@, values@, count as int));
    if config.scale_after_first_transform {
        let ghost transformed = output@;
        for index in 0..count
            invariant
                count <= 16,
                transformed == with_first(low@, values@, count as int),
                first_transform(config.block_columns, config.block_rows) == Some(
                    (kernel, count as int, operation),
                ),
                config.scale_after_first_transform,
                forall|rule: spec_fn(Kernel, Seq<i32>) -> Option<Seq<i32>>| #[trigger]
                    kernels::runs(*kernels, rule) ==> rule(
                        kernel,
                        kernels::padded(low@.take(count as int)),
                    ) == Some(values@),
                forall|place: int|
                    0 <= place < index ==> fits_doubled(#[trigger] transformed[place]),
                forall|place: int|
                    0 <= place < 16 ==> #[trigger] output@[place] == (if place < index {
                        (2 * transformed[place]) as i32
                    } else {
                        transformed[place]
                    }),
        {
            match output[index].checked_mul(2) {
                Some(value) => {
                    output[index] = value;
                },
                None => {
                    assert(!fits_doubled(transformed[index as int]));
                    return Err(
                        ReconstructionError::ArithmeticOverflow("scaled chroma normalization"),
                    );
                },
            }
        }
        assert(output@ =~= doubled(transformed, count as int));
    }
    Ok(output)
}

/// The coefficients of a block, with the DC coefficient from the low-pass values.
pub open spec fn block_input(high: Seq<i32>, low: Seq<i32>, block: int) -> Seq<i32> {
    Seq::new(
        16,
        |index: int|
            if index == 0 {
                low[block]
            } else {
                high[16 * block + index]
            },
    )
}

/// The samples of a macroblock after the inverse transform of its first blocks.
pub open spec fn second_inverse(
    high: Seq<i32>,
    low: Seq<i32>,
    blocks: nat,
    rule: spec_fn(Kernel, Seq<i32>) -> Option<Seq<i32>>,
) -> Result<Seq<i32>, ReconstructionError>
    decreases blocks,
{
    if blocks == 0 {
        Ok(high)
    } else {
        let block = blocks - 1;
        match second_inverse(high, low, (blocks - 1) as nat, rule) {
            Err(error) => Err(error),
            Ok(earlier) => match rule(Kernel::CoreTransform, block_input(high, low, block)) {
                None => Err(ReconstructionError::ArithmeticOverflow("inverse core transform")),
                Some(values) => Ok(
                    Seq::new(
                        high.len(),
                        |index: int|
                            if 16 * block <= index < 16 * block + 16 {
                                values[index - 16 * block]
                            } else {
                                earlier[index]
                            },
                    ),
                ),
            },
        }
    }
}

/// Once a block cannot be transformed, later blocks do not matter; and blocks that were not
/// transformed keep their coefficients.
pub(crate) proof fn lemma_second_inverse(
    high: Seq<i32>,
    low: Seq<i32>,
    some: nat,
    blocks: nat,
    rule: spec_fn(Kernel, Seq<i32>) -> Option<Seq<i32>>,
)
    requires
        some <= blocks,
    ensures
        second_inverse(high, low, some, rule) is Err ==> second_inverse(high, low, blocks, rule)
            == second_inverse(high, low, some, rule),
        second_inverse(high, low, some, rule) is Ok ==> second_inverse(
            high,
            low,
            some,
            rule,
        )->Ok_0.len() == high.len() && forall|index: int|
            16 * some <= index < high.len() ==> second_inverse(high, low, some, rule)->Ok_0[index]
                == high[index],
    decreases blocks, some,
{
    if some < blocks {
        lemma_second_inverse(high, low, some, (blocks - 1) as nat, rule);
    }
    if some > 0 {
        lemma_second_inverse(high, low, (some - 1) as nat, some, rule);
    }
}

/// Returns the samples of a macroblock after the inverse transform of its blocks.
pub(crate) fn transform_macroblock<K: Fn(Kernel, [i32; 16]) -> Option<[i32; 16]>>(
    high: [i32; 256],
    low: &[i32; 16],
    blocks: usize,
    kernels: &K,
) -> (result: Result<[i32; 256], ReconstructionError>)
    requires
        kernels::callable(*kernels),
        blocks <= 16,
    ensures
        forall|rule: spec_fn(Kernel, Seq<i32>) -> Option<Seq<i32>>| #[trigger]
            kernels::runs(*kernels, rule) ==> dequant::gives(
                result,
                second_inverse(high@, low@, blocks as nat, rule),
            ),
{
    let mut output: [i32; 256] = high;
    for block in 0..blocks
        invariant
            kernels::callable(*kernels),
            blocks <= 16,
            forall|index: int| 16 * block <= index < 256 ==> output@[index] == high@[index],
            forall|rule: spec_fn(Kernel, Seq<i32>) -> Option<Seq<i32>>| #[trigger]
                kernels::runs(*kernels, rule) ==> second_inverse(high@, low@, block as nat, rule)
                    == Ok::<Seq<i32>, ReconstructionError>(output@),
    {
        let mut coefficients: [i32; 16] = [0;16];
        coefficients[0] = low[block];
        for index in 1..16usize
            invariant
                block < blocks <= 16,
                forall|index: int| 16 * block <= index < 256 ==> output@[index] == high@[index],
                forall|place: int|
                    0 <= place < index ==> #[trigger] coefficients@[place] == block_input(
                        high@,
                        low@,
                        block as int,
                    )[place],
        {
            coefficients[index] = output[16 * block + index];
        }
        assert(coefficients@ =~= block_input(high@, low@, block as int));
        proof {
            assert forall|rule: spec_fn(Kernel, Seq<i32>) -> Option<Seq<i32>>| #[trigger]
                kernels::runs(*kernels, rule) && second_inverse(
                    high@,
                    low@,
                    (block + 1) as nat,
                    rule,
                ) is Err implies second_inverse(high@, low@, blocks as nat, rule)
                == second_inverse(high@, low@, (block + 1) as nat, rule) by {
                lemma_second_inverse(high@, low@, (block + 1) as nat, blocks as nat, rule);
            }
        }
        let values: [i32; 16] = match kernels(Kernel::CoreTransform, coefficients) {
            Some(values) => values,
            None => return Err(ReconstructionError::ArithmeticOverflow("inverse core transform")),
        };
        let ghost earlier = output@;
        for index in 0..16usize
            invariant
                block < blocks <= 16,
                forall|place: int|
                    0 <= place < 256 ==> #[trigger] output@[place] == (if 16 * block <= place < 16
                        * block + index {
                        values@[place - 16 * block]
                    } else {
                        earlier[place]
                    }),
        {
            output[16 * block + index] = values[index];
        }
        proof {
            assert forall|rule: spec_fn(Kernel, Seq<i32>) -> Option<Seq<i32>>| #[trigger]
                kernels::runs(*kernels, rule) implies second_inverse(
                high@,
                low@,
                (block + 1) as nat,
                rule,
            ) == Ok::<Seq<i32>, ReconstructionError>(output@) by {
                assert(output@ =~= second_inverse(high@, low@, (block + 1) as nat, rule)->Ok_0);
            }
        }
    }
    Ok(output)
}

} // verus!
