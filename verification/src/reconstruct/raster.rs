//! Places of coefficients and samples: between macroblocks and planes.

use vstd::prelude::*;

verus! {

/// Shape of a component in macroblocks.
pub struct Shape {
    /// Macroblocks in a row.
    pub macroblocks_x: int,
    /// Rows of macroblocks.
    pub macroblocks_y: int,
    /// Blocks across a macroblock.
    pub block_columns: int,
    /// Blocks down a macroblock.
    pub block_rows: int,
}

impl Shape {
    /// Whether the shape is one that a component can have.
    pub open spec fn wf(self) -> bool {
        &&& self.macroblocks_x >= 1
        &&& self.macroblocks_y >= 1
        &&& 1 <= self.block_columns <= 4
        &&& 1 <= self.block_rows <= 4
    }

    /// Blocks in a row of the plane.
    pub open spec fn low_width(self) -> int {
        self.macroblocks_x * self.block_columns
    }

    /// Blocks in a column of the plane.
    pub open spec fn low_height(self) -> int {
        self.macroblocks_y * self.block_rows
    }

    /// Blocks in a macroblock.
    pub open spec fn blocks(self) -> int {
        self.block_columns * self.block_rows
    }

    /// Samples in a row of the plane.
    pub open spec fn width(self) -> int {
        self.macroblocks_x * (self.block_columns * 4)
    }

    /// Samples in a column of the plane.
    pub open spec fn height(self) -> int {
        self.macroblocks_y * (self.block_rows * 4)
    }
}

/// The shape with the given numbers of macroblocks and blocks.
pub open spec fn shape_of(
    macroblocks_x: usize,
    macroblocks_y: usize,
    block_columns: usize,
    block_rows: usize,
) -> Shape {
    Shape {
        macroblocks_x: macroblocks_x as int,
        macroblocks_y: macroblocks_y as int,
        block_columns: block_columns as int,
        block_rows: block_rows as int,
    }
}

/// The plane with one value for each block, from the values of each macroblock.
pub open spec fn combined(low: Seq<Seq<i32>>, shape: Shape) -> Seq<i32> {
    Seq::new(
        (shape.low_height() * shape.low_width()) as nat,
        |index: int|
            block_value(low, shape, index / shape.low_width(), index % shape.low_width()),
    )
}

/// The value of the block in a row and a column of the plane.
pub open spec fn block_value(low: Seq<Seq<i32>>, shape: Shape, y: int, x: int) -> i32 {
    low[(y / shape.block_rows) * shape.macroblocks_x + x / shape.block_columns][(y
        % shape.block_rows) * shape.block_columns + x % shape.block_columns]
}

/// The place in the plane of a block of a macroblock.
pub open spec fn block_place(shape: Shape, macroblock: int, block: int) -> int {
    ((macroblock / shape.macroblocks_x) * shape.block_rows + block / shape.block_columns)
        * shape.low_width() + ((macroblock % shape.macroblocks_x) * shape.block_columns + block
        % shape.block_columns)
}

/// The values of each macroblock, from the plane with one value for each block.
pub open spec fn divided(plane: Seq<i32>, low: Seq<Seq<i32>>, shape: Shape) -> Seq<Seq<i32>> {
    Seq::new(
        low.len(),
        |macroblock: int|
            Seq::new(
                16,
                |block: int|
                    if block < shape.blocks() {
                        plane[block_place(shape, macroblock, block)]
                    } else {
                        low[macroblock][block]
                    },
            ),
    )
}

/// The sample in a row and a column of the plane: macroblocks hold blocks, and blocks hold
/// samples, row by row.
pub open spec fn sample_value(high: Seq<Seq<i32>>, shape: Shape, y: int, x: int) -> i32 {
    let macroblock = (y / (4 * shape.block_rows)) * shape.macroblocks_x + x / (4
        * shape.block_columns);
    let block = ((y % (4 * shape.block_rows)) / 4) * shape.block_columns + (x % (4
        * shape.block_columns)) / 4;
    high[macroblock][16 * block + 4 * (y % 4) + x % 4]
}

/// The plane of samples, from the samples of each macroblock.
pub open spec fn rastered(high: Seq<Seq<i32>>, shape: Shape) -> Seq<i32> {
    Seq::new(
        (shape.height() * shape.width()) as nat,
        |index: int| sample_value(high, shape, index / shape.width(), index % shape.width()),
    )
}

/// Arrays as sequences.
pub open spec fn sequences<const N: usize>(arrays: Seq<[i32; N]>) -> Seq<Seq<i32>> {
    Seq::new(arrays.len(), |index: int| arrays[index]@)
}

/// A quotient and a remainder from their parts.
pub(crate) proof fn lemma_parts(quotient: int, remainder: int, divisor: int)
    requires
        0 <= remainder < divisor,
    ensures
        (quotient * divisor + remainder) / divisor == quotient,
        (quotient * divisor + remainder) % divisor == remainder,
{
    vstd::arithmetic::div_mod::lemma_fundamental_div_mod_converse(
        quotient * divisor + remainder,
        divisor,
        quotient,
        remainder,
    );
}

/// The quotient of a place in an extent of whole units.
pub(crate) proof fn lemma_quotient(value: int, unit: int, count: int)
    requires
        unit > 0,
        0 <= value < count * unit,
    ensures
        0 <= value / unit < count,
        0 <= value % unit < unit,
        value == (value / unit) * unit + value % unit,
{
    vstd::arithmetic::div_mod::lemma_fundamental_div_mod(value, unit);
    assert(unit * (value / unit) == (value / unit) * unit) by (nonlinear_arith);
    assert(0 <= value / unit < count) by (nonlinear_arith)
        requires
            unit > 0,
            0 <= value < count * unit,
            value == (value / unit) * unit + value % unit,
            0 <= value % unit < unit,
    ;
}

/// The macroblock and the block at a place of the plane.
pub(crate) proof fn lemma_block_at(shape: Shape, y: int, x: int)
    requires
        shape.wf(),
        0 <= y < shape.low_height(),
        0 <= x < shape.low_width(),
    ensures
        0 <= y / shape.block_rows < shape.macroblocks_y,
        0 <= x / shape.block_columns < shape.macroblocks_x,
        0 <= (y / shape.block_rows) * shape.macroblocks_x + x / shape.block_columns
            < shape.macroblocks_y * shape.macroblocks_x,
        0 <= (y % shape.block_rows) * shape.block_columns + x % shape.block_columns
            < shape.blocks() <= 16,
{
    let row = y / shape.block_rows;
    let column = x / shape.block_columns;
    lemma_quotient(y, shape.block_rows, shape.macroblocks_y);
    lemma_quotient(x, shape.block_columns, shape.macroblocks_x);
    lemma_row_major(row, column, shape.macroblocks_y, shape.macroblocks_x);
    lemma_row_major(
        y % shape.block_rows,
        x % shape.block_columns,
        shape.block_rows,
        shape.block_columns,
    );
    assert(shape.block_columns * shape.block_rows <= 16) by (nonlinear_arith)
        requires
            1 <= shape.block_columns <= 4,
            1 <= shape.block_rows <= 4,
    ;
    assert(shape.block_columns * shape.block_rows == shape.block_rows * shape.block_columns)
        by (nonlinear_arith);
}

/// A place in a grid, row by row.
pub(crate) proof fn lemma_row_major(row: int, column: int, rows: int, columns: int)
    requires
        0 <= row < rows,
        0 <= column < columns,
    ensures
        0 <= row * columns,
        0 <= row * columns + column < rows * columns,
{
    assert(0 <= row * columns && row * columns + columns <= rows * columns) by (nonlinear_arith)
        requires
            0 <= row,
            row + 1 <= rows,
            0 < columns,
    ;
}

/// The place in the plane of a block of a macroblock is one of the plane, in the row and the column
/// that belong to the macroblock and the block.
pub(crate) proof fn lemma_block_place(shape: Shape, macroblock: int, block: int)
    requires
        shape.wf(),
        0 <= macroblock < shape.macroblocks_y * shape.macroblocks_x,
        0 <= block < shape.blocks(),
    ensures
        ({
            let y = (macroblock / shape.macroblocks_x) * shape.block_rows + block
                / shape.block_columns;
            let x = (macroblock % shape.macroblocks_x) * shape.block_columns + block
                % shape.block_columns;
            &&& 0 <= macroblock / shape.macroblocks_x < shape.macroblocks_y
            &&& 0 <= macroblock % shape.macroblocks_x < shape.macroblocks_x
            &&& 0 <= block / shape.block_columns < shape.block_rows
            &&& 0 <= block % shape.block_columns < shape.block_columns
            &&& 0 <= (macroblock / shape.macroblocks_x) * shape.block_rows
            &&& 0 <= (macroblock % shape.macroblocks_x) * shape.block_columns
            &&& 0 <= y < shape.low_height()
            &&& 0 <= x < shape.low_width()
            &&& 0 <= y * shape.low_width()
            &&& y <= y * shape.low_width()
            &&& 0 <= block_place(shape, macroblock, block) < shape.low_height()
                * shape.low_width()
            &&& block_place(shape, macroblock, block) == y * shape.low_width() + x
        }),
{
    let row = macroblock / shape.macroblocks_x;
    let column = macroblock % shape.macroblocks_x;
    lemma_quotient(macroblock, shape.macroblocks_x, shape.macroblocks_y);
    assert(shape.blocks() == shape.block_rows * shape.block_columns) by (nonlinear_arith)
        requires
            shape.blocks() == shape.block_columns * shape.block_rows,
    ;
    lemma_quotient(block, shape.block_columns, shape.block_rows);
    let y = row * shape.block_rows + block / shape.block_columns;
    let x = column * shape.block_columns + block % shape.block_columns;
    lemma_row_major(row, block / shape.block_columns, shape.macroblocks_y, shape.block_rows);
    lemma_row_major(column, block % shape.block_columns, shape.macroblocks_x, shape.block_columns);
    lemma_row_major(y, x, shape.low_height(), shape.low_width());
    assert(y <= y * shape.low_width()) by (nonlinear_arith)
        requires
            y >= 0,
            shape.low_width() >= 1,
    ;
}

/// Combining the values of macroblocks into a plane and dividing the plane again gives the same
/// values.
pub proof fn lemma_divide_combined(low: Seq<Seq<i32>>, shape: Shape)
    requires
        shape.wf(),
        low.len() == shape.macroblocks_y * shape.macroblocks_x,
        forall|macroblock: int| 0 <= macroblock < low.len() ==> #[trigger] low[macroblock].len() == 16,
    ensures
        divided(combined(low, shape), low, shape) == low,
{
    let plane = combined(low, shape);
    let back = divided(plane, low, shape);
    assert forall|macroblock: int| 0 <= macroblock < low.len() implies #[trigger] back[macroblock]
        == low[macroblock] by {
        assert forall|block: int| 0 <= block < 16 implies #[trigger] back[macroblock][block]
            == low[macroblock][block] by {
            if block < shape.blocks() {
                let row = macroblock / shape.macroblocks_x;
                let column = macroblock % shape.macroblocks_x;
                let y = row * shape.block_rows + block / shape.block_columns;
                let x = column * shape.block_columns + block % shape.block_columns;
                lemma_block_place(shape, macroblock, block);
                lemma_parts(y, x, shape.low_width());
                lemma_parts(row, block / shape.block_columns, shape.block_rows);
                lemma_parts(column, block % shape.block_columns, shape.block_columns);
                lemma_quotient(macroblock, shape.macroblocks_x, shape.macroblocks_y);
                assert(shape.blocks() == shape.block_rows * shape.block_columns)
                    by (nonlinear_arith)
                    requires
                        shape.blocks() == shape.block_columns * shape.block_rows,
                ;
                lemma_quotient(block, shape.block_columns, shape.block_rows);
                assert(plane[block_place(shape, macroblock, block)] == block_value(
                    low,
                    shape,
                    y,
                    x,
                ));
            }
        }
        assert(low[macroblock].len() == 16);
        assert(back[macroblock] =~= low[macroblock]);
    }
    assert(back =~= low);
}

/// Combines the values of macroblocks into a plane with one value for each block.
pub(crate) fn combine_low_pass_into(
    low: &Vec<[i32; 16]>,
    macroblocks_x: usize,
    macroblocks_y: usize,
    block_columns: usize,
    block_rows: usize,
    plane: &mut Vec<i32>,
)
    requires
        shape_of(macroblocks_x, macroblocks_y, block_columns, block_rows).wf(),
        low@.len() == macroblocks_y * macroblocks_x,
        (macroblocks_y * block_rows) * (macroblocks_x * block_columns) <= usize::MAX,
    ensures
        final(plane)@ == combined(
            sequences(low@),
            shape_of(macroblocks_x, macroblocks_y, block_columns, block_rows),
        ),
{
    let ghost shape = shape_of(macroblocks_x, macroblocks_y, block_columns, block_rows);
    proof {
        assert(macroblocks_x * block_columns >= 1 && macroblocks_y * block_rows >= 1)
            by (nonlinear_arith)
            requires
                macroblocks_x >= 1,
                macroblocks_y >= 1,
                block_columns >= 1,
                block_rows >= 1,
        ;
        lemma_factors(macroblocks_y * block_rows, macroblocks_x * block_columns);
    }
    let width: usize = macroblocks_x * block_columns;
    let height: usize = macroblocks_y * block_rows;
    let count: usize = low.len();
    plane.clear();
    plane.reserve(height * width);
    proof {
        let whole = combined(sequences(low@), shape);
        lemma_row_major(0, 0, height as int, width as int);
        assert(0 * width == 0) by (nonlinear_arith);
        assert(plane@ =~= whole.take(0));
    }
    for y in 0..height
        invariant
            shape.wf(),
            shape == shape_of(macroblocks_x, macroblocks_y, block_columns, block_rows),
            width == shape.low_width(),
            height == shape.low_height(),
            width >= 1,
            count == low@.len(),
            count == macroblocks_y * macroblocks_x,
            plane@ == combined(sequences(low@), shape).take(y * width),
    {
        proof {
            lemma_row_major(y as int, 0, height as int, width as int);
            assert((y + 1) * width == y * width + width) by (nonlinear_arith);
        }
        for x in 0..width
            invariant
                shape.wf(),
                shape == shape_of(macroblocks_x, macroblocks_y, block_columns, block_rows),
                width == shape.low_width(),
                height == shape.low_height(),
                y < height,
                width >= 1,
                count == low@.len(),
                count == macroblocks_y * macroblocks_x,
                plane@ == combined(sequences(low@), shape).take(y * width + x),
        {
            proof {
                lemma_block_at(shape, y as int, x as int);
                lemma_row_major(y as int, x as int, height as int, width as int);
                lemma_parts(y as int, x as int, width as int);
                lemma_quotient(y as int, shape.block_rows, shape.macroblocks_y);
                lemma_row_major(
                    y as int / shape.block_rows,
                    0,
                    shape.macroblocks_y,
                    shape.macroblocks_x,
                );
                lemma_row_major(
                    y as int % shape.block_rows,
                    0,
                    shape.block_rows,
                    shape.block_columns,
                );
            }
            let macroblock: usize = (y / block_rows) * macroblocks_x + x / block_columns;
            let block: usize = (y % block_rows) * block_columns + x % block_columns;
            plane.push(low[macroblock][block]);
            proof {
                let whole = combined(sequences(low@), shape);
                assert(whole[y * width + x] == block_value(
                    sequences(low@),
                    shape,
                    y as int,
                    x as int,
                ));
                assert(plane@ =~= whole.take(y * width + x + 1));
            }
        }
    }
    assert(plane@ =~= combined(sequences(low@), shape));
}

/// Factors of a product are not above it.
pub(crate) proof fn lemma_factors(left: int, right: int)
    requires
        left >= 1,
        right >= 1,
    ensures
        left <= left * right,
        right <= left * right,
{
    assert(left <= left * right && right <= left * right) by (nonlinear_arith)
        requires
            left >= 1,
            right >= 1,
    ;
}

/// Divides a plane with one value for each block into the values of macroblocks.
pub(crate) fn scatter_low_pass(
    plane: &Vec<i32>,
    low: &mut Vec<[i32; 16]>,
    macroblocks_x: usize,
    macroblocks_y: usize,
    block_columns: usize,
    block_rows: usize,
)
    requires
        shape_of(macroblocks_x, macroblocks_y, block_columns, block_rows).wf(),
        old(low)@.len() == macroblocks_y * macroblocks_x,
        plane@.len() == (macroblocks_y * block_rows) * (macroblocks_x * block_columns),
    ensures
        final(low)@.len() == old(low)@.len(),
        sequences(final(low)@) == divided(
            plane@,
            sequences(old(low)@),
            shape_of(macroblocks_x, macroblocks_y, block_columns, block_rows),
        ),
{
    let ghost shape = shape_of(macroblocks_x, macroblocks_y, block_columns, block_rows);
    let ghost before = sequences(low@);
    let length: usize = plane.len();
    proof {
        assert(macroblocks_x * block_columns >= 1 && macroblocks_y * block_rows >= 1)
            by (nonlinear_arith)
            requires
                macroblocks_x >= 1,
                macroblocks_y >= 1,
                block_columns >= 1,
                block_rows >= 1,
        ;
        lemma_factors(macroblocks_y * block_rows, macroblocks_x * block_columns);
        assert(block_columns * block_rows <= 16) by (nonlinear_arith)
            requires
                1 <= block_columns <= 4,
                1 <= block_rows <= 4,
        ;
    }
    let width: usize = macroblocks_x * block_columns;
    let blocks: usize = block_columns * block_rows;
    let count: usize = low.len();
    for macroblock in 0..count
        invariant
            shape.wf(),
            shape == shape_of(macroblocks_x, macroblocks_y, block_columns, block_rows),
            width == shape.low_width(),
            blocks == shape.blocks(),
            blocks <= 16,
            count == low@.len(),
            count == shape.macroblocks_y * shape.macroblocks_x,
            length == plane@.len(),
            length == shape.low_height() * shape.low_width(),
            before.len() == count,
            forall|index: int|
                0 <= index < count ==> #[trigger] sequences(low@)[index] == (if index < macroblock {
                    divided(plane@, before, shape)[index]
                } else {
                    before[index]
                }),
    {
        let mut values: [i32; 16] = low[macroblock];
        assert(sequences(low@)[macroblock as int] == values@);
        for block in 0..blocks
            invariant
                shape.wf(),
                shape == shape_of(macroblocks_x, macroblocks_y, block_columns, block_rows),
                width == shape.low_width(),
                blocks == shape.blocks(),
                blocks <= 16,
                macroblock < shape.macroblocks_y * shape.macroblocks_x,
                length == plane@.len(),
                length == shape.low_height() * shape.low_width(),
                forall|place: int|
                    0 <= place < 16 ==> #[trigger] values@[place] == (if place < block {
                        plane@[block_place(shape, macroblock as int, place)]
                    } else {
                        before[macroblock as int][place]
                    }),
        {
            proof {
                lemma_block_place(shape, macroblock as int, block as int);
            }
            let y: usize = (macroblock / macroblocks_x) * block_rows + block / block_columns;
            let x: usize = (macroblock % macroblocks_x) * block_columns + block % block_columns;
            values[block] = plane[y * width + x];
        }
        let ghost earlier = low@;
        low.set(macroblock, values);
        proof {
            assert(values@ =~= divided(plane@, before, shape)[macroblock as int]);
            assert forall|index: int| 0 <= index < count implies #[trigger] sequences(low@)[index]
                == (if index <= macroblock {
                divided(plane@, before, shape)[index]
            } else {
                before[index]
            }) by {
                if index != macroblock {
                    assert(sequences(low@)[index] == sequences(earlier)[index]);
                }
            }
        }
    }
    assert(sequences(low@) =~= divided(plane@, before, shape));
}

/// The macroblock, the block and the place in the block of a sample of the plane.
pub(crate) proof fn lemma_sample_at(shape: Shape, y: int, x: int)
    requires
        shape.wf(),
        0 <= y < shape.height(),
        0 <= x < shape.width(),
    ensures
        0 <= y / (4 * shape.block_rows) < shape.macroblocks_y,
        0 <= x / (4 * shape.block_columns) < shape.macroblocks_x,
        0 <= (y / (4 * shape.block_rows)) * shape.macroblocks_x,
        0 <= (y / (4 * shape.block_rows)) * shape.macroblocks_x + x / (4 * shape.block_columns)
            < shape.macroblocks_y * shape.macroblocks_x,
        0 <= (y % (4 * shape.block_rows)) / 4 < shape.block_rows,
        0 <= (x % (4 * shape.block_columns)) / 4 < shape.block_columns,
        0 <= ((y % (4 * shape.block_rows)) / 4) * shape.block_columns,
        0 <= ((y % (4 * shape.block_rows)) / 4) * shape.block_columns + (x % (4
            * shape.block_columns)) / 4 < shape.blocks() <= 16,
{
    assert(shape.block_columns * 4 == 4 * shape.block_columns);
    assert(shape.block_rows * 4 == 4 * shape.block_rows);
    lemma_quotient(y, 4 * shape.block_rows, shape.macroblocks_y);
    lemma_quotient(x, 4 * shape.block_columns, shape.macroblocks_x);
    lemma_row_major(
        y / (4 * shape.block_rows),
        x / (4 * shape.block_columns),
        shape.macroblocks_y,
        shape.macroblocks_x,
    );
    lemma_row_major(
        (y % (4 * shape.block_rows)) / 4,
        (x % (4 * shape.block_columns)) / 4,
        shape.block_rows,
        shape.block_columns,
    );
    assert(shape.block_columns * shape.block_rows <= 16) by (nonlinear_arith)
        requires
            1 <= shape.block_columns <= 4,
            1 <= shape.block_rows <= 4,
    ;
    assert(shape.block_columns * shape.block_rows == shape.block_rows * shape.block_columns)
        by (nonlinear_arith);
}

/// Places the samples of macroblocks in a plane.
pub(crate) fn raster_samples_into(
    high: &Vec<[i32; 256]>,
    macroblocks_x: usize,
    macroblocks_y: usize,
    block_columns: usize,
    block_rows: usize,
    plane: &mut Vec<i32>,
)
    requires
        shape_of(macroblocks_x, macroblocks_y, block_columns, block_rows).wf(),
        high@.len() == macroblocks_y * macroblocks_x,
        (macroblocks_y * (block_rows * 4)) * (macroblocks_x * (block_columns * 4)) <= usize::MAX,
    ensures
        final(plane)@ == rastered(
            sequences(high@),
            shape_of(macroblocks_x, macroblocks_y, block_columns, block_rows),
        ),
{
    let ghost shape = shape_of(macroblocks_x, macroblocks_y, block_columns, block_rows);
    proof {
        assert(macroblocks_x * (block_columns * 4) >= 1 && macroblocks_y * (block_rows * 4) >= 1)
            by (nonlinear_arith)
            requires
                macroblocks_x >= 1,
                macroblocks_y >= 1,
                block_columns >= 1,
                block_rows >= 1,
        ;
        lemma_factors(macroblocks_y * (block_rows * 4), macroblocks_x * (block_columns * 4));
    }
    let width: usize = macroblocks_x * (block_columns * 4);
    let height: usize = macroblocks_y * (block_rows * 4);
    let count: usize = high.len();
    plane.clear();
    plane.reserve(height * width);
    proof {
        let whole = rastered(sequences(high@), shape);
        lemma_row_major(0, 0, height as int, width as int);
        assert(0 * width == 0) by (nonlinear_arith);
        assert(plane@ =~= whole.take(0));
    }
    for y in 0..height
        invariant
            shape.wf(),
            shape == shape_of(macroblocks_x, macroblocks_y, block_columns, block_rows),
            width == shape.width(),
            height == shape.height(),
            width >= 1,
            count == high@.len(),
            count == macroblocks_y * macroblocks_x,
            plane@ == rastered(sequences(high@), shape).take(y * width),
    {
        proof {
            lemma_row_major(y as int, 0, height as int, width as int);
            assert((y + 1) * width == y * width + width) by (nonlinear_arith);
        }
        for x in 0..width
            invariant
                shape.wf(),
                shape == shape_of(macroblocks_x, macroblocks_y, block_columns, block_rows),
                width == shape.width(),
                height == shape.height(),
                y < height,
                width >= 1,
                count == high@.len(),
                count == macroblocks_y * macroblocks_x,
                plane@ == rastered(sequences(high@), shape).take(y * width + x),
        {
            proof {
                lemma_sample_at(shape, y as int, x as int);
                lemma_row_major(y as int, x as int, height as int, width as int);
                lemma_parts(y as int, x as int, width as int);
            }
            let macroblock: usize = (y / (4 * block_rows)) * macroblocks_x + x / (4
                * block_columns);
            let block: usize = ((y % (4 * block_rows)) / 4) * block_columns + (x % (4
                * block_columns)) / 4;
            plane.push(high[macroblock][16 * block + 4 * (y % 4) + x % 4]);
            proof {
                let whole = rastered(sequences(high@), shape);
                assert(whole[y * width + x] == sample_value(
                    sequences(high@),
                    shape,
                    y as int,
                    x as int,
                ));
                assert(plane@ =~= whole.take(y * width + x + 1));
            }
        }
    }
    assert(plane@ =~= rastered(sequences(high@), shape));
}

} // verus!
