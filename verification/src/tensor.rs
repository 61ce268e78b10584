//! Dense row-major tensors over any copyable element type.
//!
//! The tensor owns its shape, its row-major strides and its elements. Every
//! operation here is exact about which element goes where; the arithmetic on
//! elements is handed in by the caller as a closure, and the contracts state
//! the result in terms of that closure.
use vstd::prelude::*;

use crate::func::{apply2, apply3, is_function2, is_function3, lemma_apply2, lemma_apply3};
use crate::shape::{
    calculate_strides, element_count, flat_index, flat_position, indices_in_bounds,
    lemma_flat_position_in_bounds, lemma_flat_position_injective,
    row_major_strides, shape_product, tail_product, valid_shape,
};

verus! {

/// A dense tensor stored in row-major order.
#[derive(Clone, Debug)]
pub struct Tensor<T> {
    data: Vec<T>,
    shape: Vec<usize>,
    strides: Vec<usize>,
}

impl<T> View for Tensor<T> {
    type V = Seq<T>;

    /// The elements in row-major order.
    closed spec fn view(&self) -> Seq<T> {
        self.data@
    }
}

impl<T> Tensor<T> {
    /// The dimensions of the tensor.
    pub closed spec fn dims(&self) -> Seq<usize> {
        self.shape@
    }

    /// The strides that the tensor stores.
    pub closed spec fn stride_seq(&self) -> Seq<usize> {
        self.strides@
    }

    /// A valid shape, as many elements as it asks for, and row-major strides.
    pub open spec fn wf(&self) -> bool {
        &&& valid_shape(self.dims())
        &&& self@.len() == shape_product(self.dims())
        &&& self.stride_seq() == row_major_strides(self.dims())
    }

    /// The element at row `row`, column `column` of a matrix.
    pub open spec fn at2(&self, row: int, column: int) -> T {
        self@[row * self.dims()[1] + column]
    }
}

/// Row `row`, column `column` of a matrix is in range of a `rows` by
/// `columns` row-major buffer.
pub proof fn lemma_matrix_position(rows: int, columns: int, row: int, column: int)
    requires
        0 <= row < rows,
        0 <= column < columns,
    ensures
        0 <= row * columns + column < rows * columns,
        row * columns <= rows * columns - columns,
{
    assert(0 <= row * columns + column < rows * columns) by (nonlinear_arith)
        requires
            0 <= row < rows,
            0 <= column < columns,
    ;
    assert(row * columns <= rows * columns - columns) by (nonlinear_arith)
        requires
            0 <= row < rows,
            0 <= column < columns,
    ;
}

/// Two different cells of a matrix have different positions.
pub proof fn lemma_matrix_positions_distinct(
    columns: int,
    row: int,
    column: int,
    other_row: int,
    other_column: int,
)
    requires
        0 <= row,
        0 <= other_row,
        0 <= column < columns,
        0 <= other_column < columns,
        row != other_row || column != other_column,
    ensures
        row * columns + column != other_row * columns + other_column,
{
    if row == other_row {
    } else if row < other_row {
        assert(row * columns + column < other_row * columns + other_column) by (nonlinear_arith)
            requires
                0 <= row < other_row,
                0 <= column < columns,
                0 <= other_column,
        ;
    } else {
        assert(other_row * columns + other_column < row * columns + column) by (nonlinear_arith)
            requires
                0 <= other_row < row,
                0 <= other_column < columns,
                0 <= column,
        ;
    }
}

/// The shape of a rank-2 tensor is the product of its two dimensions.
pub proof fn lemma_matrix_product(shape: Seq<usize>)
    requires
        shape.len() == 2,
    ensures
        shape_product(shape) == shape[0] * shape[1],
        row_major_strides(shape)[0] == shape[1],
        row_major_strides(shape)[1] == 1,
{
    assert(tail_product(shape, 2) == 1);
    assert(tail_product(shape, 1) == shape[1]);
    assert(tail_product(shape, 0) == shape[1] * shape[0]);
    assert(shape[1] * shape[0] == shape[0] * shape[1]) by (nonlinear_arith);
}

/// The shape of a rank-1 tensor is its one dimension.
pub proof fn lemma_vector_product(shape: Seq<usize>)
    requires
        shape.len() == 1,
    ensures
        shape_product(shape) == shape[0],
        row_major_strides(shape)[0] == 1,
{
    assert(tail_product(shape, 1) == 1);
    assert(tail_product(shape, 0) == shape[0]);
}

/// The row-major elements of a `rows` by `columns` matrix given cell by
/// cell.
pub open spec fn matrix_of<T>(rows: int, columns: int, cell: spec_fn(int, int) -> T) -> Seq<T> {
    Seq::new((rows * columns) as nat, |p: int| cell(p / columns, p % columns))
}

/// Cell (`row`, `column`) of `matrix_of` is `cell(row, column)`.
pub proof fn lemma_matrix_of_cell<T>(
    rows: int,
    columns: int,
    cell: spec_fn(int, int) -> T,
    row: int,
    column: int,
)
    requires
        0 <= row < rows,
        0 <= column < columns,
    ensures
        matrix_of(rows, columns, cell).len() == rows * columns,
        0 <= row * columns + column < rows * columns,
        matrix_of(rows, columns, cell)[row * columns + column] == cell(row, column),
{
    lemma_matrix_position(rows, columns, row, column);
    let p = row * columns + column;
    vstd::arithmetic::div_mod::lemma_fundamental_div_mod_converse(p, columns, row, column);
}

/// A row-major sequence whose every cell is `cell(row, column)` is
/// `matrix_of` that function.
pub proof fn lemma_matrix_of<T>(values: Seq<T>, rows: int, columns: int, cell: spec_fn(int, int) -> T)
    requires
        rows >= 0,
        columns > 0,
        values.len() == rows * columns,
        forall|row: int, column: int|
            0 <= row < rows && 0 <= column < columns ==> #[trigger] values[row * columns + column]
                == cell(row, column),
    ensures
        values == matrix_of(rows, columns, cell),
{
    assert(rows * columns >= 0) by (nonlinear_arith)
        requires
            rows >= 0,
            columns > 0,
    ;
    let expected = matrix_of(rows, columns, cell);
    assert forall|p: int| 0 <= p < values.len() implies values[p] == expected[p] by {
        let row = p / columns;
        let column = p % columns;
        vstd::arithmetic::div_mod::lemma_fundamental_div_mod(p, columns);
        vstd::arithmetic::div_mod::lemma_mod_pos_bound(p, columns);
        vstd::arithmetic::div_mod::lemma_div_pos_is_pos(p, columns);
        assert(row * columns + column == p) by (nonlinear_arith)
            requires
                p == columns * row + column,
        ;
        assert(row < rows) by (nonlinear_arith)
            requires
                row * columns + column == p,
                p < rows * columns,
                0 <= column,
                columns > 0,
        ;
        assert(values[row * columns + column] == cell(row, column));
    }
    assert(values =~= expected);
}

/// The elements of the transpose of a `rows` by `columns` row-major matrix,
/// in row-major order.
pub open spec fn transpose_values<T>(values: Seq<T>, rows: int, columns: int) -> Seq<T> {
    Seq::new((columns * rows) as nat, |p: int| values[(p % rows) * columns + p / rows])
}

/// The left fold of `plus` over the first `count` values, starting at `zero`.
pub open spec fn fold_values<T, F: Fn(T, T) -> T>(plus: F, zero: T, values: Seq<T>, count: nat) -> T
    decreases count,
{
    if count == 0 {
        zero
    } else {
        apply2(plus, fold_values(plus, zero, values, (count - 1) as nat), values[count - 1])
    }
}

/// The left fold of `plus` down column `column` of a row-major matrix with
/// `columns` columns, over its first `count` rows.
pub open spec fn column_fold<T, F: Fn(T, T) -> T>(
    plus: F,
    zero: T,
    values: Seq<T>,
    columns: int,
    column: int,
    count: nat,
) -> T
    decreases count,
{
    if count == 0 {
        zero
    } else {
        apply2(
            plus,
            column_fold(plus, zero, values, columns, column, (count - 1) as nat),
            values[(count - 1) * columns + column],
        )
    }
}

/// The column that a left-to-right scan of the `count` values starting at
/// `start` settles on: it starts at column 0 and moves to a later column
/// exactly when `greater` holds of that column's value and the best so far.
pub open spec fn scan_argmax<T, F: Fn(T, T) -> bool>(
    greater: F,
    values: Seq<T>,
    start: int,
    count: nat,
) -> int
    decreases count,
{
    if count <= 1 {
        0
    } else {
        let best = scan_argmax(greater, values, start, (count - 1) as nat);
        if apply2(greater, values[start + count - 1], values[start + best]) {
            count - 1
        } else {
            best
        }
    }
}

/// The scan picks one of the columns it looked at.
pub proof fn lemma_scan_argmax_in_range<T, F: Fn(T, T) -> bool>(
    greater: F,
    values: Seq<T>,
    start: int,
    count: nat,
)
    requires
        count >= 1,
    ensures
        0 <= scan_argmax(greater, values, start, count) < count,
    decreases count,
{
    if count > 1 {
        lemma_scan_argmax_in_range(greater, values, start, (count - 1) as nat);
    }
}

/// The left fold of `multiply_add` over the shared index `k = 0..count`,
/// starting at `zero`; each step takes the accumulator, the left matrix's
/// element at (`row`, `k`) and the right matrix's element at (`k`, `column`).
/// `inner` is the left matrix's column count and `columns` the right's.
pub open spec fn dot_fold<T, F: Fn(T, T, T) -> T>(
    multiply_add: F,
    zero: T,
    left: Seq<T>,
    right: Seq<T>,
    inner: int,
    columns: int,
    row: int,
    column: int,
    count: nat,
) -> T
    decreases count,
{
    if count == 0 {
        zero
    } else {
        apply3(
            multiply_add,
            dot_fold(multiply_add, zero, left, right, inner, columns, row, column, (count - 1) as nat),
            left[row * inner + (count - 1)],
            right[(count - 1) * columns + column],
        )
    }
}

/// The element at row `row`, column `column` of a row-major buffer with
/// `columns` columns.
pub open spec fn cell<T>(values: Seq<T>, columns: int, row: int, column: int) -> T {
    values[row * columns + column]
}

/// A cell outside the columns `start..end` of row `row`, or in another row,
/// lies outside the flat span of those columns.
proof fn lemma_cell_outside_span(columns: int, row: int, start: int, end: int, r: int, c: int)
    requires
        0 <= start <= end <= columns,
        0 <= row,
        0 <= r,
        0 <= c < columns,
        r != row || c < start || c >= end,
    ensures
        r * columns + c < row * columns + start || r * columns + c >= row * columns + end,
{
    if r < row {
        assert(r * columns + c < row * columns) by (nonlinear_arith)
            requires
                0 <= r < row,
                0 <= c < columns,
        ;
    } else if r > row {
        assert(r * columns + c >= row * columns + columns) by (nonlinear_arith)
            requires
                0 <= row < r,
                0 <= c,
                columns >= 0,
        ;
    }
}

/// Adds the shared index `shared` to the cells of row `row` in the columns
/// `column_start..column_end`.
fn accumulate_span<T: Copy, F: Fn(T, T, T) -> T>(
    left: &Vec<T>,
    right: &Vec<T>,
    output: &mut Vec<T>,
    multiply_add: &F,
    zero: Ghost<T>,
    rows: usize,
    inner: usize,
    columns: usize,
    row: usize,
    shared: usize,
    column_start: usize,
    column_end: usize,
)
    requires
        left@.len() == rows * inner,
        right@.len() == inner * columns,
        old(output)@.len() == rows * columns,
        rows * inner <= usize::MAX,
        inner * columns <= usize::MAX,
        rows * columns <= usize::MAX,
        row < rows,
        shared < inner,
        column_start <= column_end <= columns,
        columns > 0,
        is_function3(*multiply_add),
        forall|c: int|
            column_start <= c < column_end ==> #[trigger] cell(old(output)@, columns as int, row as int, c)
                == dot_fold(
                *multiply_add,
                zero@,
                left@,
                right@,
                inner as int,
                columns as int,
                row as int,
                c,
                shared as nat,
            ),
    ensures
        final(output)@.len() == old(output)@.len(),
        forall|c: int|
            column_start <= c < column_end ==> #[trigger] cell(final(output)@, columns as int, row as int, c)
                == dot_fold(
                *multiply_add,
                zero@,
                left@,
                right@,
                inner as int,
                columns as int,
                row as int,
                c,
                (shared + 1) as nat,
            ),
        forall|p: int|
            0 <= p < old(output)@.len() && (p < row * columns + column_start || p >= row * columns
                + column_end) ==> #[trigger] final(output)@[p] == old(output)@[p],
{
    proof {
        lemma_matrix_position(rows as int, inner as int, row as int, shared as int);
        lemma_matrix_position(rows as int, columns as int, row as int, 0);
        lemma_matrix_position(inner as int, columns as int, shared as int, 0);
    }
    let left_value = left[row * inner + shared];
    let output_row_start = row * columns;
    let right_row_start = shared * columns;
    let mut column = column_start;
    while column < column_end
        invariant
            left@.len() == rows * inner,
            right@.len() == inner * columns,
            output@.len() == rows * columns,
            old(output)@.len() == rows * columns,
            rows * inner <= usize::MAX,
            inner * columns <= usize::MAX,
            rows * columns <= usize::MAX,
            row < rows,
            shared < inner,
            column_start <= column <= column_end,
            column_end <= columns,
            output_row_start == row * columns,
            right_row_start == shared * columns,
            left_value == left@[row * inner + shared],
            is_function3(*multiply_add),
            forall|c: int|
                column <= c < column_end ==> #[trigger] cell(output@, columns as int, row as int, c)
                    == dot_fold(
                    *multiply_add,
                    zero@,
                    left@,
                    right@,
                    inner as int,
                    columns as int,
                    row as int,
                    c,
                    shared as nat,
                ),
            forall|c: int|
                column_start <= c < column ==> #[trigger] cell(output@, columns as int, row as int, c)
                    == dot_fold(
                    *multiply_add,
                    zero@,
                    left@,
                    right@,
                    inner as int,
                    columns as int,
                    row as int,
                    c,
                    (shared + 1) as nat,
                ),
            forall|p: int|
                0 <= p < old(output)@.len() && (p < row * columns + column_start || p >= row
                    * columns + column_end) ==> #[trigger] output@[p] == old(output)@[p],
        decreases column_end - column,
    {
        proof {
            lemma_matrix_position(rows as int, columns as int, row as int, column as int);
            lemma_matrix_position(inner as int, columns as int, shared as int, column as int);
        }
        let position = output_row_start + column;
        let current = output[position];
        let right_value = right[right_row_start + column];
        let next = multiply_add(current, left_value, right_value);
        proof {
            lemma_apply3(*multiply_add, current, left_value, right_value, next);
            assert(cell(output@, columns as int, row as int, column as int) == current);
        }
        let ghost before = output@;
        output.set(position, next);
        proof {
            assert forall|p: int|
                0 <= p < old(output)@.len() && (p < row * columns + column_start || p >= row
                    * columns + column_end) implies #[trigger] output@[p] == old(output)@[p] by {
                assert(p != position);
                assert(output@[p] == before[p]);
            }
            assert forall|c: int|
                column + 1 <= c < column_end implies #[trigger] cell(output@, columns as int, row as int, c)
                    == dot_fold(
                    *multiply_add,
                    zero@,
                    left@,
                    right@,
                    inner as int,
                    columns as int,
                    row as int,
                    c,
                    shared as nat,
                ) by {
                assert(cell(before, columns as int, row as int, c) == cell(output@, columns as int, row as int, c));
            }
            assert forall|c: int|
                column_start <= c < column + 1 implies #[trigger] cell(output@, columns as int, row as int, c)
                    == dot_fold(
                    *multiply_add,
                    zero@,
                    left@,
                    right@,
                    inner as int,
                    columns as int,
                    row as int,
                    c,
                    (shared + 1) as nat,
                ) by {
                if c < column {
                    assert(cell(before, columns as int, row as int, c) == cell(output@, columns as int, row as int, c));
                }
            }
        }
        column = column + 1;
    }
}

/// Every cell of the block `row_start..row_end` by `column_start..column_end`
/// holds the fold of its first `count` products.
pub open spec fn block_done<T, F: Fn(T, T, T) -> T>(
    values: Seq<T>,
    multiply_add: F,
    zero: T,
    left: Seq<T>,
    right: Seq<T>,
    inner: int,
    columns: int,
    row_start: int,
    row_end: int,
    column_start: int,
    column_end: int,
    count: nat,
) -> bool {
    forall|r: int, c: int|
        row_start <= r < row_end && column_start <= c < column_end ==> #[trigger] cell(
            values,
            columns,
            r,
            c,
        ) == dot_fold(multiply_add, zero, left, right, inner, columns, r, c, count)
}

/// Every cell of a `rows` by `columns` buffer outside the block
/// `row_start..row_end` by `column_start..column_end` is as it was.
pub open spec fn same_outside<T>(
    values: Seq<T>,
    previous: Seq<T>,
    rows: int,
    columns: int,
    row_start: int,
    row_end: int,
    column_start: int,
    column_end: int,
) -> bool {
    forall|r: int, c: int|
        0 <= r < rows && 0 <= c < columns && !(row_start <= r < row_end && column_start <= c
            < column_end) ==> #[trigger] cell(values, columns, r, c) == cell(previous, columns, r, c)
}

/// Adds the shared indices `shared_start..shared_end` to the cells of row
/// `row` in the columns `column_start..column_end`.
fn accumulate_row<T: Copy, F: Fn(T, T, T) -> T>(
    left: &Vec<T>,
    right: &Vec<T>,
    output: &mut Vec<T>,
    multiply_add: &F,
    zero: Ghost<T>,
    rows: usize,
    inner: usize,
    columns: usize,
    row: usize,
    shared_start: usize,
    shared_end: usize,
    column_start: usize,
    column_end: usize,
)
    requires
        left@.len() == rows * inner,
        right@.len() == inner * columns,
        old(output)@.len() == rows * columns,
        rows * inner <= usize::MAX,
        inner * columns <= usize::MAX,
        rows * columns <= usize::MAX,
        row < rows,
        shared_start <= shared_end <= inner,
        column_start <= column_end <= columns,
        columns > 0,
        is_function3(*multiply_add),
        block_done(
            old(output)@,
            *multiply_add,
            zero@,
            left@,
            right@,
            inner as int,
            columns as int,
            row as int,
            row + 1,
            column_start as int,
            column_end as int,
            shared_start as nat,
        ),
    ensures
        final(output)@.len() == old(output)@.len(),
        block_done(
            final(output)@,
            *multiply_add,
            zero@,
            left@,
            right@,
            inner as int,
            columns as int,
            row as int,
            row + 1,
            column_start as int,
            column_end as int,
            shared_end as nat,
        ),
        same_outside(
            final(output)@,
            old(output)@,
            rows as int,
            columns as int,
            row as int,
            row + 1,
            column_start as int,
            column_end as int,
        ),
{
    let mut shared = shared_start;
    while shared < shared_end
        invariant
            left@.len() == rows * inner,
            right@.len() == inner * columns,
            output@.len() == rows * columns,
            old(output)@.len() == rows * columns,
            rows * inner <= usize::MAX,
            inner * columns <= usize::MAX,
            rows * columns <= usize::MAX,
            row < rows,
            shared_start <= shared <= shared_end,
            shared_end <= inner,
            column_start <= column_end <= columns,
            columns > 0,
            is_function3(*multiply_add),
            block_done(
                output@,
                *multiply_add,
                zero@,
                left@,
                right@,
                inner as int,
                columns as int,
                row as int,
                row + 1,
                column_start as int,
                column_end as int,
                shared as nat,
            ),
            same_outside(
                output@,
                old(output)@,
                rows as int,
                columns as int,
                row as int,
                row + 1,
                column_start as int,
                column_end as int,
            ),
        decreases shared_end - shared,
    {
        let ghost before = output@;
        accumulate_span(
            left,
            right,
            output,
            multiply_add,
            zero,
            rows,
            inner,
            columns,
            row,
            shared,
            column_start,
            column_end,
        );
        proof {
            assert forall|r: int, c: int|
                0 <= r < rows && 0 <= c < columns && !(row <= r < row + 1 && column_start <= c
                    < column_end) implies #[trigger] cell(output@, columns as int, r, c) == cell(
                old(output)@,
                columns as int,
                r,
                c,
            ) by {
                lemma_cell_outside_span(
                    columns as int,
                    row as int,
                    column_start as int,
                    column_end as int,
                    r,
                    c,
                );
                lemma_matrix_position(rows as int, columns as int, r, c);
                assert(cell(output@, columns as int, r, c) == cell(before, columns as int, r, c));
            }
        }
        shared = shared + 1;
    }
}

/// Adds the shared indices `shared_start..shared_end` to the cells of the
/// block `row_start..row_end` by `column_start..column_end`.
fn accumulate_block<T: Copy, F: Fn(T, T, T) -> T>(
    left: &Vec<T>,
    right: &Vec<T>,
    output: &mut Vec<T>,
    multiply_add: &F,
    zero: Ghost<T>,
    rows: usize,
    inner: usize,
    columns: usize,
    row_start: usize,
    row_end: usize,
    shared_start: usize,
    shared_end: usize,
    column_start: usize,
    column_end: usize,
)
    requires
        left@.len() == rows * inner,
        right@.len() == inner * columns,
        old(output)@.len() == rows * columns,
        rows * inner <= usize::MAX,
        inner * columns <= usize::MAX,
        rows * columns <= usize::MAX,
        row_start <= row_end <= rows,
        shared_start <= shared_end <= inner,
        column_start <= column_end <= columns,
        columns > 0,
        is_function3(*multiply_add),
        block_done(
            old(output)@,
            *multiply_add,
            zero@,
            left@,
            right@,
            inner as int,
            columns as int,
            row_start as int,
            row_end as int,
            column_start as int,
            column_end as int,
            shared_start as nat,
        ),
    ensures
        final(output)@.len() == old(output)@.len(),
        block_done(
            final(output)@,
            *multiply_add,
            zero@,
            left@,
            right@,
            inner as int,
            columns as int,
            row_start as int,
            row_end as int,
            column_start as int,
            column_end as int,
            shared_end as nat,
        ),
        same_outside(
            final(output)@,
            old(output)@,
            rows as int,
            columns as int,
            row_start as int,
            row_end as int,
            column_start as int,
            column_end as int,
        ),
{
    let mut row = row_start;
    while row < row_end
        invariant
            left@.len() == rows * inner,
            right@.len() == inner * columns,
            output@.len() == rows * columns,
            old(output)@.len() == rows * columns,
            rows * inner <= usize::MAX,
            inner * columns <= usize::MAX,
            rows * columns <= usize::MAX,
            row_start <= row <= row_end,
            row_end <= rows,
            shared_start <= shared_end <= inner,
            column_start <= column_end <= columns,
            columns > 0,
            is_function3(*multiply_add),
            block_done(
                output@,
                *multiply_add,
                zero@,
                left@,
                right@,
                inner as int,
                columns as int,
                row_start as int,
                row as int,
                column_start as int,
                column_end as int,
                shared_end as nat,
            ),
            block_done(
                output@,
                *multiply_add,
                zero@,
                left@,
                right@,
                inner as int,
                columns as int,
                row as int,
                row_end as int,
                column_start as int,
                column_end as int,
                shared_start as nat,
            ),
            same_outside(
                output@,
                old(output)@,
                rows as int,
                columns as int,
                row_start as int,
                row_end as int,
                column_start as int,
                column_end as int,
            ),
        decreases row_end - row,
    {
        let ghost before = output@;
        proof {
            assert forall|r: int, c: int|
                row <= r < row + 1 && column_start <= c < column_end implies #[trigger] cell(
                before,
                columns as int,
                r,
                c,
            ) == dot_fold(
                *multiply_add,
                zero@,
                left@,
                right@,
                inner as int,
                columns as int,
                r,
                c,
                shared_start as nat,
            ) by {}
        }
        accumulate_row(
            left,
            right,
            output,
            multiply_add,
            zero,
            rows,
            inner,
            columns,
            row,
            shared_start,
            shared_end,
            column_start,
            column_end,
        );
        proof {
            assert forall|r: int, c: int|
                row_start <= r < row + 1 && column_start <= c < column_end implies #[trigger] cell(
                output@,
                columns as int,
                r,
                c,
            ) == dot_fold(
                *multiply_add,
                zero@,
                left@,
                right@,
                inner as int,
                columns as int,
                r,
                c,
                shared_end as nat,
            ) by {
                if r < row {
                    assert(cell(output@, columns as int, r, c) == cell(before, columns as int, r, c));
                }
            }
            assert forall|r: int, c: int|
                row + 1 <= r < row_end && column_start <= c < column_end implies #[trigger] cell(
                output@,
                columns as int,
                r,
                c,
            ) == dot_fold(
                *multiply_add,
                zero@,
                left@,
                right@,
                inner as int,
                columns as int,
                r,
                c,
                shared_start as nat,
            ) by {
                assert(cell(output@, columns as int, r, c) == cell(before, columns as int, r, c));
            }
            assert forall|r: int, c: int|
                0 <= r < rows && 0 <= c < columns && !(row_start <= r < row_end && column_start
                    <= c < column_end) implies #[trigger] cell(output@, columns as int, r, c)
                == cell(old(output)@, columns as int, r, c) by {
                assert(cell(output@, columns as int, r, c) == cell(before, columns as int, r, c));
            }
        }
        row = row + 1;
    }
}

/// Copies a slice of dimensions into a vector.
fn copy_dims(shape: &[usize]) -> (copy: Vec<usize>)
    ensures
        copy@ == shape@,
{
    let mut copy: Vec<usize> = Vec::new();
    let mut index: usize = 0;
    while index < shape.len()
        invariant
            index <= shape@.len(),
            copy@ == shape@.subrange(0, index as int),
        decreases shape.len() - index,
    {
        copy.push(shape[index]);
        index = index + 1;
        assert(copy@ =~= shape@.subrange(0, index as int));
    }
    assert(copy@ =~= shape@);
    copy
}

impl<T: Copy> Tensor<T> {
    /// A tensor of the given shape with every element equal to `value`.
    pub fn filled(shape: &[usize], value: T) -> (tensor: Tensor<T>)
        requires
            valid_shape(shape@),
        ensures
            tensor.wf(),
            tensor.dims() == shape@,
            tensor@ == Seq::new(shape_product(shape@) as nat, |i: int| value),
    {
        let element_count = element_count(shape);
        let strides = calculate_strides(shape);
        let mut data: Vec<T> = Vec::new();
        let mut index: usize = 0;
        while index < element_count
            invariant
                index <= element_count,
                data@ == Seq::new(index as nat, |i: int| value),
            decreases element_count - index,
        {
            data.push(value);
            index = index + 1;
            assert(data@ =~= Seq::new(index as nat, |i: int| value));
        }
        Tensor { data, shape: copy_dims(shape), strides }
    }

    /// A tensor of the given shape with every element equal to `zero`.
    pub fn zeros(shape: &[usize], zero: T) -> (tensor: Tensor<T>)
        requires
            valid_shape(shape@),
        ensures
            tensor.wf(),
            tensor.dims() == shape@,
            tensor@ == Seq::new(shape_product(shape@) as nat, |i: int| zero),
    {
        Tensor::filled(shape, zero)
    }

    /// A tensor of the given shape holding `data` in row-major order.
    pub fn from_vec(data: Vec<T>, shape: &[usize]) -> (tensor: Tensor<T>)
        requires
            valid_shape(shape@),
            data@.len() == shape_product(shape@),
        ensures
            tensor.wf(),
            tensor.dims() == shape@,
            tensor@ == data@,
    {
        let strides = calculate_strides(shape);
        Tensor { data, shape: copy_dims(shape), strides }
    }

    /// The number of elements.
    pub fn len(&self) -> (length: usize)
        ensures
            length == self@.len(),
    {
        self.data.len()
    }

    /// Whether the tensor holds no element (never, for a well-formed one).
    pub fn is_empty(&self) -> (empty: bool)
        ensures
            empty == (self@.len() == 0),
    {
        self.data.len() == 0
    }

    /// The number of dimensions.
    pub fn rank(&self) -> (rank: usize)
        ensures
            rank == self.dims().len(),
    {
        self.shape.len()
    }

    /// The dimensions.
    pub fn shape(&self) -> (shape: &[usize])
        ensures
            shape@ == self.dims(),
    {
        self.shape.as_slice()
    }

    /// The row-major strides.
    pub fn strides(&self) -> (strides: &[usize])
        ensures
            strides@ == self.stride_seq(),
    {
        self.strides.as_slice()
    }

    /// The elements in row-major order.
    pub fn data(&self) -> (data: &[T])
        ensures
            data@ == self@,
    {
        self.data.as_slice()
    }

    /// The elements in row-major order, for writing.
    pub fn data_mut(&mut self) -> (data: &mut [T])
        ensures
            data@ == old(self)@,
            final(self)@ == final(data)@,
            final(self).dims() == old(self).dims(),
            final(self).stride_seq() == old(self).stride_seq(),
    {
        self.data.as_mut_slice()
    }

    /// The element at the given multi-index.
    pub fn get(&self, indices: &[usize]) -> (value: T)
        requires
            self.wf(),
            indices_in_bounds(self.dims(), indices@),
        ensures
            value == self@[flat_position(self.dims(), indices@)],
    {
        let position = flat_index(self.shape.as_slice(), self.strides.as_slice(), indices);
        self.data[position]
    }

    /// Replaces the element at the given multi-index.
    pub fn set(&mut self, indices: &[usize], value: T)
        requires
            old(self).wf(),
            indices_in_bounds(old(self).dims(), indices@),
        ensures
            final(self).wf(),
            final(self).dims() == old(self).dims(),
            final(self)@ == old(self)@.update(flat_position(old(self).dims(), indices@), value),
    {
        let position = flat_index(self.shape.as_slice(), self.strides.as_slice(), indices);
        self.data.set(position, value);
    }

    /// Sets every element to `value`.
    pub fn fill(&mut self, value: T)
        requires
            old(self).wf(),
        ensures
            final(self).wf(),
            final(self).dims() == old(self).dims(),
            final(self)@ == Seq::new(old(self)@.len(), |i: int| value),
    {
        let length = self.data.len();
        let mut index: usize = 0;
        while index < length
            invariant
                self.wf(),
                self.dims() == old(self).dims(),
                length == self@.len(),
                index <= length,
                forall|i: int| 0 <= i < index ==> #[trigger] self@[i] == value,
            decreases length - index,
        {
            self.data.set(index, value);
            index = index + 1;
        }
        assert(self@ =~= Seq::new(old(self)@.len(), |i: int| value));
    }

    /// Copies the elements of a tensor of the same shape.
    pub fn copy_from(&mut self, other: &Tensor<T>)
        requires
            old(self).wf(),
            other.wf(),
            old(self).dims() == other.dims(),
        ensures
            final(self).wf(),
            final(self).dims() == old(self).dims(),
            final(self)@ == other@,
    {
        let length = self.data.len();
        let mut index: usize = 0;
        while index < length
            invariant
                self.wf(),
                self.dims() == other.dims(),
                length == self@.len(),
                length == other@.len(),
                index <= length,
                forall|i: int| 0 <= i < index ==> #[trigger] self@[i] == other@[i],
            decreases length - index,
        {
            self.data.set(index, other.data[index]);
            index = index + 1;
        }
        assert(self@ =~= other@);
    }

    /// Gives the tensor a new shape with the same number of elements.
    pub fn reshape(&mut self, new_shape: &[usize])
        requires
            old(self).wf(),
            valid_shape(new_shape@),
            shape_product(new_shape@) == old(self)@.len(),
        ensures
            final(self).wf(),
            final(self).dims() == new_shape@,
            final(self)@ == old(self)@,
    {
        self.shape = copy_dims(new_shape);
        self.strides = calculate_strides(new_shape);
    }

    /// The transpose of a matrix.
    pub fn transpose_2d(&self) -> (transposed: Tensor<T>)
        requires
            self.wf(),
            self.dims().len() == 2,
        ensures
            transposed.wf(),
            transposed.dims() == seq![self.dims()[1], self.dims()[0]],
            transposed@ == transpose_values(self@, self.dims()[0] as int, self.dims()[1] as int),
            forall|row: int, column: int|
                0 <= row < self.dims()[0] && 0 <= column < self.dims()[1]
                    ==> #[trigger] transposed.at2(column, row) == self.at2(row, column),
    {
        let rows = self.shape[0];
        let columns = self.shape[1];
        proof {
            lemma_matrix_product(self.dims());
        }
        let mut data: Vec<T> = Vec::new();
        let mut column: usize = 0;
        while column < columns
            invariant
                self.wf(),
                self.dims() == seq![rows, columns],
                self@.len() == rows * columns,
                column <= columns,
                data@.len() == column * rows,
                forall|c: int, r: int|
                    0 <= c < column && 0 <= r < rows ==> #[trigger] data@[c * rows + r]
                        == self@[r * columns + c],
            decreases columns - column,
        {
            let mut row: usize = 0;
            while row < rows
                invariant
                    self.wf(),
                    self.dims() == seq![rows, columns],
                    self@.len() == rows * columns,
                    column < columns,
                    row <= rows,
                    data@.len() == column * rows + row,
                    forall|c: int, r: int|
                        0 <= c < column && 0 <= r < rows ==> #[trigger] data@[c * rows + r]
                            == self@[r * columns + c],
                    forall|r: int|
                        0 <= r < row ==> #[trigger] data@[column * rows + r] == self@[r
                            * columns + column],
                decreases rows - row,
            {
                proof {
                    lemma_matrix_position(rows as int, columns as int, row as int, column as int);
                    lemma_matrix_position(columns as int, rows as int, column as int, row as int);
                }
                let value = self.data[row * columns + column];
                let ghost before = data@;
                data.push(value);
                assert forall|c: int, r: int|
                    0 <= c < column && 0 <= r < rows implies #[trigger] data@[c * rows + r]
                        == self@[r * columns + c] by {
                    lemma_matrix_position(column as int, rows as int, c, r);
                    assert(data@[c * rows + r] == before[c * rows + r]);
                }
                row = row + 1;
            }
            column = column + 1;
            assert(data@.len() == column * rows) by (nonlinear_arith)
                requires
                    data@.len() == (column - 1) * rows + rows,
            ;
        }
        let transposed_shape: Vec<usize> = vec![columns, rows];
        proof {
            lemma_matrix_product(transposed_shape@);
            assert(columns * rows == rows * columns) by (nonlinear_arith);
        }
        let transposed = Tensor::from_vec(data, transposed_shape.as_slice());
        assert(transposed.dims() =~= seq![self.dims()[1], self.dims()[0]]);
        proof {
            let expected = transpose_values(self@, rows as int, columns as int);
            assert forall|p: int| 0 <= p < transposed@.len() implies transposed@[p] == expected[p] by {
                let c = p / (rows as int);
                let r = p % (rows as int);
                vstd::arithmetic::div_mod::lemma_fundamental_div_mod(p, rows as int);
                vstd::arithmetic::div_mod::lemma_mod_pos_bound(p, rows as int);
                vstd::arithmetic::div_mod::lemma_div_pos_is_pos(p, rows as int);
                assert(c * rows + r == p) by (nonlinear_arith)
                    requires
                        p == rows * c + r,
                ;
                assert(c < columns) by (nonlinear_arith)
                    requires
                        c * rows + r == p,
                        p < columns * rows,
                        0 <= r,
                        rows > 0,
                ;
                assert(data@[c * rows + r] == self@[r * columns + c]);
            }
            assert(transposed@ =~= expected);
        }
        transposed
    }

    /// Applies `op` to each pair of elements at the same position of two
    /// tensors of the same shape.
    fn zip_with<F: Fn(T, T) -> T>(&self, other: &Tensor<T>, op: F) -> (result: Tensor<T>)
        requires
            self.wf(),
            other.wf(),
            self.dims() == other.dims(),
            forall|a: T, b: T| #[trigger] op.requires((a, b)),
        ensures
            result.wf(),
            result.dims() == self.dims(),
            result@.len() == self@.len(),
            forall|i: int|
                0 <= i < self@.len() ==> op.ensures((self@[i], other@[i]), #[trigger] result@[i]),
    {
        let length = self.data.len();
        let mut data: Vec<T> = Vec::new();
        let mut index: usize = 0;
        while index < length
            invariant
                self.wf(),
                other.wf(),
                self.dims() == other.dims(),
                length == self@.len(),
                length == other@.len(),
                index <= length,
                data@.len() == index,
                forall|a: T, b: T| #[trigger] op.requires((a, b)),
                forall|i: int| 0 <= i < index ==> op.ensures((self@[i], other@[i]), #[trigger] data@[i]),
            decreases length - index,
        {
            let value = op(self.data[index], other.data[index]);
            data.push(value);
            index = index + 1;
        }
        Tensor::from_vec(data, self.shape.as_slice())
    }

    /// Replaces each element with `op` of it and the element at the same
    /// position of a tensor of the same shape.
    pub(crate) fn zip_with_in_place<F: Fn(T, T) -> T>(&mut self, other: &Tensor<T>, op: F)
        requires
            old(self).wf(),
            other.wf(),
            old(self).dims() == other.dims(),
            forall|a: T, b: T| #[trigger] op.requires((a, b)),
        ensures
            final(self).wf(),
            final(self).dims() == old(self).dims(),
            final(self)@.len() == old(self)@.len(),
            forall|i: int|
                0 <= i < old(self)@.len() ==> op.ensures(
                    (old(self)@[i], other@[i]),
                    #[trigger] final(self)@[i],
                ),
    {
        let length = self.data.len();
        let mut index: usize = 0;
        while index < length
            invariant
                self.wf(),
                other.wf(),
                self.dims() == other.dims(),
                self.dims() == old(self).dims(),
                length == self@.len(),
                length == old(self)@.len(),
                length == other@.len(),
                index <= length,
                forall|a: T, b: T| #[trigger] op.requires((a, b)),
                forall|i: int| index <= i < length ==> #[trigger] self@[i] == old(self)@[i],
                forall|i: int|
                    0 <= i < index ==> op.ensures((old(self)@[i], other@[i]), #[trigger] self@[i]),
            decreases length - index,
        {
            let value = op(self.data[index], other.data[index]);
            self.data.set(index, value);
            index = index + 1;
        }
    }

    /// The elementwise sum with a tensor of the same shape: element `i` is
    /// `plus` of the two elements `i`.
    pub fn add<F: Fn(T, T) -> T>(&self, other: &Tensor<T>, plus: F) -> (result: Tensor<T>)
        requires
            self.wf(),
            other.wf(),
            self.dims() == other.dims(),
            forall|a: T, b: T| #[trigger] plus.requires((a, b)),
        ensures
            result.wf(),
            result.dims() == self.dims(),
            result@.len() == self@.len(),
            forall|i: int|
                0 <= i < self@.len() ==> plus.ensures((self@[i], other@[i]), #[trigger] result@[i]),
    {
        self.zip_with(other, plus)
    }

    /// Adds a tensor of the same shape into this one, elementwise.
    pub fn add_in_place<F: Fn(T, T) -> T>(&mut self, other: &Tensor<T>, plus: F)
        requires
            old(self).wf(),
            other.wf(),
            old(self).dims() == other.dims(),
            forall|a: T, b: T| #[trigger] plus.requires((a, b)),
        ensures
            final(self).wf(),
            final(self).dims() == old(self).dims(),
            final(self)@.len() == old(self)@.len(),
            forall|i: int|
                0 <= i < old(self)@.len() ==> plus.ensures(
                    (old(self)@[i], other@[i]),
                    #[trigger] final(self)@[i],
                ),
    {
        self.zip_with_in_place(other, plus)
    }

    /// The elementwise difference with a tensor of the same shape: element
    /// `i` is `minus` of this tensor's element `i` and the other's.
    pub fn subtract<F: Fn(T, T) -> T>(&self, other: &Tensor<T>, minus: F) -> (result: Tensor<T>)
        requires
            self.wf(),
            other.wf(),
            self.dims() == other.dims(),
            forall|a: T, b: T| #[trigger] minus.requires((a, b)),
        ensures
            result.wf(),
            result.dims() == self.dims(),
            result@.len() == self@.len(),
            forall|i: int|
                0 <= i < self@.len() ==> minus.ensures((self@[i], other@[i]), #[trigger] result@[i]),
    {
        self.zip_with(other, minus)
    }

    /// Subtracts a tensor of the same shape from this one, elementwise.
    pub fn subtract_in_place<F: Fn(T, T) -> T>(&mut self, other: &Tensor<T>, minus: F)
        requires
            old(self).wf(),
            other.wf(),
            old(self).dims() == other.dims(),
            forall|a: T, b: T| #[trigger] minus.requires((a, b)),
        ensures
            final(self).wf(),
            final(self).dims() == old(self).dims(),
            final(self)@.len() == old(self)@.len(),
            forall|i: int|
                0 <= i < old(self)@.len() ==> minus.ensures(
                    (old(self)@[i], other@[i]),
                    #[trigger] final(self)@[i],
                ),
    {
        self.zip_with_in_place(other, minus)
    }

    /// The elementwise product with a tensor of the same shape: element `i`
    /// is `times` of the two elements `i`.
    pub fn multiply_elementwise<F: Fn(T, T) -> T>(&self, other: &Tensor<T>, times: F) -> (result:
        Tensor<T>)
        requires
            self.wf(),
            other.wf(),
            self.dims() == other.dims(),
            forall|a: T, b: T| #[trigger] times.requires((a, b)),
        ensures
            result.wf(),
            result.dims() == self.dims(),
            result@.len() == self@.len(),
            forall|i: int|
                0 <= i < self@.len() ==> times.ensures((self@[i], other@[i]), #[trigger] result@[i]),
    {
        self.zip_with(other, times)
    }

    /// Every element scaled by `scalar`: element `i` is `times` of element
    /// `i` and `scalar`.
    pub fn multiply_scalar<F: Fn(T, T) -> T>(&self, scalar: T, times: F) -> (result: Tensor<T>)
        requires
            self.wf(),
            forall|a: T| #[trigger] times.requires((a, scalar)),
        ensures
            result.wf(),
            result.dims() == self.dims(),
            result@.len() == self@.len(),
            forall|i: int| 0 <= i < self@.len() ==> times.ensures((self@[i], scalar), #[trigger] result@[i]),
    {
        let length = self.data.len();
        let mut data: Vec<T> = Vec::new();
        let mut index: usize = 0;
        while index < length
            invariant
                self.wf(),
                length == self@.len(),
                index <= length,
                data@.len() == index,
                forall|a: T| #[trigger] times.requires((a, scalar)),
                forall|i: int| 0 <= i < index ==> times.ensures((self@[i], scalar), #[trigger] data@[i]),
            decreases length - index,
        {
            let value = times(self.data[index], scalar);
            data.push(value);
            index = index + 1;
        }
        Tensor::from_vec(data, self.shape.as_slice())
    }

    /// Scales every element by `scalar` in place.
    pub fn multiply_scalar_in_place<F: Fn(T, T) -> T>(&mut self, scalar: T, times: F)
        requires
            old(self).wf(),
            forall|a: T| #[trigger] times.requires((a, scalar)),
        ensures
            final(self).wf(),
            final(self).dims() == old(self).dims(),
            final(self)@.len() == old(self)@.len(),
            forall|i: int|
                0 <= i < old(self)@.len() ==> times.ensures((old(self)@[i], scalar), #[trigger] final(self)@[i]),
    {
        let length = self.data.len();
        let mut index: usize = 0;
        while index < length
            invariant
                self.wf(),
                self.dims() == old(self).dims(),
                length == self@.len(),
                length == old(self)@.len(),
                index <= length,
                forall|a: T| #[trigger] times.requires((a, scalar)),
                forall|i: int| index <= i < length ==> #[trigger] self@[i] == old(self)@[i],
                forall|i: int| 0 <= i < index ==> times.ensures((old(self)@[i], scalar), #[trigger] self@[i]),
            decreases length - index,
        {
            let value = times(self.data[index], scalar);
            self.data.set(index, value);
            index = index + 1;
        }
    }

    /// Applies `op` to every element.
    pub(crate) fn map<F: Fn(T) -> T>(&self, op: F) -> (result: Tensor<T>)
        requires
            self.wf(),
            forall|a: T| #[trigger] op.requires((a,)),
        ensures
            result.wf(),
            result.dims() == self.dims(),
            result@.len() == self@.len(),
            forall|i: int| 0 <= i < self@.len() ==> op.ensures((self@[i],), #[trigger] result@[i]),
    {
        let length = self.data.len();
        let mut data: Vec<T> = Vec::new();
        let mut index: usize = 0;
        while index < length
            invariant
                self.wf(),
                length == self@.len(),
                index <= length,
                data@.len() == index,
                forall|a: T| #[trigger] op.requires((a,)),
                forall|i: int| 0 <= i < index ==> op.ensures((self@[i],), #[trigger] data@[i]),
            decreases length - index,
        {
            let value = op(self.data[index]);
            data.push(value);
            index = index + 1;
        }
        Tensor::from_vec(data, self.shape.as_slice())
    }

    /// Combines every row of a matrix with a row vector as long as a row:
    /// the element at row `r`, column `c` becomes `plus` of it and element `c`
    /// of the vector.
    pub fn add_row_vector<F: Fn(T, T) -> T>(&self, row_vector: &Tensor<T>, plus: F) -> (result:
        Tensor<T>)
        requires
            self.wf(),
            row_vector.wf(),
            self.dims().len() == 2,
            row_vector.dims().len() == 1,
            row_vector.dims()[0] == self.dims()[1],
            forall|a: T, b: T| #[trigger] plus.requires((a, b)),
        ensures
            result.wf(),
            result.dims() == self.dims(),
            forall|row: int, column: int|
                0 <= row < self.dims()[0] && 0 <= column < self.dims()[1] ==> plus.ensures(
                    (self.at2(row, column), row_vector@[column]),
                    #[trigger] result.at2(row, column),
                ),
    {
        let mut result = self.clone_tensor();
        result.add_row_vector_in_place(row_vector, plus);
        result
    }

    /// Combines every row of this matrix with a row vector in place, as
    /// `add_row_vector` does.
    pub fn add_row_vector_in_place<F: Fn(T, T) -> T>(&mut self, row_vector: &Tensor<T>, plus: F)
        requires
            old(self).wf(),
            row_vector.wf(),
            old(self).dims().len() == 2,
            row_vector.dims().len() == 1,
            row_vector.dims()[0] == old(self).dims()[1],
            forall|a: T, b: T| #[trigger] plus.requires((a, b)),
        ensures
            final(self).wf(),
            final(self).dims() == old(self).dims(),
            forall|row: int, column: int|
                0 <= row < old(self).dims()[0] && 0 <= column < old(self).dims()[1]
                    ==> plus.ensures(
                    (old(self).at2(row, column), row_vector@[column]),
                    #[trigger] final(self).at2(row, column),
                ),
    {
        let rows = self.shape[0];
        let columns = self.shape[1];
        proof {
            lemma_matrix_product(self.dims());
            lemma_vector_product(row_vector.dims());
        }
        let mut row: usize = 0;
        while row < rows
            invariant
                self.wf(),
                row_vector.wf(),
                self.dims() == old(self).dims(),
                self.dims() == seq![rows, columns],
                row_vector@.len() == columns,
                self@.len() == rows * columns,
                old(self)@.len() == rows * columns,
                row <= rows,
                forall|a: T, b: T| #[trigger] plus.requires((a, b)),
                forall|i: int| row * columns <= i < rows * columns ==> #[trigger] self@[i] == old(self)@[i],
                forall|r: int, c: int|
                    0 <= r < row && 0 <= c < columns ==> plus.ensures(
                        (old(self)@[r * columns + c], row_vector@[c]),
                        #[trigger] self@[r * columns + c],
                    ),
            decreases rows - row,
        {
            proof {
                lemma_matrix_position(rows as int, columns as int, row as int, 0);
            }
            let row_start = row * columns;
            let mut column: usize = 0;
            while column < columns
                invariant
                    self.wf(),
                    self.dims() == old(self).dims(),
                    self.dims() == seq![rows, columns],
                    row_vector@.len() == columns,
                    self@.len() == rows * columns,
                    old(self)@.len() == rows * columns,
                    row < rows,
                    row_start == row * columns,
                    column <= columns,
                    forall|a: T, b: T| #[trigger] plus.requires((a, b)),
                    forall|i: int|
                        row_start + column <= i < rows * columns ==> #[trigger] self@[i] == old(self)@[i],
                    forall|r: int, c: int|
                        0 <= r < row && 0 <= c < columns ==> plus.ensures(
                            (old(self)@[r * columns + c], row_vector@[c]),
                            #[trigger] self@[r * columns + c],
                        ),
                    forall|c: int|
                        0 <= c < column ==> plus.ensures(
                            (old(self)@[row_start + c], row_vector@[c]),
                            #[trigger] self@[row_start + c],
                        ),
                decreases columns - column,
            {
                proof {
                    lemma_matrix_position(rows as int, columns as int, row as int, column as int);
                }
                let index = row_start + column;
                let value = plus(self.data[index], row_vector.data[column]);
                let ghost before = self@;
                self.data.set(index, value);
                assert forall|r: int, c: int|
                    0 <= r < row && 0 <= c < columns implies plus.ensures(
                        (old(self)@[r * columns + c], row_vector@[c]),
                        #[trigger] self@[r * columns + c],
                    ) by {
                    lemma_matrix_position(row as int, columns as int, r, c);
                    assert(self@[r * columns + c] == before[r * columns + c]);
                }
                column = column + 1;
            }
            proof {
                assert forall|c: int|
                    0 <= c < columns implies plus.ensures(
                        (old(self)@[row * columns + c], row_vector@[c]),
                        #[trigger] self@[row * columns + c],
                    ) by {}
                assert((row + 1) * columns == row * columns + columns) by (nonlinear_arith);
            }
            row = row + 1;
        }
    }

    /// An element-for-element copy.
    pub(crate) fn clone_tensor(&self) -> (copy: Tensor<T>)
        requires
            self.wf(),
        ensures
            copy.wf(),
            copy.dims() == self.dims(),
            copy@ == self@,
    {
        let length = self.data.len();
        let mut data: Vec<T> = Vec::new();
        let mut index: usize = 0;
        while index < length
            invariant
                length == self@.len(),
                index <= length,
                data@ == self@.subrange(0, index as int),
            decreases length - index,
        {
            data.push(self.data[index]);
            index = index + 1;
            assert(data@ =~= self@.subrange(0, index as int));
        }
        assert(data@ =~= self@);
        Tensor::from_vec(data, self.shape.as_slice())
    }

    /// The left fold of `plus` over all elements in row-major order, starting
    /// at `zero` (the sum of the elements, for numeric addition).
    pub fn sum<F: Fn(T, T) -> T>(&self, zero: T, plus: F) -> (total: T)
        requires
            is_function2(plus),
        ensures
            total == fold_values(plus, zero, self@, self@.len()),
    {
        let length = self.data.len();
        let mut total = zero;
        let mut index: usize = 0;
        while index < length
            invariant
                is_function2(plus),
                length == self@.len(),
                index <= length,
                total == fold_values(plus, zero, self@, index as nat),
            decreases length - index,
        {
            let value = self.data[index];
            let next = plus(total, value);
            proof {
                lemma_apply2(plus, total, value, next);
            }
            total = next;
            index = index + 1;
        }
        total
    }

    /// Folds each column of a matrix into a new vector with `plus`, starting
    /// every column at `zero`.
    pub fn sum_rows<F: Fn(T, T) -> T>(&self, zero: T, plus: F) -> (sums: Tensor<T>)
        requires
            self.wf(),
            self.dims().len() == 2,
            is_function2(plus),
        ensures
            sums.wf(),
            sums.dims() == seq![self.dims()[1]],
            forall|column: int|
                0 <= column < self.dims()[1] ==> #[trigger] sums@[column] == column_fold(
                    plus,
                    zero,
                    self@,
                    self.dims()[1] as int,
                    column,
                    self.dims()[0] as nat,
                ),
    {
        let columns = self.shape[1];
        let sums_shape: Vec<usize> = vec![columns];
        proof {
            lemma_matrix_product(self.dims());
            lemma_vector_product(sums_shape@);
            assert(columns <= self.dims()[0] * columns) by (nonlinear_arith)
                requires
                    self.dims()[0] >= 1,
            ;
        }
        let mut sums = Tensor::filled(sums_shape.as_slice(), zero);
        assert(sums.dims() =~= seq![self.dims()[1]]);
        self.sum_rows_into(&mut sums, zero, plus);
        sums
    }

    /// Folds each column of a matrix into `output` with `plus`, starting every
    /// column at `zero`, whatever `output` held before.
    pub fn sum_rows_into<F: Fn(T, T) -> T>(&self, output: &mut Tensor<T>, zero: T, plus: F)
        requires
            self.wf(),
            old(output).wf(),
            self.dims().len() == 2,
            old(output).dims() == seq![self.dims()[1]],
            is_function2(plus),
        ensures
            final(output).wf(),
            final(output).dims() == old(output).dims(),
            forall|column: int|
                0 <= column < self.dims()[1] ==> #[trigger] final(output)@[column] == column_fold(
                    plus,
                    zero,
                    self@,
                    self.dims()[1] as int,
                    column,
                    self.dims()[0] as nat,
                ),
    {
        let rows = self.shape[0];
        let columns = self.shape[1];
        proof {
            lemma_matrix_product(self.dims());
            lemma_vector_product(output.dims());
        }
        output.fill(zero);
        let mut row: usize = 0;
        while row < rows
            invariant
                self.wf(),
                output.wf(),
                self.dims() == seq![rows, columns],
                output.dims() == old(output).dims(),
                output.dims() == seq![columns],
                output@.len() == columns,
                self@.len() == rows * columns,
                row <= rows,
                is_function2(plus),
                forall|c: int|
                    0 <= c < columns ==> #[trigger] output@[c] == column_fold(
                        plus,
                        zero,
                        self@,
                        columns as int,
                        c,
                        row as nat,
                    ),
            decreases rows - row,
        {
            proof {
                lemma_matrix_position(rows as int, columns as int, row as int, 0);
            }
            let row_start = row * columns;
            let mut column: usize = 0;
            while column < columns
                invariant
                    self.wf(),
                    output.wf(),
                    self.dims() == seq![rows, columns],
                    output.dims() == old(output).dims(),
                    output.dims() == seq![columns],
                    output@.len() == columns,
                    self@.len() == rows * columns,
                    row < rows,
                    row_start == row * columns,
                    column <= columns,
                    is_function2(plus),
                    forall|c: int|
                        column <= c < columns ==> #[trigger] output@[c] == column_fold(
                            plus,
                            zero,
                            self@,
                            columns as int,
                            c,
                            row as nat,
                        ),
                    forall|c: int|
                        0 <= c < column ==> #[trigger] output@[c] == column_fold(
                            plus,
                            zero,
                            self@,
                            columns as int,
                            c,
                            (row + 1) as nat,
                        ),
                decreases columns - column,
            {
                proof {
                    lemma_matrix_position(rows as int, columns as int, row as int, column as int);
                }
                let current = output.data[column];
                let value = self.data[row_start + column];
                let next = plus(current, value);
                proof {
                    lemma_apply2(plus, current, value, next);
                }
                output.data.set(column, next);
                column = column + 1;
            }
            row = row + 1;
        }
    }

    /// For each row of a matrix, the column that a left-to-right scan
    /// settles on when it moves to a later column exactly where `greater`
    /// holds of that column's value and the best value so far (the first
    /// largest value, for a numeric `>`).
    pub fn argmax_rows<F: Fn(T, T) -> bool>(&self, greater: F) -> (best: Vec<usize>)
        requires
            self.wf(),
            self.dims().len() == 2,
            is_function2(greater),
        ensures
            best@.len() == self.dims()[0],
            forall|row: int|
                0 <= row < self.dims()[0] ==> #[trigger] best@[row] == scan_argmax(
                    greater,
                    self@,
                    row * self.dims()[1],
                    self.dims()[1] as nat,
                ),
            forall|row: int| 0 <= row < self.dims()[0] ==> #[trigger] best@[row] < self.dims()[1],
    {
        let rows = self.shape[0];
        let columns = self.shape[1];
        proof {
            lemma_matrix_product(self.dims());
        }
        let mut best: Vec<usize> = Vec::new();
        let mut row: usize = 0;
        while row < rows
            invariant
                self.wf(),
                self.dims() == seq![rows, columns],
                columns >= 1,
                self@.len() == rows * columns,
                row <= rows,
                is_function2(greater),
                best@.len() == row,
                forall|r: int|
                    0 <= r < row ==> #[trigger] best@[r] == scan_argmax(
                        greater,
                        self@,
                        r * columns,
                        columns as nat,
                    ),
                forall|r: int| 0 <= r < row ==> #[trigger] best@[r] < columns,
            decreases rows - row,
        {
            proof {
                lemma_matrix_position(rows as int, columns as int, row as int, 0);
            }
            let row_start = row * columns;
            let mut best_column: usize = 0;
            let mut best_value = self.data[row_start];
            let mut column: usize = 1;
            while column < columns
                invariant
                    self.wf(),
                    self@.len() == rows * columns,
                    row < rows,
                    row_start == row * columns,
                    1 <= column <= columns,
                    is_function2(greater),
                    best_column == scan_argmax(greater, self@, row_start as int, column as nat),
                    best_column < column,
                    best_value == self@[row_start + best_column],
                decreases columns - column,
            {
                proof {
                    lemma_matrix_position(rows as int, columns as int, row as int, column as int);
                }
                let current_value = self.data[row_start + column];
                let is_greater = greater(current_value, best_value);
                proof {
                    lemma_apply2(greater, current_value, best_value, is_greater);
                }
                if is_greater {
                    best_value = current_value;
                    best_column = column;
                }
                column = column + 1;
            }
            proof {
                lemma_scan_argmax_in_range(greater, self@, row_start as int, columns as nat);
            }
            best.push(best_column);
            row = row + 1;
        }
        best
    }

    /// The matrix product of this `rows` by `inner` matrix and an `inner` by
    /// `columns` matrix: each output cell is the left fold of
    /// `multiply_add(accumulator, left, right)` over the shared index in
    /// increasing order, starting at `zero`.
    pub fn matmul<F: Fn(T, T, T) -> T>(&self, other: &Tensor<T>, zero: T, multiply_add: F) -> (product:
        Tensor<T>)
        requires
            self.wf(),
            other.wf(),
            self.dims().len() == 2,
            other.dims().len() == 2,
            self.dims()[1] == other.dims()[0],
            self.dims()[0] * other.dims()[1] <= usize::MAX,
            is_function3(multiply_add),
        ensures
            product.wf(),
            product.dims() == seq![self.dims()[0], other.dims()[1]],
            forall|row: int, column: int|
                0 <= row < self.dims()[0] && 0 <= column < other.dims()[1] ==> #[trigger] product.at2(
                    row,
                    column,
                ) == dot_fold(
                    multiply_add,
                    zero,
                    self@,
                    other@,
                    self.dims()[1] as int,
                    other.dims()[1] as int,
                    row,
                    column,
                    self.dims()[1] as nat,
                ),
    {
        let product_shape: Vec<usize> = vec![self.shape[0], other.shape[1]];
        proof {
            lemma_matrix_product(product_shape@);
        }
        let mut product = Tensor::filled(product_shape.as_slice(), zero);
        assert(product.dims() =~= seq![self.dims()[0], other.dims()[1]]);
        self.matmul_into(other, &mut product, zero, multiply_add);
        product
    }

    /// `matmul_into_blocked` with blocks of 32.
    pub fn matmul_into<F: Fn(T, T, T) -> T>(
        &self,
        other: &Tensor<T>,
        output: &mut Tensor<T>,
        zero: T,
        multiply_add: F,
    )
        requires
            self.wf(),
            other.wf(),
            old(output).wf(),
            self.dims().len() == 2,
            other.dims().len() == 2,
            self.dims()[1] == other.dims()[0],
            old(output).dims() == seq![self.dims()[0], other.dims()[1]],
            is_function3(multiply_add),
        ensures
            final(output).wf(),
            final(output).dims() == old(output).dims(),
            forall|row: int, column: int|
                0 <= row < self.dims()[0] && 0 <= column < other.dims()[1] ==> #[trigger] final(output).at2(row, column) == dot_fold(
                    multiply_add,
                    zero,
                    self@,
                    other@,
                    self.dims()[1] as int,
                    other.dims()[1] as int,
                    row,
                    column,
                    self.dims()[1] as nat,
                ),
    {
        self.matmul_into_blocked(other, output, 32, zero, multiply_add);
    }

    /// The matrix product written into `output`, computed block by block:
    /// rows, shared indices and columns are taken in tiles of `block_size`.
    /// Whatever the block size, every output cell is the left fold of
    /// `multiply_add` over the shared index in increasing order, starting at
    /// `zero`; `output` is overwritten.
    pub fn matmul_into_blocked<F: Fn(T, T, T) -> T>(
        &self,
        other: &Tensor<T>,
        output: &mut Tensor<T>,
        block_size: usize,
        zero: T,
        multiply_add: F,
    )
        requires
            self.wf(),
            other.wf(),
            old(output).wf(),
            self.dims().len() == 2,
            other.dims().len() == 2,
            self.dims()[1] == other.dims()[0],
            old(output).dims() == seq![self.dims()[0], other.dims()[1]],
            block_size > 0,
            is_function3(multiply_add),
        ensures
            final(output).wf(),
            final(output).dims() == old(output).dims(),
            forall|row: int, column: int|
                0 <= row < self.dims()[0] && 0 <= column < other.dims()[1] ==> #[trigger] final(output).at2(row, column) == dot_fold(
                    multiply_add,
                    zero,
                    self@,
                    other@,
                    self.dims()[1] as int,
                    other.dims()[1] as int,
                    row,
                    column,
                    self.dims()[1] as nat,
                ),
    {
        let rows = self.shape[0];
        let inner = self.shape[1];
        let columns = other.shape[1];
        proof {
            lemma_matrix_product(self.dims());
            lemma_matrix_product(other.dims());
            lemma_matrix_product(output.dims());
        }
        output.fill(zero);
        let ghost left = self@;
        let ghost right = other@;
        let ghost dims = output.dims();
        let ghost strides = output.stride_seq();
        proof {
            assert forall|r: int, c: int| 0 <= r < rows && 0 <= c < columns implies #[trigger] cell(
                output@,
                columns as int,
                r,
                c,
            ) == dot_fold(
                multiply_add,
                zero,
                left,
                right,
                inner as int,
                columns as int,
                r,
                c,
                0,
            ) by {
                lemma_matrix_position(rows as int, columns as int, r, c);
            }
        }
        let mut row_block: usize = 0;
        while row_block < rows
            invariant
                self@ == left,
                other@ == right,
                left.len() == rows * inner,
                right.len() == inner * columns,
                output@.len() == rows * columns,
                output.dims() == dims,
                output.stride_seq() == strides,
                rows * inner <= usize::MAX,
                inner * columns <= usize::MAX,
                rows * columns <= usize::MAX,
                row_block <= rows,
                columns > 0,
                block_size > 0,
                is_function3(multiply_add),
                block_done(
                    output@,
                    multiply_add,
                    zero,
                    left,
                    right,
                    inner as int,
                    columns as int,
                    0,
                    row_block as int,
                    0,
                    columns as int,
                    inner as nat,
                ),
                block_done(
                    output@,
                    multiply_add,
                    zero,
                    left,
                    right,
                    inner as int,
                    columns as int,
                    row_block as int,
                    rows as int,
                    0,
                    columns as int,
                    0,
                ),
            decreases rows - row_block,
        {
            let row_end = if block_size > rows - row_block {
                rows
            } else {
                row_block + block_size
            };
            let mut shared_block: usize = 0;
            while shared_block < inner
                invariant
                    self@ == left,
                    other@ == right,
                    left.len() == rows * inner,
                    right.len() == inner * columns,
                    output@.len() == rows * columns,
                    output.dims() == dims,
                    output.stride_seq() == strides,
                    rows * inner <= usize::MAX,
                    inner * columns <= usize::MAX,
                    rows * columns <= usize::MAX,
                    row_block < row_end <= rows,
                    shared_block <= inner,
                    columns > 0,
                    block_size > 0,
                    is_function3(multiply_add),
                    block_done(
                        output@,
                        multiply_add,
                        zero,
                        left,
                        right,
                        inner as int,
                        columns as int,
                        0,
                        row_block as int,
                        0,
                        columns as int,
                        inner as nat,
                    ),
                    block_done(
                        output@,
                        multiply_add,
                        zero,
                        left,
                        right,
                        inner as int,
                        columns as int,
                        row_block as int,
                        row_end as int,
                        0,
                        columns as int,
                        shared_block as nat,
                    ),
                    block_done(
                        output@,
                        multiply_add,
                        zero,
                        left,
                        right,
                        inner as int,
                        columns as int,
                        row_end as int,
                        rows as int,
                        0,
                        columns as int,
                        0,
                    ),
                decreases inner - shared_block,
            {
                let shared_end = if block_size > inner - shared_block {
                    inner
                } else {
                    shared_block + block_size
                };
                let mut column_block: usize = 0;
                while column_block < columns
                    invariant
                        self@ == left,
                        other@ == right,
                        left.len() == rows * inner,
                        right.len() == inner * columns,
                        output@.len() == rows * columns,
                        output.dims() == dims,
                        output.stride_seq() == strides,
                        rows * inner <= usize::MAX,
                        inner * columns <= usize::MAX,
                        rows * columns <= usize::MAX,
                        row_block < row_end <= rows,
                        shared_block < shared_end <= inner,
                        column_block <= columns,
                        columns > 0,
                        block_size > 0,
                        is_function3(multiply_add),
                        block_done(
                            output@,
                            multiply_add,
                            zero,
                            left,
                            right,
                            inner as int,
                            columns as int,
                            0,
                            row_block as int,
                            0,
                            columns as int,
                            inner as nat,
                        ),
                        block_done(
                            output@,
                            multiply_add,
                            zero,
                            left,
                            right,
                            inner as int,
                            columns as int,
                            row_block as int,
                            row_end as int,
                            0,
                            column_block as int,
                            shared_end as nat,
                        ),
                        block_done(
                            output@,
                            multiply_add,
                            zero,
                            left,
                            right,
                            inner as int,
                            columns as int,
                            row_block as int,
                            row_end as int,
                            column_block as int,
                            columns as int,
                            shared_block as nat,
                        ),
                        block_done(
                            output@,
                            multiply_add,
                            zero,
                            left,
                            right,
                            inner as int,
                            columns as int,
                            row_end as int,
                            rows as int,
                            0,
                            columns as int,
                            0,
                        ),
                    decreases columns - column_block,
                {
                    let column_end = if block_size > columns - column_block {
                        columns
                    } else {
                        column_block + block_size
                    };
                    let ghost before = output@;
                    proof {
                        assert(block_done(
                            before,
                            multiply_add,
                            zero,
                            left,
                            right,
                            inner as int,
                            columns as int,
                            row_block as int,
                            row_end as int,
                            column_block as int,
                            column_end as int,
                            shared_block as nat,
                        ));
                    }
                    accumulate_block(
                        &self.data,
                        &other.data,
                        &mut output.data,
                        &multiply_add,
                        Ghost(zero),
                        rows,
                        inner,
                        columns,
                        row_block,
                        row_end,
                        shared_block,
                        shared_end,
                        column_block,
                        column_end,
                    );
                    proof {
                        assert forall|r: int, c: int|
                            0 <= r < row_block && 0 <= c < columns implies #[trigger] cell(
                            output@,
                            columns as int,
                            r,
                            c,
                        ) == dot_fold(
                            multiply_add,
                            zero,
                            left,
                            right,
                            inner as int,
                            columns as int,
                            r,
                            c,
                            inner as nat,
                        ) by {
                            assert(cell(output@, columns as int, r, c) == cell(before, columns as int, r, c));
                        }
                        assert forall|r: int, c: int|
                            row_end <= r < rows && 0 <= c < columns implies #[trigger] cell(
                            output@,
                            columns as int,
                            r,
                            c,
                        ) == dot_fold(
                            multiply_add,
                            zero,
                            left,
                            right,
                            inner as int,
                            columns as int,
                            r,
                            c,
                            0,
                        ) by {
                            assert(cell(output@, columns as int, r, c) == cell(before, columns as int, r, c));
                        }
                        assert forall|r: int, c: int|
                            row_block <= r < row_end && 0 <= c < column_end implies #[trigger] cell(
                            output@,
                            columns as int,
                            r,
                            c,
                        ) == dot_fold(
                            multiply_add,
                            zero,
                            left,
                            right,
                            inner as int,
                            columns as int,
                            r,
                            c,
                            shared_end as nat,
                        ) by {
                            if c < column_block {
                                assert(cell(output@, columns as int, r, c) == cell(before, columns as int, r, c));
                            }
                        }
                        assert forall|r: int, c: int|
                            row_block <= r < row_end && column_end <= c < columns implies #[trigger] cell(
                            output@,
                            columns as int,
                            r,
                            c,
                        ) == dot_fold(
                            multiply_add,
                            zero,
                            left,
                            right,
                            inner as int,
                            columns as int,
                            r,
                            c,
                            shared_block as nat,
                        ) by {
                            assert(cell(output@, columns as int, r, c) == cell(before, columns as int, r, c));
                        }
                    }
                    column_block = column_end;
                }
                shared_block = shared_end;
            }
            row_block = row_end;
        }
        proof {
            assert forall|row: int, column: int|
                0 <= row < rows && 0 <= column < columns implies #[trigger] output.at2(row, column)
                == dot_fold(
                multiply_add,
                zero,
                left,
                right,
                inner as int,
                columns as int,
                row,
                column,
                inner as nat,
            ) by {
                assert(cell(output@, columns as int, row, column) == output.at2(row, column));
            }
        }
    }

    /// Replaces the element at a flat row-major position.
    pub(crate) fn set_flat(&mut self, position: usize, value: T)
        requires
            old(self).wf(),
            position < old(self)@.len(),
        ensures
            final(self).wf(),
            final(self).dims() == old(self).dims(),
            final(self)@ == old(self)@.update(position as int, value),
    {
        self.data.set(position, value);
    }
}

/// The product does not depend on how it was computed: two matrices that
/// both meet `matmul_into_blocked`'s postcondition for the same operands,
/// step and start (whatever block sizes produced them) are equal.
pub proof fn lemma_product_determined<T, F: Fn(T, T, T) -> T>(
    left: Tensor<T>,
    right: Tensor<T>,
    first: Tensor<T>,
    second: Tensor<T>,
    zero: T,
    multiply_add: F,
)
    requires
        left.dims().len() == 2,
        right.dims().len() == 2,
        first.wf(),
        second.wf(),
        first.dims() == seq![left.dims()[0], right.dims()[1]],
        second.dims() == first.dims(),
        forall|row: int, column: int|
            0 <= row < left.dims()[0] && 0 <= column < right.dims()[1] ==> #[trigger] first.at2(
                row,
                column,
            ) == dot_fold(
                multiply_add,
                zero,
                left@,
                right@,
                left.dims()[1] as int,
                right.dims()[1] as int,
                row,
                column,
                left.dims()[1] as nat,
            ),
        forall|row: int, column: int|
            0 <= row < left.dims()[0] && 0 <= column < right.dims()[1] ==> #[trigger] second.at2(
                row,
                column,
            ) == dot_fold(
                multiply_add,
                zero,
                left@,
                right@,
                left.dims()[1] as int,
                right.dims()[1] as int,
                row,
                column,
                left.dims()[1] as nat,
            ),
    ensures
        first@ == second@,
{
    let rows = left.dims()[0] as int;
    let columns = right.dims()[1] as int;
    lemma_matrix_product(first.dims());
    assert(columns > 0);
    assert forall|p: int| 0 <= p < first@.len() implies first@[p] == second@[p] by {
        let row = p / columns;
        let column = p % columns;
        vstd::arithmetic::div_mod::lemma_fundamental_div_mod(p, columns);
        vstd::arithmetic::div_mod::lemma_mod_pos_bound(p, columns);
        vstd::arithmetic::div_mod::lemma_div_pos_is_pos(p, columns);
        assert(row * columns + column == p) by (nonlinear_arith)
            requires
                p == columns * row + column,
        ;
        assert(row < rows) by (nonlinear_arith)
            requires
                row * columns + column == p,
                p < rows * columns,
                0 <= column,
                columns > 0,
        ;
        assert(first.at2(row, column) == second.at2(row, column));
    }
    assert(first@ =~= second@);
}

/// Adding a row vector in place gives the same tensor as the returning
/// form: two results that both meet `add_row_vector`'s postcondition for
/// the same matrix, vector and deterministic `plus` (one from
/// `add_row_vector`, one left by `add_row_vector_in_place`) have the same
/// shape, strides and elements.
pub proof fn lemma_row_vector_forms_agree<T, F: Fn(T, T) -> T>(
    matrix: Tensor<T>,
    row_vector: Tensor<T>,
    returned: Tensor<T>,
    updated: Tensor<T>,
    plus: F,
)
    requires
        is_function2(plus),
        matrix.wf(),
        matrix.dims().len() == 2,
        returned.wf(),
        updated.wf(),
        returned.dims() == matrix.dims(),
        updated.dims() == matrix.dims(),
        forall|row: int, column: int|
            0 <= row < matrix.dims()[0] && 0 <= column < matrix.dims()[1] ==> plus.ensures(
                (matrix.at2(row, column), row_vector@[column]),
                #[trigger] returned.at2(row, column),
            ),
        forall|row: int, column: int|
            0 <= row < matrix.dims()[0] && 0 <= column < matrix.dims()[1] ==> plus.ensures(
                (matrix.at2(row, column), row_vector@[column]),
                #[trigger] updated.at2(row, column),
            ),
    ensures
        returned.dims() == updated.dims(),
        returned.stride_seq() == updated.stride_seq(),
        returned@ == updated@,
{
    let rows = matrix.dims()[0] as int;
    let columns = matrix.dims()[1] as int;
    lemma_matrix_product(returned.dims());
    assert forall|p: int| 0 <= p < returned@.len() implies returned@[p] == updated@[p] by {
        let row = p / columns;
        let column = p % columns;
        vstd::arithmetic::div_mod::lemma_fundamental_div_mod(p, columns);
        vstd::arithmetic::div_mod::lemma_mod_pos_bound(p, columns);
        vstd::arithmetic::div_mod::lemma_div_pos_is_pos(p, columns);
        assert(row * columns + column == p) by (nonlinear_arith)
            requires
                p == columns * row + column,
        ;
        assert(row < rows) by (nonlinear_arith)
            requires
                row * columns + column == p,
                p < rows * columns,
                0 <= column,
                columns > 0,
        ;
        lemma_apply2(plus, matrix.at2(row, column), row_vector@[column], returned.at2(row, column));
        lemma_apply2(plus, matrix.at2(row, column), row_vector@[column], updated.at2(row, column));
    }
    assert(returned@ =~= updated@);
}

/// Reading back a written element: after `set` at `written`, `get` at
/// `read` gives the written value when `read` is `written` and the earlier
/// element otherwise. Stated of the tensors before (`before`) and after
/// (`after`) the write, as `set` leaves them.
pub proof fn lemma_get_after_set<T>(
    before: Tensor<T>,
    after: Tensor<T>,
    written: Seq<usize>,
    value: T,
    read: Seq<usize>,
)
    requires
        before.wf(),
        indices_in_bounds(before.dims(), written),
        indices_in_bounds(before.dims(), read),
        after.dims() == before.dims(),
        after@ == before@.update(flat_position(before.dims(), written), value),
    ensures
        after@[flat_position(after.dims(), read)] == if read == written {
            value
        } else {
            before@[flat_position(before.dims(), read)]
        },
{
    lemma_flat_position_in_bounds(before.dims(), written);
    lemma_flat_position_in_bounds(before.dims(), read);
    if flat_position(before.dims(), read) == flat_position(before.dims(), written) {
        lemma_flat_position_injective(before.dims(), read, written);
    }
}

} // verus!
