//! Row-major shapes: element counts, strides and flat positions.
use vstd::prelude::*;

verus! {

/// The product of the dimensions from position `from` to the end.
pub open spec fn tail_product(shape: Seq<usize>, from: int) -> int
    decreases shape.len() - from,
{
    if from < 0 || from >= shape.len() {
        1
    } else {
        tail_product(shape, from + 1) * shape[from]
    }
}

/// The number of elements of a tensor of this shape.
pub open spec fn shape_product(shape: Seq<usize>) -> int {
    tail_product(shape, 0)
}

/// A shape that a tensor can have: at least one dimension, no dimension of
/// size zero, and an element count that fits in `usize`.
pub open spec fn valid_shape(shape: Seq<usize>) -> bool {
    &&& shape.len() >= 1
    &&& forall|d: int| 0 <= d < shape.len() ==> #[trigger] shape[d] > 0
    &&& shape_product(shape) <= usize::MAX
}

/// The row-major strides of a shape: dimension `d` advances by the product
/// of the dimensions after it.
pub open spec fn row_major_strides(shape: Seq<usize>) -> Seq<usize> {
    Seq::new(shape.len(), |d: int| tail_product(shape, d + 1) as usize)
}

/// Every index is within its dimension.
pub open spec fn indices_in_bounds(shape: Seq<usize>, indices: Seq<usize>) -> bool {
    &&& indices.len() == shape.len()
    &&& forall|d: int| 0 <= d < shape.len() ==> #[trigger] indices[d] < shape[d]
}

/// The contribution of dimensions `from..` to the flat position.
pub open spec fn offset_from(shape: Seq<usize>, indices: Seq<usize>, from: int) -> int
    decreases shape.len() - from,
{
    if from < 0 || from >= shape.len() {
        0
    } else {
        indices[from] * tail_product(shape, from + 1) + offset_from(shape, indices, from + 1)
    }
}

/// The row-major flat position of a multi-index.
pub open spec fn flat_position(shape: Seq<usize>, indices: Seq<usize>) -> int {
    offset_from(shape, indices, 0)
}

/// Every tail product of a shape without zero dimensions is positive and no
/// larger than the tail products before it.
pub proof fn lemma_tail_product_bounds(shape: Seq<usize>, from: int)
    requires
        forall|d: int| 0 <= d < shape.len() ==> #[trigger] shape[d] > 0,
        0 <= from <= shape.len(),
    ensures
        tail_product(shape, from) >= 1,
        tail_product(shape, from) <= shape_product(shape),
    decreases from,
{
    lemma_tail_product_positive(shape, from);
    if from > 0 {
        lemma_tail_product_bounds(shape, from - 1);
        lemma_tail_product_positive(shape, from);
        let rest = tail_product(shape, from);
        let dim = shape[from - 1] as int;
        assert(rest <= rest * dim) by (nonlinear_arith)
            requires
                rest >= 1,
                dim >= 1,
        ;
    }
}

/// Tail products of a shape without zero dimensions are positive.
pub proof fn lemma_tail_product_positive(shape: Seq<usize>, from: int)
    requires
        forall|d: int| 0 <= d < shape.len() ==> #[trigger] shape[d] > 0,
        0 <= from <= shape.len(),
    ensures
        tail_product(shape, from) >= 1,
    decreases shape.len() - from,
{
    if from < shape.len() {
        lemma_tail_product_positive(shape, from + 1);
        let rest = tail_product(shape, from + 1);
        let dim = shape[from] as int;
        assert(rest * dim >= 1) by (nonlinear_arith)
            requires
                rest >= 1,
                dim >= 1,
        ;
    }
}

/// The offset of in-bounds indices over dimensions `from..` is below the
/// tail product from `from`.
pub proof fn lemma_offset_from_bound(shape: Seq<usize>, indices: Seq<usize>, from: int)
    requires
        indices_in_bounds(shape, indices),
        forall|d: int| 0 <= d < shape.len() ==> #[trigger] shape[d] > 0,
        0 <= from <= shape.len(),
    ensures
        0 <= offset_from(shape, indices, from) < tail_product(shape, from),
    decreases shape.len() - from,
{
    if from < shape.len() {
        lemma_offset_from_bound(shape, indices, from + 1);
        lemma_tail_product_positive(shape, from + 1);
        let rest = tail_product(shape, from + 1);
        let index = indices[from] as int;
        let dim = shape[from] as int;
        let tail_offset = offset_from(shape, indices, from + 1);
        assert(0 <= index * rest + tail_offset < rest * dim) by (nonlinear_arith)
            requires
                0 <= index < dim,
                0 <= tail_offset < rest,
                rest >= 1,
        ;
    }
}

/// In-bounds indices land inside the data of a valid shape.
pub proof fn lemma_flat_position_in_bounds(shape: Seq<usize>, indices: Seq<usize>)
    requires
        valid_shape(shape),
        indices_in_bounds(shape, indices),
    ensures
        0 <= flat_position(shape, indices) < shape_product(shape),
{
    lemma_offset_from_bound(shape, indices, 0);
}

/// Different in-bounds multi-indices have different flat positions from
/// dimension `from` on.
pub proof fn lemma_offset_from_injective(
    shape: Seq<usize>,
    first: Seq<usize>,
    second: Seq<usize>,
    from: int,
)
    requires
        indices_in_bounds(shape, first),
        indices_in_bounds(shape, second),
        forall|d: int| 0 <= d < shape.len() ==> #[trigger] shape[d] > 0,
        0 <= from <= shape.len(),
        offset_from(shape, first, from) == offset_from(shape, second, from),
    ensures
        forall|d: int| from <= d < shape.len() ==> #[trigger] first[d] == second[d],
    decreases shape.len() - from,
{
    if from < shape.len() {
        lemma_offset_from_bound(shape, first, from + 1);
        lemma_offset_from_bound(shape, second, from + 1);
        let stride = tail_product(shape, from + 1);
        let a = first[from] as int;
        let b = second[from] as int;
        let rest_a = offset_from(shape, first, from + 1);
        let rest_b = offset_from(shape, second, from + 1);
        assert(a == b && rest_a == rest_b) by (nonlinear_arith)
            requires
                a * stride + rest_a == b * stride + rest_b,
                0 <= rest_a < stride,
                0 <= rest_b < stride,
                a >= 0,
                b >= 0,
        ;
        lemma_offset_from_injective(shape, first, second, from + 1);
    }
}

/// Two in-bounds multi-indices share a flat position only if they are equal.
pub proof fn lemma_flat_position_injective(shape: Seq<usize>, first: Seq<usize>, second: Seq<usize>)
    requires
        valid_shape(shape),
        indices_in_bounds(shape, first),
        indices_in_bounds(shape, second),
        flat_position(shape, first) == flat_position(shape, second),
    ensures
        first == second,
{
    lemma_offset_from_injective(shape, first, second, 0);
    assert(first =~= second);
}

/// Why a list of dimensions is not a shape that a tensor can have.
#[derive(Clone, Copy, Debug, PartialEq, Eq, Structural)]
pub enum ShapeError {
    /// The list is empty.
    NoDimensions,
    /// A dimension is zero.
    ZeroDimension,
    /// The element count does not fit in `usize`.
    TooLarge,
}

/// The product of the first `count` dimensions.
pub open spec fn head_product(shape: Seq<usize>, count: nat) -> int
    decreases count,
{
    if count == 0 {
        1
    } else {
        head_product(shape, (count - 1) as nat) * shape[count - 1]
    }
}

/// A left-to-right scan of the first `count` dimensions that keeps a running
/// product: the product, or the first failure it meets (a zero dimension, or
/// a running product past `usize::MAX`).
pub open spec fn scan_dimensions(shape: Seq<usize>, count: nat) -> Result<int, ShapeError>
    decreases count,
{
    if count == 0 {
        Ok(1)
    } else {
        match scan_dimensions(shape, (count - 1) as nat) {
            Err(error) => Err(error),
            Ok(product) => if shape[count - 1] == 0 {
                Err(ShapeError::ZeroDimension)
            } else if product * shape[count - 1] > usize::MAX {
                Err(ShapeError::TooLarge)
            } else {
                Ok(product * shape[count - 1])
            },
        }
    }
}

/// The element count of a list of dimensions, or the first reason it is not
/// a shape.
pub open spec fn shape_check(shape: Seq<usize>) -> Result<int, ShapeError> {
    if shape.len() == 0 {
        Err(ShapeError::NoDimensions)
    } else {
        scan_dimensions(shape, shape.len())
    }
}

/// The product of the first dimensions times the product of the rest is the
/// product of them all.
proof fn lemma_head_tail_product(shape: Seq<usize>, count: nat)
    requires
        count <= shape.len(),
    ensures
        head_product(shape, count) * tail_product(shape, count as int) == shape_product(shape),
    decreases count,
{
    if count > 0 {
        lemma_head_tail_product(shape, (count - 1) as nat);
        let head = head_product(shape, (count - 1) as nat);
        let dim = shape[count - 1] as int;
        let tail = tail_product(shape, count as int);
        assert(tail_product(shape, count - 1) == tail * dim);
        assert((head * dim) * tail == head * (tail * dim)) by (nonlinear_arith);
    }
}

/// With no zero dimension, a longer head has a product at least as large.
proof fn lemma_head_product_grows(shape: Seq<usize>, count: nat, longer: nat)
    requires
        count <= longer <= shape.len(),
        forall|d: int| 0 <= d < shape.len() ==> #[trigger] shape[d] > 0,
    ensures
        1 <= head_product(shape, count) <= head_product(shape, longer),
    decreases longer,
{
    if longer > 0 {
        if count < longer {
            lemma_head_product_grows(shape, count, (longer - 1) as nat);
        } else {
            lemma_head_product_grows(shape, (longer - 1) as nat, (longer - 1) as nat);
        }
        let head = head_product(shape, (longer - 1) as nat);
        let dim = shape[longer - 1] as int;
        assert(head <= head * dim && head * dim >= 1) by (nonlinear_arith)
            requires
                head >= 1,
                dim >= 1,
        ;
    }
}

/// Once the scan has failed, it keeps that failure.
proof fn lemma_scan_failure_stays(shape: Seq<usize>, count: nat, longer: nat)
    requires
        count <= longer,
        scan_dimensions(shape, count) is Err,
    ensures
        scan_dimensions(shape, longer) == scan_dimensions(shape, count),
    decreases longer,
{
    if longer > count {
        lemma_scan_failure_stays(shape, count, (longer - 1) as nat);
    }
}

/// Checks a list of dimensions as tensor construction does, dimension by
/// dimension from the first: the element count when it is a valid shape,
/// else the first failure met.
pub fn checked_element_count(shape: &[usize]) -> (result: Result<usize, ShapeError>)
    ensures
        match result {
            Ok(count) => shape_check(shape@) == Ok::<int, ShapeError>(count as int),
            Err(error) => shape_check(shape@) == Err::<int, ShapeError>(error),
        },
        result is Ok <==> valid_shape(shape@),
        result matches Ok(count) ==> count == shape_product(shape@),
{
    if shape.len() == 0 {
        return Err(ShapeError::NoDimensions);
    }
    let mut count: usize = 1;
    let mut dimension: usize = 0;
    while dimension < shape.len()
        invariant
            dimension <= shape@.len(),
            shape@.len() >= 1,
            scan_dimensions(shape@, dimension as nat) == Ok::<int, ShapeError>(count as int),
            count == head_product(shape@, dimension as nat),
            forall|d: int| 0 <= d < dimension ==> #[trigger] shape@[d] > 0,
        decreases shape.len() - dimension,
    {
        let size = shape[dimension];
        if size == 0 {
            proof {
                lemma_scan_failure_stays(shape@, (dimension + 1) as nat, shape@.len());
            }
            return Err(ShapeError::ZeroDimension);
        }
        match count.checked_mul(size) {
            Some(next) => {
                count = next;
                dimension = dimension + 1;
            },
            None => {
                proof {
                    lemma_scan_failure_stays(shape@, (dimension + 1) as nat, shape@.len());
                    if forall|d: int| 0 <= d < shape@.len() ==> #[trigger] shape@[d] > 0 {
                        lemma_head_product_grows(shape@, (dimension + 1) as nat, shape@.len());
                        lemma_head_tail_product(shape@, shape@.len());
                    }
                }
                return Err(ShapeError::TooLarge);
            },
        }
    }
    proof {
        lemma_head_tail_product(shape@, shape@.len());
    }
    Ok(count)
}

/// Computes the number of elements of a valid shape.
pub fn element_count(shape: &[usize]) -> (count: usize)
    requires
        valid_shape(shape@),
    ensures
        count == shape_product(shape@),
{
    let mut count: usize = 1;
    let mut dimension: usize = shape.len();
    while dimension > 0
        invariant
            valid_shape(shape@),
            dimension <= shape@.len(),
            count == tail_product(shape@, dimension as int),
        decreases dimension,
    {
        proof {
            lemma_tail_product_bounds(shape@, dimension - 1);
        }
        dimension = dimension - 1;
        count = count * shape[dimension];
    }
    count
}

/// Computes the row-major strides of a valid shape.
pub fn calculate_strides(shape: &[usize]) -> (strides: Vec<usize>)
    requires
        valid_shape(shape@),
    ensures
        strides@ == row_major_strides(shape@),
{
    let length = shape.len();
    let mut strides: Vec<usize> = Vec::new();
    let mut filled: usize = 0;
    while filled < length
        invariant
            length == shape@.len(),
            filled <= length,
            strides@.len() == filled,
            forall|d: int| 0 <= d < filled ==> #[trigger] strides@[d] == 1,
        decreases length - filled,
    {
        strides.push(1);
        filled = filled + 1;
    }
    if length > 1 {
        let mut dimension: usize = length - 1;
        while dimension > 0
            invariant
                valid_shape(shape@),
                length == shape@.len(),
                strides@.len() == length,
                0 <= dimension < length,
                forall|d: int| 0 <= d < dimension ==> #[trigger] strides@[d] == 1,
                forall|d: int|
                    dimension <= d < length ==> #[trigger] strides@[d] == tail_product(
                        shape@,
                        d + 1,
                    ),
            decreases dimension,
        {
            proof {
                lemma_tail_product_bounds(shape@, dimension as int);
                lemma_tail_product_bounds(shape@, dimension + 1);
            }
            let next = strides[dimension] * shape[dimension];
            dimension = dimension - 1;
            strides.set(dimension, next);
        }
    }
    assert(strides@ =~= row_major_strides(shape@));
    strides
}

/// Computes the row-major flat position of in-bounds indices.
pub fn flat_index(shape: &[usize], strides: &[usize], indices: &[usize]) -> (position: usize)
    requires
        valid_shape(shape@),
        strides@ == row_major_strides(shape@),
        indices_in_bounds(shape@, indices@),
    ensures
        position == flat_position(shape@, indices@),
        position < shape_product(shape@),
{
    proof {
        lemma_flat_position_in_bounds(shape@, indices@);
    }
    let mut position: usize = 0;
    let mut dimension: usize = indices.len();
    while dimension > 0
        invariant
            valid_shape(shape@),
            strides@ == row_major_strides(shape@),
            indices_in_bounds(shape@, indices@),
            dimension <= indices@.len(),
            position == offset_from(shape@, indices@, dimension as int),
        decreases dimension,
    {
        proof {
            lemma_offset_from_bound(shape@, indices@, dimension - 1);
            lemma_tail_product_bounds(shape@, dimension - 1);
            lemma_tail_product_bounds(shape@, dimension as int);
            assert(strides@[dimension - 1] == tail_product(shape@, dimension as int));
            let index = indices@[dimension - 1] as int;
            let stride = tail_product(shape@, dimension as int);
            assert(0 <= index * stride) by (nonlinear_arith)
                requires
                    index >= 0,
                    stride >= 1,
            ;
        }
        dimension = dimension - 1;
        position = indices[dimension] * strides[dimension] + position;
    }
    position
}

} // verus!
