//! The ReLU activation: it keeps which inputs were positive, so that the
//! backward pass lets gradients through exactly there.
use vstd::prelude::*;

use crate::func::{apply1, is_function1, lemma_apply1};
use crate::shape::{shape_product, valid_shape};
use crate::tensor::Tensor;

verus! {

/// A rectified linear unit that remembers, from its last forward pass, the
/// input's shape and which of its elements were positive.
#[derive(Clone, Debug)]
pub struct ReLU {
    positive_mask: Vec<u8>,
    cached_shape: Vec<usize>,
}

impl ReLU {
    /// For each input element of the last forward pass, 1 where it was
    /// positive and 0 elsewhere.
    pub closed spec fn mask(&self) -> Seq<u8> {
        self.positive_mask@
    }

    /// The shape of the last forward pass's input (empty before any).
    pub closed spec fn cached_dims(&self) -> Seq<usize> {
        self.cached_shape@
    }

    /// Either no forward pass yet, or a mask of 0s and 1s for an input of a
    /// valid shape.
    pub open spec fn wf(&self) -> bool {
        ||| (self.cached_dims().len() == 0 && self.mask().len() == 0)
        ||| {
            &&& valid_shape(self.cached_dims())
            &&& self.mask().len() == shape_product(self.cached_dims())
            &&& forall|i: int| 0 <= i < self.mask().len() ==> #[trigger] self.mask()[i] <= 1
        }
    }

    /// A unit that has not run forward yet.
    pub fn new() -> (relu: ReLU)
        ensures
            relu.wf(),
            relu.mask().len() == 0,
            relu.cached_dims().len() == 0,
    {
        ReLU { positive_mask: Vec::new(), cached_shape: Vec::new() }
    }

    /// The shape of the last forward pass's input (empty before any).
    pub fn cached_shape(&self) -> (shape: &[usize])
        ensures
            shape@ == self.cached_dims(),
    {
        self.cached_shape.as_slice()
    }

    /// Passes each input element through where `is_positive` holds of it and
    /// writes `zero` elsewhere, remembering where it passed and the shape.
    pub fn forward<T: Copy, F: Fn(T) -> bool>(&mut self, input: &Tensor<T>, zero: T, is_positive: F) -> (output:
        Tensor<T>)
        requires
            input.wf(),
            forall|i: int| 0 <= i < input@.len() ==> #[trigger] is_positive.requires((input@[i],)),
        ensures
            final(self).wf(),
            final(self).cached_dims() == input.dims(),
            final(self).mask().len() == input@.len(),
            output.wf(),
            output.dims() == input.dims(),
            forall|i: int|
                0 <= i < input@.len() ==> {
                    &&& is_positive.ensures((input@[i],), #[trigger] final(self).mask()[i] == 1)
                    &&& final(self).mask()[i] <= 1
                    &&& output@[i] == if final(self).mask()[i] == 1 {
                        input@[i]
                    } else {
                        zero
                    }
                },
    {
        let length = input.len();
        let values = input.data();
        let mut mask: Vec<u8> = Vec::new();
        let mut data: Vec<T> = Vec::new();
        let mut index: usize = 0;
        while index < length
            invariant
                input.wf(),
                values@ == input@,
                length == input@.len(),
                index <= length,
                mask@.len() == index,
                data@.len() == index,
                forall|i: int| 0 <= i < input@.len() ==> #[trigger] is_positive.requires((input@[i],)),
                forall|i: int|
                    0 <= i < index ==> {
                        &&& is_positive.ensures((input@[i],), #[trigger] mask@[i] == 1)
                        &&& mask@[i] <= 1
                        &&& data@[i] == if mask@[i] == 1 {
                            input@[i]
                        } else {
                            zero
                        }
                    },
            decreases length - index,
        {
            let value = values[index];
            if is_positive(value) {
                mask.push(1);
                data.push(value);
            } else {
                mask.push(0);
                data.push(zero);
            }
            index = index + 1;
        }
        let shape = input.shape();
        let mut cached: Vec<usize> = Vec::new();
        let mut dimension: usize = 0;
        while dimension < shape.len()
            invariant
                dimension <= shape@.len(),
                cached@ == shape@.subrange(0, dimension as int),
            decreases shape.len() - dimension,
        {
            cached.push(shape[dimension]);
            dimension = dimension + 1;
            assert(cached@ =~= shape@.subrange(0, dimension as int));
        }
        assert(cached@ =~= input.dims());
        self.positive_mask = mask;
        self.cached_shape = cached;
        Tensor::from_vec(data, shape)
    }

    /// The activation without remembering anything: each output element is
    /// `rectify` of the input element (the larger of it and zero, for
    /// numbers).
    pub fn forward_inference<T: Copy, F: Fn(T) -> T>(&self, input: &Tensor<T>, rectify: F) -> (output:
        Tensor<T>)
        requires
            input.wf(),
            forall|a: T| #[trigger] rectify.requires((a,)),
        ensures
            output.wf(),
            output.dims() == input.dims(),
            output@.len() == input@.len(),
            forall|i: int| 0 <= i < input@.len() ==> rectify.ensures((input@[i],), #[trigger] output@[i]),
    {
        input.map(rectify)
    }

    /// Passes each gradient through where the last forward pass found its
    /// input positive and writes `zero` elsewhere.
    pub fn backward<T: Copy>(&self, output_gradients: &Tensor<T>, zero: T) -> (input_gradients:
        Tensor<T>)
        requires
            self.wf(),
            output_gradients.wf(),
            self.cached_dims().len() > 0,
            output_gradients.dims() == self.cached_dims(),
        ensures
            input_gradients.wf(),
            input_gradients.dims() == output_gradients.dims(),
            forall|i: int|
                0 <= i < output_gradients@.len() ==> #[trigger] input_gradients@[i] == if self.mask()[i]
                    == 1 {
                    output_gradients@[i]
                } else {
                    zero
                },
    {
        let length = output_gradients.len();
        let values = output_gradients.data();
        let mut data: Vec<T> = Vec::new();
        let mut index: usize = 0;
        while index < length
            invariant
                self.wf(),
                output_gradients.wf(),
                values@ == output_gradients@,
                self.mask().len() == length,
                length == output_gradients@.len(),
                index <= length,
                data@.len() == index,
                forall|i: int|
                    0 <= i < index ==> #[trigger] data@[i] == if self.mask()[i] == 1 {
                        output_gradients@[i]
                    } else {
                        zero
                    },
            decreases length - index,
        {
            if self.positive_mask[index] == 1 {
                data.push(values[index]);
            } else {
                data.push(zero);
            }
            index = index + 1;
        }
        Tensor::from_vec(data, output_gradients.shape())
    }
}

impl Default for ReLU {
    fn default() -> (relu: ReLU)
        ensures
            relu.wf(),
            relu.mask().len() == 0,
            relu.cached_dims().len() == 0,
    {
        ReLU::new()
    }
}

/// The backward pass lets a gradient through exactly where the forward pass
/// let the input through: where the positivity test holds of the input
/// element. Stated of a unit left by `forward` on `input` (with result
/// `output`) and the result of `backward` on `gradients` from that unit.
pub proof fn lemma_backward_follows_forward<T, F: Fn(T) -> bool>(
    relu: ReLU,
    input: Tensor<T>,
    output: Tensor<T>,
    gradients: Tensor<T>,
    input_gradients: Tensor<T>,
    zero: T,
    is_positive: F,
)
    requires
        is_function1(is_positive),
        relu.mask().len() == input@.len(),
        gradients@.len() == input@.len(),
        forall|i: int|
            0 <= i < input@.len() ==> {
                &&& is_positive.ensures((input@[i],), #[trigger] relu.mask()[i] == 1)
                &&& output@[i] == if relu.mask()[i] == 1 {
                    input@[i]
                } else {
                    zero
                }
            },
        forall|i: int|
            0 <= i < gradients@.len() ==> #[trigger] input_gradients@[i] == if relu.mask()[i] == 1 {
                gradients@[i]
            } else {
                zero
            },
    ensures
        forall|i: int|
            0 <= i < input@.len() ==> #[trigger] input_gradients@[i] == if apply1(
                is_positive,
                input@[i],
            ) {
                gradients@[i]
            } else {
                zero
            },
        forall|i: int|
            0 <= i < input@.len() ==> #[trigger] output@[i] == if apply1(is_positive, input@[i]) {
                input@[i]
            } else {
                zero
            },
{
    assert forall|i: int| 0 <= i < input@.len() implies #[trigger] input_gradients@[i] == if apply1(
        is_positive,
        input@[i],
    ) {
        gradients@[i]
    } else {
        zero
    } by {
        let passed = relu.mask()[i] == 1;
        assert(is_positive.ensures((input@[i],), passed));
        lemma_apply1(is_positive, input@[i], passed);
    }
    assert forall|i: int| 0 <= i < input@.len() implies #[trigger] output@[i] == if apply1(
        is_positive,
        input@[i],
    ) {
        input@[i]
    } else {
        zero
    } by {
        let passed = relu.mask()[i] == 1;
        assert(is_positive.ensures((input@[i],), passed));
        lemma_apply1(is_positive, input@[i], passed);
    }
}

} // verus!
