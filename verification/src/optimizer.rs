//! The state that the Adam optimiser keeps per dense layer: a first and a
//! second moment for every parameter, and the number of steps taken. The
//! per-parameter arithmetic is the caller's.
use vstd::prelude::*;

use crate::dense::Dense;
use crate::tensor::Tensor;

verus! {

/// Adam's moments for the weights and biases of one dense layer.
#[derive(Clone, Debug)]
pub struct AdamState<T> {
    weight_first_moment: Tensor<T>,
    weight_second_moment: Tensor<T>,
    bias_first_moment: Tensor<T>,
    bias_second_moment: Tensor<T>,
    step: u64,
}

impl<T> AdamState<T> {
    /// The running mean of the weight gradients.
    pub closed spec fn weight_first(&self) -> Tensor<T> {
        self.weight_first_moment
    }

    /// The running mean of the squared weight gradients.
    pub closed spec fn weight_second(&self) -> Tensor<T> {
        self.weight_second_moment
    }

    /// The running mean of the bias gradients.
    pub closed spec fn bias_first(&self) -> Tensor<T> {
        self.bias_first_moment
    }

    /// The running mean of the squared bias gradients.
    pub closed spec fn bias_second(&self) -> Tensor<T> {
        self.bias_second_moment
    }

    /// The number of steps taken.
    pub closed spec fn steps(&self) -> u64 {
        self.step
    }

    /// Well-formed moments, the two moments of a parameter group alike in
    /// shape.
    pub open spec fn wf(&self) -> bool {
        &&& self.weight_first().wf()
        &&& self.weight_second().wf()
        &&& self.bias_first().wf()
        &&& self.bias_second().wf()
        &&& self.weight_second().dims() == self.weight_first().dims()
        &&& self.bias_second().dims() == self.bias_first().dims()
    }

    /// The state belongs to a layer with these parameter shapes.
    pub open spec fn matches(&self, layer: &Dense<T>) -> bool {
        &&& self.weight_first().dims() == layer.weight_tensor().dims()
        &&& self.bias_first().dims() == layer.bias_tensor().dims()
    }
}

impl<T: Copy> AdamState<T> {
    /// Zero moments shaped like the layer's parameters, and no step taken.
    pub fn for_dense(layer: &Dense<T>, zero: T) -> (state: AdamState<T>)
        requires
            layer.wf(),
        ensures
            state.wf(),
            state.matches(layer),
            state.steps() == 0,
            state.weight_first()@ == Seq::new(layer.weight_tensor()@.len(), |i: int| zero),
            state.weight_second()@ == Seq::new(layer.weight_tensor()@.len(), |i: int| zero),
            state.bias_first()@ == Seq::new(layer.bias_tensor()@.len(), |i: int| zero),
            state.bias_second()@ == Seq::new(layer.bias_tensor()@.len(), |i: int| zero),
    {
        AdamState {
            weight_first_moment: Tensor::filled(layer.weights().shape(), zero),
            weight_second_moment: Tensor::filled(layer.weights().shape(), zero),
            bias_first_moment: Tensor::filled(layer.biases().shape(), zero),
            bias_second_moment: Tensor::filled(layer.biases().shape(), zero),
            step: 0,
        }
    }

    /// The number of steps taken.
    pub fn step(&self) -> (step: u64)
        ensures
            step == self.steps(),
    {
        self.step
    }

    /// The first moment of the weights.
    pub fn weight_first_moment(&self) -> (moment: &Tensor<T>)
        ensures
            *moment == self.weight_first(),
    {
        &self.weight_first_moment
    }

    /// The first moment of the biases.
    pub fn bias_first_moment(&self) -> (moment: &Tensor<T>)
        ensures
            *moment == self.bias_first(),
    {
        &self.bias_first_moment
    }

    /// Counts one more step and returns the new count.
    pub fn advance(&mut self) -> (step: u64)
        requires
            old(self).steps() < u64::MAX,
        ensures
            step == old(self).steps() + 1,
            final(self).steps() == step,
            final(self).weight_first() == old(self).weight_first(),
            final(self).weight_second() == old(self).weight_second(),
            final(self).bias_first() == old(self).bias_first(),
            final(self).bias_second() == old(self).bias_second(),
    {
        self.step = self.step + 1;
        self.step
    }

    /// Updates every parameter of the layer together with its two moments:
    /// `update(parameter, gradient, first, second)` gives the new parameter
    /// and the new moments.
    pub fn update_dense<U: Fn(T, T, T, T) -> (T, T, T) + Copy>(
        &mut self,
        layer: &mut Dense<T>,
        update: U,
    )
        requires
            old(self).wf(),
            old(layer).wf(),
            old(self).matches(old(layer)),
            forall|p: T, g: T, m: T, v: T| #[trigger] update.requires((p, g, m, v)),
        ensures
            final(self).wf(),
            final(layer).wf(),
            final(self).matches(final(layer)),
            final(self).steps() == old(self).steps(),
            final(layer).weight_tensor().dims() == old(layer).weight_tensor().dims(),
            final(layer).bias_tensor().dims() == old(layer).bias_tensor().dims(),
            final(layer).weight_gradient_tensor() == old(layer).weight_gradient_tensor(),
            final(layer).bias_gradient_tensor() == old(layer).bias_gradient_tensor(),
            final(layer).cached_input() == old(layer).cached_input(),
            forall|i: int|
                0 <= i < old(layer).weight_tensor()@.len() ==> update.ensures(
                    (
                        old(layer).weight_tensor()@[i],
                        old(layer).weight_gradient_tensor()@[i],
                        old(self).weight_first()@[i],
                        old(self).weight_second()@[i],
                    ),
                    (
                        #[trigger] final(layer).weight_tensor()@[i],
                        final(self).weight_first()@[i],
                        final(self).weight_second()@[i],
                    ),
                ),
            forall|i: int|
                0 <= i < old(layer).bias_tensor()@.len() ==> update.ensures(
                    (
                        old(layer).bias_tensor()@[i],
                        old(layer).bias_gradient_tensor()@[i],
                        old(self).bias_first()@[i],
                        old(self).bias_second()@[i],
                    ),
                    (
                        #[trigger] final(layer).bias_tensor()@[i],
                        final(self).bias_first()@[i],
                        final(self).bias_second()@[i],
                    ),
                ),
    {
        let weight_count = layer.weights().len();
        let mut index: usize = 0;
        while index < weight_count
            invariant
                self.wf(),
                layer.wf(),
                self.matches(layer),
                self.steps() == old(self).steps(),
                weight_count == layer.weight_tensor()@.len(),
                weight_count == old(layer).weight_tensor()@.len(),
                index <= weight_count,
                layer.weight_tensor().dims() == old(layer).weight_tensor().dims(),
                layer.bias_tensor() == old(layer).bias_tensor(),
                layer.weight_gradient_tensor() == old(layer).weight_gradient_tensor(),
                layer.bias_gradient_tensor() == old(layer).bias_gradient_tensor(),
                layer.cached_input() == old(layer).cached_input(),
                self.bias_first() == old(self).bias_first(),
                self.bias_second() == old(self).bias_second(),
                forall|p: T, g: T, m: T, v: T| #[trigger] update.requires((p, g, m, v)),
                forall|i: int|
                    index <= i < weight_count ==> {
                        &&& #[trigger] layer.weight_tensor()@[i] == old(layer).weight_tensor()@[i]
                        &&& self.weight_first()@[i] == old(self).weight_first()@[i]
                        &&& self.weight_second()@[i] == old(self).weight_second()@[i]
                    },
                forall|i: int|
                    0 <= i < index ==> update.ensures(
                        (
                            old(layer).weight_tensor()@[i],
                            old(layer).weight_gradient_tensor()@[i],
                            old(self).weight_first()@[i],
                            old(self).weight_second()@[i],
                        ),
                        (
                            #[trigger] layer.weight_tensor()@[i],
                            self.weight_first()@[i],
                            self.weight_second()@[i],
                        ),
                    ),
            decreases weight_count - index,
        {
            let (parameter, first, second) = update(
                layer.weights().data()[index],
                layer.weight_gradients().data()[index],
                self.weight_first_moment.data()[index],
                self.weight_second_moment.data()[index],
            );
            layer.set_weight(index, parameter);
            self.weight_first_moment.set_flat(index, first);
            self.weight_second_moment.set_flat(index, second);
            index = index + 1;
        }
        let bias_count = layer.biases().len();
        let mut index: usize = 0;
        while index < bias_count
            invariant
                self.wf(),
                layer.wf(),
                self.matches(layer),
                self.steps() == old(self).steps(),
                bias_count == layer.bias_tensor()@.len(),
                bias_count == old(layer).bias_tensor()@.len(),
                index <= bias_count,
                layer.weight_tensor().dims() == old(layer).weight_tensor().dims(),
                layer.weight_tensor()@.len() == old(layer).weight_tensor()@.len(),
                layer.bias_tensor().dims() == old(layer).bias_tensor().dims(),
                layer.weight_gradient_tensor() == old(layer).weight_gradient_tensor(),
                layer.bias_gradient_tensor() == old(layer).bias_gradient_tensor(),
                layer.cached_input() == old(layer).cached_input(),
                forall|p: T, g: T, m: T, v: T| #[trigger] update.requires((p, g, m, v)),
                forall|i: int|
                    0 <= i < old(layer).weight_tensor()@.len() ==> update.ensures(
                        (
                            old(layer).weight_tensor()@[i],
                            old(layer).weight_gradient_tensor()@[i],
                            old(self).weight_first()@[i],
                            old(self).weight_second()@[i],
                        ),
                        (
                            #[trigger] layer.weight_tensor()@[i],
                            self.weight_first()@[i],
                            self.weight_second()@[i],
                        ),
                    ),
                forall|i: int|
                    index <= i < bias_count ==> {
                        &&& #[trigger] layer.bias_tensor()@[i] == old(layer).bias_tensor()@[i]
                        &&& self.bias_first()@[i] == old(self).bias_first()@[i]
                        &&& self.bias_second()@[i] == old(self).bias_second()@[i]
                    },
                forall|i: int|
                    0 <= i < index ==> update.ensures(
                        (
                            old(layer).bias_tensor()@[i],
                            old(layer).bias_gradient_tensor()@[i],
                            old(self).bias_first()@[i],
                            old(self).bias_second()@[i],
                        ),
                        (
                            #[trigger] layer.bias_tensor()@[i],
                            self.bias_first()@[i],
                            self.bias_second()@[i],
                        ),
                    ),
            decreases bias_count - index,
        {
            let (parameter, first, second) = update(
                layer.biases().data()[index],
                layer.bias_gradients().data()[index],
                self.bias_first_moment.data()[index],
                self.bias_second_moment.data()[index],
            );
            layer.set_bias(index, parameter);
            self.bias_first_moment.set_flat(index, first);
            self.bias_second_moment.set_flat(index, second);
            index = index + 1;
        }
    }
}

} // verus!
