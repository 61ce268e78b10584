//! The weight-initialisation schemes, as far as they are decisions: which
//! distribution, which fan and which constant, and which draws of the
//! generator go into each weight. Turning draws into numbers is the
//! caller's (it is floating-point work).
use vstd::prelude::*;

use crate::rng::{Rng, lemma_kth_draw, spec_advance, spec_next_u64};

verus! {

/// How the weights of a dense layer are drawn.
#[derive(Clone, Copy, Debug, PartialEq, Eq, Structural)]
pub enum Initialization {
    /// Uniform in `±sqrt(6 / (inputs + outputs))`.
    XavierUniform,
    /// Normal with standard deviation `sqrt(2 / (inputs + outputs))`.
    XavierNormal,
    /// Uniform in `±sqrt(6 / inputs)`.
    HeUniform,
    /// Normal with standard deviation `sqrt(2 / inputs)`.
    HeNormal,
}

/// The family of distribution a scheme draws from.
#[derive(Clone, Copy, Debug, PartialEq, Eq, Structural)]
pub enum Distribution {
    /// Uniform in `±sqrt(numerator / fan)`.
    Uniform,
    /// Centred normal with standard deviation `sqrt(numerator / fan)`.
    Normal,
}

/// What drawing the weights of a layer takes: the distribution, its scale
/// as `sqrt(numerator / fan)`, and how many weights to draw.
#[derive(Clone, Copy, Debug, PartialEq, Eq, Structural)]
pub struct InitializationPlan {
    pub distribution: Distribution,
    pub numerator: u32,
    pub fan: usize,
    pub weight_count: usize,
}

/// The plan of a scheme for a layer with these sizes.
pub open spec fn spec_plan(
    initialization: Initialization,
    input_size: usize,
    output_size: usize,
) -> InitializationPlan {
    let weight_count = (input_size * output_size) as usize;
    match initialization {
        Initialization::XavierUniform => InitializationPlan {
            distribution: Distribution::Uniform,
            numerator: 6,
            fan: (input_size + output_size) as usize,
            weight_count,
        },
        Initialization::XavierNormal => InitializationPlan {
            distribution: Distribution::Normal,
            numerator: 2,
            fan: (input_size + output_size) as usize,
            weight_count,
        },
        Initialization::HeUniform => InitializationPlan {
            distribution: Distribution::Uniform,
            numerator: 6,
            fan: input_size,
            weight_count,
        },
        Initialization::HeNormal => InitializationPlan {
            distribution: Distribution::Normal,
            numerator: 2,
            fan: input_size,
            weight_count,
        },
    }
}

impl Initialization {
    /// The plan for a layer of `input_size` inputs and `output_size`
    /// outputs (both non-zero).
    pub fn plan(self, input_size: usize, output_size: usize) -> (plan: InitializationPlan)
        requires
            input_size > 0,
            output_size > 0,
            (self is XavierUniform || self is XavierNormal) ==> input_size + output_size
                <= usize::MAX,
            input_size * output_size <= usize::MAX,
        ensures
            plan == spec_plan(self, input_size, output_size),
            plan.fan > 0,
    {
        let weight_count = input_size * output_size;
        match self {
            Initialization::XavierUniform => InitializationPlan {
                distribution: Distribution::Uniform,
                numerator: 6,
                fan: input_size + output_size,
                weight_count,
            },
            Initialization::XavierNormal => InitializationPlan {
                distribution: Distribution::Normal,
                numerator: 2,
                fan: input_size + output_size,
                weight_count,
            },
            Initialization::HeUniform => InitializationPlan {
                distribution: Distribution::Uniform,
                numerator: 6,
                fan: input_size,
                weight_count,
            },
            Initialization::HeNormal => InitializationPlan {
                distribution: Distribution::Normal,
                numerator: 2,
                fan: input_size,
                weight_count,
            },
        }
    }
}

/// The 24-bit fraction numerator of draw `index` (counted from zero) of a
/// generator whose state is `state`.
pub open spec fn fraction_draw(state: u64, index: nat) -> u32 {
    (spec_next_u64(spec_advance(state, index)) >> 40u64) as u32
}

/// How many draws a weight of this distribution takes.
pub open spec fn draws_per_weight(distribution: Distribution) -> nat {
    match distribution {
        Distribution::Uniform => 1,
        Distribution::Normal => 2,
    }
}

/// Weight `index` is what the sampler of `distribution` gives for its
/// draws from a generator whose state was `state`: a uniform weight takes
/// draw `index`, a normal weight draws `2 * index` and `2 * index + 1`.
pub open spec fn weight_drawn<T, U: Fn(u32) -> T, N: Fn(u32, u32) -> T>(
    distribution: Distribution,
    uniform: U,
    normal: N,
    state: u64,
    index: int,
    weight: T,
) -> bool {
    match distribution {
        Distribution::Uniform => uniform.ensures((fraction_draw(state, index as nat),), weight),
        Distribution::Normal => normal.ensures(
            (fraction_draw(state, (2 * index) as nat), fraction_draw(state, (2 * index + 1) as nat)),
            weight,
        ),
    }
}

/// Draws the `weight_count` weights of a plan in order: each uniform weight
/// is `uniform` of the next 24-bit fraction draw, each normal weight is
/// `normal` of the next two, the first one first.
pub fn draw_weights<T, U: Fn(u32) -> T, N: Fn(u32, u32) -> T>(
    plan: InitializationPlan,
    rng: &mut Rng,
    uniform: U,
    normal: N,
) -> (weights: Vec<T>)
    requires
        forall|bits: u32| #[trigger] uniform.requires((bits,)),
        forall|first: u32, second: u32| #[trigger] normal.requires((first, second)),
    ensures
        weights@.len() == plan.weight_count,
        final(rng)@ == spec_advance(
            old(rng)@,
            (draws_per_weight(plan.distribution) * plan.weight_count) as nat,
        ),
        forall|i: int|
            0 <= i < plan.weight_count ==> weight_drawn(
                plan.distribution,
                uniform,
                normal,
                old(rng)@,
                i,
                #[trigger] weights@[i],
            ),
{
    let count = plan.weight_count;
    let ghost start = rng@;
    let ghost per = draws_per_weight(plan.distribution);
    let mut weights: Vec<T> = Vec::new();
    let mut index: usize = 0;
    while index < count
        invariant
            count == plan.weight_count,
            per == draws_per_weight(plan.distribution),
            index <= count,
            weights@.len() == index,
            rng@ == spec_advance(start, (per * index) as nat),
            forall|bits: u32| #[trigger] uniform.requires((bits,)),
            forall|first: u32, second: u32| #[trigger] normal.requires((first, second)),
            forall|i: int|
                0 <= i < index ==> weight_drawn(
                    plan.distribution,
                    uniform,
                    normal,
                    start,
                    i,
                    #[trigger] weights@[i],
                ),
        decreases count - index,
    {
        match plan.distribution {
            Distribution::Uniform => {
                let bits = rng.next_fraction_bits();
                proof {
                    lemma_kth_draw(start, (index + 1) as nat);
                }
                let weight = uniform(bits);
                weights.push(weight);
            },
            Distribution::Normal => {
                let first = rng.next_fraction_bits();
                let second = rng.next_fraction_bits();
                proof {
                    lemma_kth_draw(start, (2 * index + 1) as nat);
                    lemma_kth_draw(start, (2 * index + 2) as nat);
                }
                let weight = normal(first, second);
                weights.push(weight);
            },
        }
        index = index + 1;
    }
    weights
}

} // verus!
