//! A deterministic SplitMix64 generator and the Fisher-Yates shuffle built on it.
use vstd::prelude::*;

verus! {

/// The SplitMix64 state increment (the golden-ratio gamma).
pub const GOLDEN_GAMMA: u64 = 0x9E37_79B9_7F4A_7C15;

/// First multiplier of the SplitMix64 finaliser.
pub const MIX_FIRST: u64 = 0xBF58_476D_1CE4_E5B9;

/// Second multiplier of the SplitMix64 finaliser.
pub const MIX_SECOND: u64 = 0x94D0_49BB_1331_11EB;

/// The state that follows `state`.
pub open spec fn spec_next_state(state: u64) -> u64 {
    vstd::wrapping::u64_specs::wrapping_add(state, GOLDEN_GAMMA)
}

/// The SplitMix64 finaliser applied to an (already advanced) state.
pub open spec fn spec_mix(state: u64) -> u64 {
    let first = vstd::wrapping::u64_specs::wrapping_mul(state ^ (state >> 30u64), MIX_FIRST);
    let second = vstd::wrapping::u64_specs::wrapping_mul(first ^ (first >> 27u64), MIX_SECOND);
    second ^ (second >> 31u64)
}

/// The value that `next_u64` returns from `state`.
pub open spec fn spec_next_u64(state: u64) -> u64 {
    spec_mix(spec_next_state(state))
}

/// The state after `count` draws starting from `state`.
pub open spec fn spec_advance(state: u64, count: nat) -> u64
    decreases count,
{
    if count == 0 {
        state
    } else {
        spec_advance(spec_next_state(state), (count - 1) as nat)
    }
}

/// The state after `count` draws from `seed`, in closed form: the seed plus
/// `count` golden gammas, modulo 2^64.
pub proof fn lemma_advance_closed_form(seed: u64, count: nat)
    ensures
        spec_advance(seed, count) == ((seed + count * GOLDEN_GAMMA) % 0x1_0000_0000_0000_0000) as u64,
    decreases count,
{
    let modulus: int = 0x1_0000_0000_0000_0000;
    if count == 0 {
        vstd::arithmetic::div_mod::lemma_small_mod(seed as nat, modulus as nat);
    } else {
        let next = spec_next_state(seed);
        lemma_advance_closed_form(next, (count - 1) as nat);
        assert(next == (seed + GOLDEN_GAMMA) % modulus);
        let rest = (count - 1) * GOLDEN_GAMMA;
        vstd::arithmetic::div_mod::lemma_add_mod_noop(seed + GOLDEN_GAMMA, rest, modulus);
        vstd::arithmetic::div_mod::lemma_add_mod_noop(next as int, rest, modulus);
        vstd::arithmetic::div_mod::lemma_mod_twice(seed + GOLDEN_GAMMA, modulus);
        vstd::arithmetic::div_mod::lemma_small_mod(next as nat, modulus as nat);
        assert(seed + GOLDEN_GAMMA + rest == seed + count * GOLDEN_GAMMA) by (nonlinear_arith)
            requires
                rest == (count - 1) * GOLDEN_GAMMA,
                count >= 1,
        ;
    }
}

/// The `count`-th value that a generator seeded with `seed` returns (the
/// first being number 1) is the finaliser applied to the seed plus `count`
/// golden gammas, modulo 2^64; drawing advances the state by one gamma.
pub proof fn lemma_kth_draw(seed: u64, count: nat)
    requires
        count >= 1,
    ensures
        spec_next_state(spec_advance(seed, (count - 1) as nat)) == spec_advance(seed, count),
        spec_next_u64(spec_advance(seed, (count - 1) as nat)) == spec_mix(
            ((seed + count * GOLDEN_GAMMA) % 0x1_0000_0000_0000_0000) as u64,
        ),
        count <= u64::MAX ==> spec_advance(seed, count) == vstd::wrapping::u64_specs::wrapping_add(
            seed,
            vstd::wrapping::u64_specs::wrapping_mul(count as u64, GOLDEN_GAMMA),
        ),
{
    let modulus: int = 0x1_0000_0000_0000_0000;
    let before = spec_advance(seed, (count - 1) as nat);
    lemma_advance_closed_form(seed, (count - 1) as nat);
    lemma_advance_closed_form(seed, count);
    let rest = seed + (count - 1) * GOLDEN_GAMMA;
    vstd::arithmetic::div_mod::lemma_add_mod_noop(rest, GOLDEN_GAMMA as int, modulus);
    vstd::arithmetic::div_mod::lemma_mod_twice(rest, modulus);
    vstd::arithmetic::div_mod::lemma_small_mod(GOLDEN_GAMMA as nat, modulus as nat);
    assert(rest + GOLDEN_GAMMA == seed + count * GOLDEN_GAMMA) by (nonlinear_arith)
        requires
            rest == seed + (count - 1) * GOLDEN_GAMMA,
    ;
    assert(spec_next_state(before) == spec_advance(seed, count));
    if count <= u64::MAX {
        let product = (count * GOLDEN_GAMMA) % modulus;
        vstd::arithmetic::div_mod::lemma_add_mod_noop_right(seed as int, count * GOLDEN_GAMMA, modulus);
        vstd::arithmetic::div_mod::lemma_mod_bound(count * GOLDEN_GAMMA, modulus);
        assert(vstd::wrapping::u64_specs::wrapping_mul(count as u64, GOLDEN_GAMMA) == product);
        vstd::arithmetic::div_mod::lemma_small_mod(seed as nat, modulus as nat);
    }
}

/// Multiplying by `MIX_FIRST` modulo 2^64 is undone by multiplying by its
/// inverse.
proof fn lemma_mix_first_invertible(value: u64)
    ensures
        vstd::wrapping::u64_specs::wrapping_mul(
            vstd::wrapping::u64_specs::wrapping_mul(value, MIX_FIRST),
            0x96de1b173f119089,
        ) == value,
{
    let modulus: int = 0x1_0000_0000_0000_0000;
    let x = value as int;
    vstd::arithmetic::div_mod::lemma_mul_mod_noop_left(x * MIX_FIRST, 0x96de1b173f119089, modulus);
    assert(MIX_FIRST * 0x96de1b173f119089 == 1 + 8125545580553827436 * modulus);
    vstd::arithmetic::mul::lemma_mul_is_associative(x, MIX_FIRST as int, 0x96de1b173f119089);
    assert(x * (MIX_FIRST * 0x96de1b173f119089) == x * (1 + 8125545580553827436 * modulus));
    vstd::arithmetic::mul::lemma_mul_is_distributive_add(x, 1, 8125545580553827436 * modulus);
    vstd::arithmetic::mul::lemma_mul_is_associative(x, 8125545580553827436, modulus);
    vstd::arithmetic::mul::lemma_mul_is_commutative(x * 8125545580553827436, modulus);
    assert((x * MIX_FIRST) * 0x96de1b173f119089 == modulus * (x * 8125545580553827436) + x);
    vstd::arithmetic::div_mod::lemma_mod_multiples_vanish(x * 8125545580553827436, x, modulus);
    vstd::arithmetic::div_mod::lemma_small_mod(value as nat, modulus as nat);
}

/// Multiplying by `MIX_SECOND` modulo 2^64 is undone by multiplying by its
/// inverse.
proof fn lemma_mix_second_invertible(value: u64)
    ensures
        vstd::wrapping::u64_specs::wrapping_mul(
            vstd::wrapping::u64_specs::wrapping_mul(value, MIX_SECOND),
            0x319642b2d24d8ec3,
        ) == value,
{
    let modulus: int = 0x1_0000_0000_0000_0000;
    let x = value as int;
    vstd::arithmetic::div_mod::lemma_mul_mod_noop_left(x * MIX_SECOND, 0x319642b2d24d8ec3, modulus);
    assert(MIX_SECOND * 0x319642b2d24d8ec3 == 1 + 2077064247507883091 * modulus);
    vstd::arithmetic::mul::lemma_mul_is_associative(x, MIX_SECOND as int, 0x319642b2d24d8ec3);
    assert(x * (MIX_SECOND * 0x319642b2d24d8ec3) == x * (1 + 2077064247507883091 * modulus));
    vstd::arithmetic::mul::lemma_mul_is_distributive_add(x, 1, 2077064247507883091 * modulus);
    vstd::arithmetic::mul::lemma_mul_is_associative(x, 2077064247507883091, modulus);
    vstd::arithmetic::mul::lemma_mul_is_commutative(x * 2077064247507883091, modulus);
    assert((x * MIX_SECOND) * 0x319642b2d24d8ec3 == modulus * (x * 2077064247507883091) + x);
    vstd::arithmetic::div_mod::lemma_mod_multiples_vanish(x * 2077064247507883091, x, modulus);
    vstd::arithmetic::div_mod::lemma_small_mod(value as nat, modulus as nat);
}

/// The finaliser never maps two states to one value.
pub proof fn lemma_mix_injective(first: u64, second: u64)
    ensures
        (spec_mix(first) == spec_mix(second)) == (first == second),
{
    if spec_mix(first) == spec_mix(second) {
        let a1 = first ^ (first >> 30u64);
        let b1 = second ^ (second >> 30u64);
        let a2 = vstd::wrapping::u64_specs::wrapping_mul(a1, MIX_FIRST);
        let b2 = vstd::wrapping::u64_specs::wrapping_mul(b1, MIX_FIRST);
        let a3 = a2 ^ (a2 >> 27u64);
        let b3 = b2 ^ (b2 >> 27u64);
        let a4 = vstd::wrapping::u64_specs::wrapping_mul(a3, MIX_SECOND);
        let b4 = vstd::wrapping::u64_specs::wrapping_mul(b3, MIX_SECOND);
        assert(a4 ^ (a4 >> 31u64) == b4 ^ (b4 >> 31u64));
        assert(a4 == b4) by (bit_vector)
            requires
                a4 ^ (a4 >> 31u64) == b4 ^ (b4 >> 31u64),
        ;
        lemma_mix_second_invertible(a3);
        lemma_mix_second_invertible(b3);
        assert(a2 == b2) by (bit_vector)
            requires
                a2 ^ (a2 >> 27u64) == b2 ^ (b2 >> 27u64),
        ;
        lemma_mix_first_invertible(a1);
        lemma_mix_first_invertible(b1);
        assert(first == second) by (bit_vector)
            requires
                first ^ (first >> 30u64) == second ^ (second >> 30u64),
        ;
    }
}

/// Different seeds give different first draws: the first value is a
/// one-to-one function of the seed (and the same seed gives the same
/// value, as every draw is a function of the state).
pub proof fn lemma_first_draw_injective(first_seed: u64, second_seed: u64)
    ensures
        (spec_next_u64(first_seed) == spec_next_u64(second_seed)) == (first_seed == second_seed),
{
    lemma_mix_injective(spec_next_state(first_seed), spec_next_state(second_seed));
}

/// `values` with the entries at `a` and `b` exchanged.
pub open spec fn swap_entries<T>(values: Seq<T>, a: int, b: int) -> Seq<T> {
    values.update(a, values[b]).update(b, values[a])
}

/// The Fisher-Yates pass over positions `current`, `current - 1`, ..., `1`:
/// position `current` is swapped with the draw reduced modulo `current + 1`.
/// Returns the values and the generator state after the pass.
pub open spec fn shuffle_from<T>(values: Seq<T>, state: u64, current: int) -> (Seq<T>, u64)
    decreases current,
{
    if current < 1 || current >= values.len() {
        (values, state)
    } else {
        let next_state = spec_next_state(state);
        let draw = spec_mix(next_state);
        let partner = (draw as int) % (current + 1);
        shuffle_from(swap_entries(values, current, partner), next_state, current - 1)
    }
}

/// What `shuffle` leaves in the slice and in the generator.
pub open spec fn spec_shuffle<T>(values: Seq<T>, state: u64) -> (Seq<T>, u64) {
    shuffle_from(values, state, values.len() - 1)
}

/// Exchanging two in-range entries keeps the multiset of values.
pub proof fn lemma_swap_entries_permutes<T>(values: Seq<T>, a: int, b: int)
    requires
        0 <= a < values.len(),
        0 <= b < values.len(),
    ensures
        swap_entries(values, a, b).to_multiset() == values.to_multiset(),
        swap_entries(values, a, b).len() == values.len(),
{
    broadcast use vstd::seq_lib::to_multiset_update;
    broadcast use vstd::multiset::group_multiset_axioms;
    broadcast use vstd::seq_lib::to_multiset_contains;

    if a == b {
        assert(swap_entries(values, a, b) =~= values);
    } else {
        let whole = values.to_multiset();
        let first = values.update(a, values[b]);
        assert(first.to_multiset() == whole.insert(values[b]).remove(values[a]));
        assert(first[b] == values[b]);
        assert(first.update(b, values[a]).to_multiset() == first.to_multiset().insert(
            values[a],
        ).remove(values[b]));
        assert(values.contains(values[a]));
        assert(whole.count(values[a]) > 0);
        assert(swap_entries(values, a, b).to_multiset() =~= whole);
    }
}

/// Each step of the pass keeps the multiset of values.
proof fn lemma_shuffle_from_permutes<T>(values: Seq<T>, state: u64, current: int)
    ensures
        shuffle_from(values, state, current).0.to_multiset() == values.to_multiset(),
        shuffle_from(values, state, current).0.len() == values.len(),
    decreases current,
{
    if current < 1 || current >= values.len() {
    } else {
        let next_state = spec_next_state(state);
        let partner = (spec_mix(next_state) as int) % (current + 1);
        lemma_swap_entries_permutes(values, current, partner);
        lemma_shuffle_from_permutes(swap_entries(values, current, partner), next_state, current - 1);
    }
}

/// Shuffling only reorders: the shuffled slice holds the same values, each
/// as many times as before.
pub proof fn lemma_shuffle_permutes<T>(values: Seq<T>, state: u64)
    ensures
        spec_shuffle(values, state).0.to_multiset() == values.to_multiset(),
        spec_shuffle(values, state).0.len() == values.len(),
{
    lemma_shuffle_from_permutes(values, state, values.len() - 1);
}

/// A pass from `current` down touches only the first `keep` positions, when
/// `current` lies below `keep`: it works on them as on a slice of their own
/// and leaves the rest in place.
proof fn lemma_shuffle_from_prefix<T>(values: Seq<T>, state: u64, current: int, keep: int)
    requires
        0 <= current < keep <= values.len(),
    ensures
        shuffle_from(values, state, current).0 == shuffle_from(values.take(keep), state, current).0
            + values.skip(keep),
        shuffle_from(values, state, current).1 == shuffle_from(values.take(keep), state, current).1,
    decreases current,
{
    if current < 1 {
        assert(values.take(keep) + values.skip(keep) =~= values);
    } else {
        let next_state = spec_next_state(state);
        let partner = (spec_mix(next_state) as int) % (current + 1);
        let swapped = swap_entries(values, current, partner);
        assert(swapped.take(keep) =~= swap_entries(values.take(keep), current, partner));
        assert(swapped.skip(keep) =~= values.skip(keep));
        lemma_shuffle_from_prefix(swapped, next_state, current - 1, keep);
    }
}

/// A pass from `current` down draws `current` values.
proof fn lemma_shuffle_from_draws<T>(values: Seq<T>, state: u64, current: int)
    requires
        0 <= current < values.len(),
    ensures
        shuffle_from(values, state, current).1 == spec_advance(state, current as nat),
    decreases current,
{
    if current >= 1 {
        let next_state = spec_next_state(state);
        let partner = (spec_mix(next_state) as int) % (current + 1);
        lemma_shuffle_from_draws(swap_entries(values, current, partner), next_state, current - 1);
    }
}

/// What a shuffle does, one step at a time: a slice of fewer than two values
/// is left alone and draws nothing; otherwise the first draw picks the
/// partner of the last position, `draw % length` (the last position itself
/// included), the two are exchanged, the value now last stays last, and the
/// values before it are shuffled in the same way by the generator as the
/// draw left it. Every shuffle draws one value fewer than the slice holds.
pub proof fn lemma_shuffle_step<T>(values: Seq<T>, state: u64)
    ensures
        values.len() < 2 ==> spec_shuffle(values, state) == (values, state),
        values.len() >= 1 ==> spec_shuffle(values, state).1 == spec_advance(
            state,
            (values.len() - 1) as nat,
        ),
        values.len() >= 2 ==> ({
            let length = values.len() as int;
            let partner = (spec_next_u64(state) as int) % length;
            let swapped = swap_entries(values, length - 1, partner);
            let rest = spec_shuffle(swapped.take(length - 1), spec_next_state(state));
            &&& 0 <= partner < length
            &&& spec_shuffle(values, state).0 == rest.0.push(values[partner])
            &&& spec_shuffle(values, state).1 == rest.1
        }),
{
    let length = values.len() as int;
    if length >= 1 {
        lemma_shuffle_from_draws(values, state, length - 1);
    }
    if length >= 2 {
        let next_state = spec_next_state(state);
        let partner = (spec_next_u64(state) as int) % length;
        let swapped = swap_entries(values, length - 1, partner);
        lemma_shuffle_from_prefix(swapped, next_state, length - 2, length - 1);
        assert(swapped.skip(length - 1) =~= seq![values[partner]]);
        assert(swapped.take(length - 1).len() == length - 1);
        let rest = spec_shuffle(swapped.take(length - 1), next_state);
        assert(rest.0 + seq![values[partner]] =~= rest.0.push(values[partner]));
    }
}

/// The last value of a shuffled slice is the value at the first draw modulo
/// the length: the last position may keep its own value, so a two-value
/// slice keeps its order exactly when the first draw is odd (when its two
/// values differ).
pub proof fn lemma_shuffle_last<T>(values: Seq<T>, state: u64)
    requires
        values.len() >= 1,
    ensures
        spec_shuffle(values, state).0.len() == values.len(),
        spec_shuffle(values, state).0[values.len() - 1] == values[(spec_next_u64(state) as int)
            % (values.len() as int)],
        values.len() == 2 ==> (spec_shuffle(values, state).0 == values <==> (values[0] == values[1]
            || spec_next_u64(state) % 2 == 1)),
{
    lemma_shuffle_step(values, state);
    lemma_shuffle_permutes(values, state);
    if values.len() >= 2 {
        let length = values.len() as int;
        let partner = (spec_next_u64(state) as int) % length;
        let swapped = swap_entries(values, length - 1, partner);
        lemma_shuffle_permutes(swapped.take(length - 1), spec_next_state(state));
        if length == 2 {
            let rest = spec_shuffle(swapped.take(1), spec_next_state(state));
            assert(rest.0 == swapped.take(1));
            let result = spec_shuffle(values, state).0;
            assert(result =~= seq![swapped[0], values[partner]]);
            if partner == 1 {
                assert(result =~= values);
            } else {
                assert(result[0] == values[1] && result[1] == values[0]);
                if values[0] == values[1] {
                    assert(result =~= values);
                }
            }
        }
    }
}

/// Exchanges two entries of a slice.
///
/// std documents `<[T]>::swap` as swapping the elements at the two positions
/// and panicking when either is out of bounds; this states exactly that.
pub assume_specification<V>[ <[V]>::swap ](slice: &mut [V], a: usize, b: usize)
    requires
        a < old(slice)@.len(),
        b < old(slice)@.len(),
    ensures
        final(slice)@ == swap_entries(old(slice)@, a as int, b as int),
;

/// A deterministic pseudo-random generator (SplitMix64). A copy draws what
/// the original draws.
#[derive(Clone, Copy, Debug)]
pub struct Rng {
    state: u64,
}

impl View for Rng {
    type V = u64;

    /// The generator's state.
    closed spec fn view(&self) -> u64 {
        self.state
    }
}

impl Rng {
    /// A generator whose state is `seed`.
    pub fn new(seed: u64) -> (rng: Self)
        ensures
            rng@ == seed,
    {
        Rng { state: seed }
    }

    /// Advances the state by the golden gamma and returns the mixed state.
    pub fn next_u64(&mut self) -> (value: u64)
        ensures
            final(self)@ == spec_next_state(old(self)@),
            value == spec_next_u64(old(self)@),
    {
        self.state = self.state.wrapping_add(GOLDEN_GAMMA);
        let mut value = self.state;
        value = (value ^ (value >> 30u64)).wrapping_mul(MIX_FIRST);
        value = (value ^ (value >> 27u64)).wrapping_mul(MIX_SECOND);
        value ^ (value >> 31u64)
    }

    /// Draws one value and keeps its top 24 bits: the numerator of a
    /// uniform fraction in `[0, 1)` with denominator `2^24`.
    pub fn next_fraction_bits(&mut self) -> (bits: u32)
        ensures
            final(self)@ == spec_next_state(old(self)@),
            bits == spec_next_u64(old(self)@) >> 40u64,
            bits < 0x100_0000,
    {
        let value = self.next_u64();
        assert(value >> 40u64 < 0x100_0000) by (bit_vector);
        (value >> 40u64) as u32
    }

    /// Shuffles `values` in place with the Fisher-Yates algorithm, drawing
    /// one value from the generator for each position from the last down to
    /// the second.
    pub fn shuffle<T>(&mut self, values: &mut [T])
        ensures
            (final(values)@, final(self)@) == spec_shuffle(old(values)@, old(self)@),
    {
        let length = values.len();
        if length < 2 {
            return;
        }
        let mut current_index: usize = length - 1;
        while current_index >= 1
            invariant
                values@.len() == length,
                current_index < length,
                shuffle_from(values@, self@, current_index as int) == spec_shuffle(
                    old(values)@,
                    old(self)@,
                ),
            decreases current_index,
        {
            let draw = self.next_u64();
            let partner = (draw % (current_index as u64 + 1)) as usize;
            values.swap(current_index, partner);
            current_index = current_index - 1;
        }
    }
}

} // verus!
