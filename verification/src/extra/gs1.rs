//! The standard check digit algorithm for GS1 data structures (including GTIN).

use core::marker::PhantomData;

use vstd::prelude::*;
use vstd::arithmetic::div_mod::*;

use crate::accumulator::{
    AccumulateResult, Accumulator, feed, lemma_unique_complement, next_state, round_trip,
    single_check_unique,
};
use crate::charset::{Numeric, numeric_inverse};
use crate::system::System;
use crate::{cold_rem, spec_rem};

verus! {

/// The weighted sum of the digits, the last one weighing `last_weight` and the weights 3 and 1
/// alternating from the end.
pub open spec fn gs1_weighted(values: Seq<u32>, last_weight: int) -> int
    decreases values.len(),
{
    if values.len() == 0 {
        0
    } else {
        last_weight * values.last() + gs1_weighted(values.drop_last(), 4 - last_weight)
    }
}

/// The sum of every other digit, counted from the last one, which is included if `take_last`.
pub open spec fn alternate_sum(values: Seq<u32>, take_last: bool) -> int
    decreases values.len(),
{
    if values.len() == 0 {
        0
    } else {
        (if take_last {
            values.last() as int
        } else {
            0
        }) + alternate_sum(values.drop_last(), !take_last)
    }
}

proof fn lemma_weighted_alternate(values: Seq<u32>)
    ensures
        gs1_weighted(values, 3) == 3 * alternate_sum(values, true) + alternate_sum(values, false),
        gs1_weighted(values, 1) == alternate_sum(values, true) + 3 * alternate_sum(values, false),
    decreases values.len(),
{
    if values.len() > 0 {
        lemma_weighted_alternate(values.drop_last());
    }
}

proof fn lemma_combine_mod10(x: int, y: int, a: int, b: int)
    requires
        x % 10 == a % 10,
        y % 10 == b % 10,
    ensures
        (x + 3 * y) % 10 == (a + 3 * b) % 10,
{
    vstd::arithmetic::mul::lemma_mul_is_commutative(3, y);
    vstd::arithmetic::mul::lemma_mul_is_commutative(3, b);
    lemma_mul_mod_noop_left(y, 3, 10);
    lemma_mul_mod_noop_left(b, 3, 10);
    lemma_add_mod_noop(x, 3 * y, 10);
    lemma_add_mod_noop(a, 3 * b, 10);
}

/// `(w1 + 3 * w3) % 10`, computed without overflow.
fn gs1_sum(w1: u32, w3: u32) -> (r: u32)
    ensures
        r as int == (w1 as int + 3 * w3 as int) % 10,
        r < 10,
{
    ((w1 as u64 + w3 as u64 * 3) % 10) as u32
}

/// The contribution of the digit `d` that stands `dist` places before the last position weighing
/// three: three times the digit at an odd distance, the digit itself otherwise.
pub open spec fn gs1_term(d: u32, dist: int) -> int {
    if dist % 2 == 1 {
        3 * d
    } else {
        d as int
    }
}

/// The sum of the contributions of the first `k` digits, the digit at index `i` standing
/// `top - i` places before the last position weighing three.
pub open spec fn gs1_indexed_sum(values: Seq<u32>, k: int, top: int) -> int
    decreases k,
{
    if k <= 0 {
        0
    } else {
        gs1_indexed_sum(values, k - 1, top) + gs1_term(values[k - 1], top - (k - 1))
    }
}

proof fn lemma_gs1_indexed_congruent(a: Seq<u32>, b: Seq<u32>, k: int, ta: int, tb: int)
    requires
        0 <= k <= a.len(),
        k <= b.len(),
        forall|i: int| 0 <= i < k ==> a[i] == b[i],
        (ta - tb) % 2 == 0,
    ensures
        gs1_indexed_sum(a, k, ta) == gs1_indexed_sum(b, k, tb),
    decreases k,
{
    if k > 0 {
        lemma_gs1_indexed_congruent(a, b, k - 1, ta, tb);
        assert((ta - (k - 1)) % 2 == (tb - (k - 1)) % 2) by {
            lemma_fundamental_div_mod(ta - tb, 2);
            lemma_fundamental_div_mod_converse_mod(ta - (k - 1), 2, (ta - tb) / 2 + (tb - (k - 1))
                / 2, (tb - (k - 1)) % 2);
            lemma_fundamental_div_mod(tb - (k - 1), 2);
            lemma_mod_bound(tb - (k - 1), 2);
        }
    }
}

proof fn lemma_gs1_weighted_indexed(values: Seq<u32>, last_weight: int)
    requires
        last_weight == 1 || last_weight == 3,
    ensures
        gs1_weighted(values, last_weight) == gs1_indexed_sum(
            values,
            values.len() as int,
            values.len() - 1 + if last_weight == 3 {
                1int
            } else {
                0int
            },
        ),
    decreases values.len(),
{
    let n = values.len() as int;
    let s: int = if last_weight == 3 {
        1
    } else {
        0
    };
    if n > 0 {
        let prev = values.drop_last();
        lemma_gs1_weighted_indexed(prev, 4 - last_weight);
        let s2: int = if 4 - last_weight == 3 {
            1
        } else {
            0
        };
        lemma_gs1_indexed_congruent(prev, values, n - 1, n - 2 + s2, n - 1 + s);
        assert((n - 1 + s - (n - 1)) % 2 == s);
    }
}

/// The weighted sum of the GS1 algorithm is the sum over the digits in order, a digit weighing
/// three when its distance from the last digit is odd, or even when the last digit weighs three
/// itself. So a sequence of digits verifies when it is not empty and that sum, with the last
/// digit weighing one, is a multiple of ten, and its check digit is ten minus that sum with the
/// last digit weighing three, modulo ten.
pub proof fn gs1_sum_indexed(values: Seq<u32>)
    ensures
        gs1_weighted(values, 1) == gs1_indexed_sum(values, values.len() as int, values.len() - 1),
        gs1_weighted(values, 3) == gs1_indexed_sum(
            values,
            values.len() as int,
            values.len() as int,
        ),
        Gs1Acc::is_valid(values, None) == (values.len() > 0 && gs1_indexed_sum(
            values,
            values.len() as int,
            values.len() - 1,
        ) % 10 == 0),
        Gs1Acc::check_values(values)[0] as int == (10 - gs1_indexed_sum(
            values,
            values.len() as int,
            values.len() as int,
        ) % 10) % 10,
{
    lemma_gs1_weighted_indexed(values, 1);
    lemma_gs1_weighted_indexed(values, 3);
    gs1_round_trip(values);
}

/// An accumulator for the check digit algorithm for GS1 data structures (including GTIN).
#[derive(Clone)]
pub struct Gs1Acc {
    carry0: u32,
    carry1: u32,
    has_processed: bool,
    history: Ghost<Seq<u32>>,
}

impl Gs1Acc {
    /// The two carries held by the accumulator.
    pub closed spec fn spec_carry(&self) -> (u32, u32) {
        (self.carry0, self.carry1)
    }

    /// Whether a digit has been processed.
    pub closed spec fn spec_has_processed(&self) -> bool {
        self.has_processed
    }

    /// The current carries: the sums of every other digit, the first one without the last digit
    /// and the second one with it, each up to a multiple of ten.
    pub fn carry(&self) -> (r: (u32, u32))
        requires
            self.inv(),
        ensures
            r == self.spec_carry(),
            r.0 as int % 10 == alternate_sum(self.history(), false) % 10,
            r.1 as int % 10 == alternate_sum(self.history(), true) % 10,
    {
        (self.carry0, self.carry1)
    }
}

impl Default for Gs1Acc {
    fn default() -> (r: Self)
        ensures
            r.inv(),
            r.history() == Seq::<u32>::empty(),
            r.pending() == None::<u32>,
    {
        Gs1Acc { carry0: 0, carry1: 0, has_processed: false, history: Ghost(Seq::empty()) }
    }
}

impl Accumulator<1> for Gs1Acc {
    open spec fn params_ok() -> bool {
        true
    }

    closed spec fn inv(&self) -> bool {
        &&& self.carry0 <= u32::MAX - 1
        &&& self.carry1 <= u32::MAX - 1
        &&& self.carry0 as int % 10 == alternate_sum(self.history@, false) % 10
        &&& self.carry1 as int % 10 == alternate_sum(self.history@, true) % 10
        &&& self.has_processed == (self.history@.len() > 0)
    }

    closed spec fn history(&self) -> Seq<u32> {
        self.history@
    }

    closed spec fn pending(&self) -> Option<u32> {
        None
    }

    open spec fn classify(value: u32) -> AccumulateResult {
        if value >= 10 {
            AccumulateResult::NotInCharset
        } else {
            AccumulateResult::Processed
        }
    }

    open spec fn check_values(values: Seq<u32>) -> Seq<u32> {
        seq![((10 - gs1_weighted(values, 3) % 10) % 10) as u32]
    }

    open spec fn is_valid(values: Seq<u32>, suppl: Option<u32>) -> bool {
        values.len() > 0 && gs1_weighted(values, 1) % 10 == 0
    }

    fn new() -> (r: Self) {
        Gs1Acc { carry0: 0, carry1: 0, has_processed: false, history: Ghost(Seq::empty()) }
    }

    fn accumulate(&mut self, value: u32) -> (r: AccumulateResult)
        ensures
            r != AccumulateResult::Processed ==> final(self).spec_carry() == old(self).spec_carry()
                && final(self).spec_has_processed() == old(self).spec_has_processed(),
            r == AccumulateResult::Processed ==> {
                let (a, b) = old(self).spec_carry();
                let reduced = if a > u32::MAX - 10 {
                    a % 10
                } else {
                    a
                };
                &&& final(self).spec_carry().0 == b
                &&& final(self).spec_carry().1 as int == reduced + value
                &&& final(self).spec_has_processed()
            },
    {
        if value >= 10 {
            AccumulateResult::NotInCharset
        } else {
            let ghost old_history = self.history@;
            let mut a = self.carry0;
            let b = self.carry1;
            if a > u32::MAX - 10 {
                a = cold_rem(a, 10);
                proof {
                    lemma_mod_twice(self.carry0 as int, 10);
                }
            }
            proof {
                let h = old_history.push(value);
                assert(h.drop_last() =~= old_history);
                lemma_add_mod_noop(a as int, value as int, 10);
                lemma_add_mod_noop(alternate_sum(old_history, false), value as int, 10);
            }
            self.carry0 = b;
            self.carry1 = a + value;
            self.has_processed = true;
            self.history = Ghost(old_history.push(value));
            AccumulateResult::Processed
        }
    }

    fn compute(&self) -> (r: [u32; 1]) {
        proof {
            lemma_weighted_alternate(self.history@);
            lemma_combine_mod10(
                self.carry0 as int,
                self.carry1 as int,
                alternate_sum(self.history@, false),
                alternate_sum(self.history@, true),
            );
        }
        [spec_rem(10 - gs1_sum(self.carry0, self.carry1), 10)]
    }

    fn verify(&self) -> (r: bool) {
        proof {
            lemma_weighted_alternate(self.history@);
            lemma_combine_mod10(
                self.carry1 as int,
                self.carry0 as int,
                alternate_sum(self.history@, true),
                alternate_sum(self.history@, false),
            );
        }
        self.has_processed && gs1_sum(self.carry1, self.carry0) == 0
    }
}

/// The GS1 check digit algorithm: the computed check digit is accepted, and appending it to the
/// digits makes them verify.
pub proof fn gs1_round_trip(values: Seq<u32>)
    ensures
        round_trip::<1, Gs1Acc>(values),
        Gs1Acc::check_values(values).len() == 1,
        Gs1Acc::check_values(values)[0] < 10,
{
    let s = gs1_weighted(values, 3);
    let c = (10 - s % 10) % 10;
    lemma_mod_bound(s, 10);
    lemma_mod_bound(10 - s % 10, 10);
    let cu = c as u32;
    assert(cu as int == c);
    let checks = Gs1Acc::check_values(values);
    assert(checks =~= seq![cu]);
    assert(checks.drop_last() =~= Seq::<u32>::empty());
    assert(feed::<1, Gs1Acc>((values, None), checks.drop_last()) == (values, None::<u32>));
    let all = values.push(cu);
    assert(all.drop_last() =~= values);
    assert(feed::<1, Gs1Acc>((values, None), checks) == next_state::<1, Gs1Acc>(
        (values, None),
        cu,
    ));
    assert(gs1_weighted(all, 1) == c + s);
    lemma_mod_twice(10 - s % 10, 10);
    lemma_add_mod_noop(10 - s % 10, s, 10);
    lemma_mod_twice(s, 10);
    lemma_add_mod_noop(10 - s % 10, s % 10, 10);
    lemma_add_mod_noop(c, s, 10);
    lemma_mod_self_0(10);
}


/// The GS1 algorithm accepts a single digit after any digits: the check digit.
pub proof fn gs1_check_unique()
    ensures
        single_check_unique::<1, Gs1Acc>(),
{
    assert forall|values: Seq<u32>, v: u32|
        #![trigger next_state::<1, Gs1Acc>((values, None), v)]
        Gs1Acc::classify(v) != AccumulateResult::NotInCharset && Gs1Acc::is_valid(
            next_state::<1, Gs1Acc>((values, None), v).0,
            next_state::<1, Gs1Acc>((values, None), v).1,
        ) implies seq![v] == Gs1Acc::check_values(values) by {
        let s = gs1_weighted(values, 3);
        let all = values.push(v);
        assert(all.drop_last() =~= values);
        assert(gs1_weighted(all, 1) == v + s);
        lemma_unique_complement(s, v as int, 0, 10);
        lemma_mod_bound(10 - s % 10, 10);
        lemma_mod_bound(s, 10);
    }
}


/// The standard check digit algorithm for GS1 data structures (including GTIN).
///
/// See the [`System`] type for provided methods.
pub const GS1: Gs1Sys = Gs1Sys;

/// The check character system interface for the standard check digit algorithm for GS1 data structures (including GTIN).
///
/// It dereferences to the [`System`] that provides the methods.
#[derive(Debug, Default, Clone, Copy)]
pub struct Gs1Sys;

impl core::ops::Deref for Gs1Sys {
    type Target = System<1, Gs1Acc, Numeric, Numeric>;

    fn deref(&self) -> (r: &System<1, Gs1Acc, Numeric, Numeric>)
        ensures
            *r == (System::<1, Gs1Acc, Numeric, Numeric> {
                accumulator: PhantomData,
                encoder: Numeric,
                decoder: Numeric,
            }),
    {
        &System { accumulator: PhantomData, encoder: Numeric, decoder: Numeric }
    }
}

/// The system is well formed, and its decoder decodes each digit to its value, which encodes
/// back to it.
pub proof fn gs1_well_formed()
    ensures
        (System::<1, Gs1Acc, Numeric, Numeric> {
            accumulator: PhantomData,
            encoder: Numeric,
            decoder: Numeric,
        }).well_formed(),
        (System::<1, Gs1Acc, Numeric, Numeric> {
            accumulator: PhantomData,
            encoder: Numeric,
            decoder: Numeric,
        }).decodes_as_encoded(),
{
    let sys = System::<1, Gs1Acc, Numeric, Numeric> {
        accumulator: PhantomData,
        encoder: Numeric,
        decoder: Numeric,
    };
    numeric_inverse();
    assert forall|values: Seq<u32>|
        #![trigger Gs1Acc::check_values(values)]
        Gs1Acc::check_values(values).len() == 1 && round_trip::<1, Gs1Acc>(values) by {
        gs1_round_trip(values);
    }
    assert forall|values: Seq<u32>, i: int| 0 <= i < 1 implies #[trigger] Gs1Acc::check_values(
        values,
    )[i] < 10 by {
        gs1_round_trip(values);
    }
    sys.lemma_well_formed(10);
    sys.lemma_inverse_decodes(10);
}

} // verus!
