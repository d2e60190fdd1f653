//! The Luhn algorithm (also known as the MOD 10 algorithm).

use core::marker::PhantomData;

use vstd::prelude::*;
use vstd::arithmetic::div_mod::*;

use crate::accumulator::{
    AccumulateResult, Accumulator, feed, lemma_unique_complement, next_state, round_trip,
    single_check_unique,
};
use crate::charset::{Numeric, numeric_inverse};
use crate::system::System;
use crate::{cold_rem, spec_rem};

verus! {

/// The contribution of a doubled digit: the sum of the digits of its double.
pub open spec fn luhn_doubled(d: int) -> int {
    if 2 * d > 9 {
        2 * d - 9
    } else {
        2 * d
    }
}

/// The Luhn sum of the digits, counted from the last one, which is doubled if `double_last`,
/// every other digit being doubled.
pub open spec fn luhn_sum(values: Seq<u32>, double_last: bool) -> int
    decreases values.len(),
{
    if values.len() == 0 {
        0
    } else {
        (if double_last {
            luhn_doubled(values.last() as int)
        } else {
            values.last() as int
        }) + luhn_sum(values.drop_last(), !double_last)
    }
}

/// The contribution of the digit `d` that stands `dist` places before the last doubled position:
/// doubled at an odd distance, as it is.
pub open spec fn luhn_term(d: u32, dist: int) -> int {
    if dist % 2 == 1 {
        luhn_doubled(d as int)
    } else {
        d as int
    }
}

/// The sum of the contributions of the first `k` digits, the digit at index `i` standing
/// `top - i` places before the last doubled position.
pub open spec fn luhn_indexed_sum(values: Seq<u32>, k: int, top: int) -> int
    decreases k,
{
    if k <= 0 {
        0
    } else {
        luhn_indexed_sum(values, k - 1, top) + luhn_term(values[k - 1], top - (k - 1))
    }
}

proof fn lemma_indexed_sum_congruent(a: Seq<u32>, b: Seq<u32>, k: int, ta: int, tb: int)
    requires
        0 <= k <= a.len(),
        k <= b.len(),
        forall|i: int| 0 <= i < k ==> a[i] == b[i],
        (ta - tb) % 2 == 0,
    ensures
        luhn_indexed_sum(a, k, ta) == luhn_indexed_sum(b, k, tb),
    decreases k,
{
    if k > 0 {
        lemma_indexed_sum_congruent(a, b, k - 1, ta, tb);
        assert((ta - (k - 1)) % 2 == (tb - (k - 1)) % 2) by {
            lemma_fundamental_div_mod(ta - tb, 2);
            lemma_fundamental_div_mod_converse_mod(ta - (k - 1), 2, (ta - tb) / 2 + (tb - (k - 1))
                / 2, (tb - (k - 1)) % 2);
            lemma_fundamental_div_mod(tb - (k - 1), 2);
            lemma_mod_bound(tb - (k - 1), 2);
        }
    }
}

proof fn lemma_luhn_sum_indexed(values: Seq<u32>, double_last: bool)
    ensures
        luhn_sum(values, double_last) == luhn_indexed_sum(
            values,
            values.len() as int,
            values.len() - 1 + if double_last {
                1int
            } else {
                0int
            },
        ),
    decreases values.len(),
{
    let n = values.len() as int;
    let s: int = if double_last {
        1
    } else {
        0
    };
    if n > 0 {
        let prev = values.drop_last();
        lemma_luhn_sum_indexed(prev, !double_last);
        let s2: int = if !double_last {
            1
        } else {
            0
        };
        lemma_indexed_sum_congruent(prev, values, n - 1, n - 2 + s2, n - 1 + s);
        assert((n - 1 + s - (n - 1)) % 2 == s);
    }
}

/// The Luhn sum is the sum over the digits in order, a digit being doubled when its distance
/// from the last digit is odd, or even when the last digit is doubled itself. So a sequence of
/// digits verifies when it is not empty and that sum, with the last digit not doubled, is a
/// multiple of ten, and its check digit is ten minus that sum with the last digit doubled,
/// modulo ten.
pub proof fn luhn_sum_indexed(values: Seq<u32>)
    ensures
        luhn_sum(values, false) == luhn_indexed_sum(
            values,
            values.len() as int,
            values.len() - 1,
        ),
        luhn_sum(values, true) == luhn_indexed_sum(
            values,
            values.len() as int,
            values.len() as int,
        ),
        LuhnAcc::is_valid(values, None) == (values.len() > 0 && luhn_indexed_sum(
            values,
            values.len() as int,
            values.len() - 1,
        ) % 10 == 0),
        LuhnAcc::check_values(values)[0] as int == (10 - luhn_indexed_sum(
            values,
            values.len() as int,
            values.len() as int,
        ) % 10) % 10,
{
    lemma_luhn_sum_indexed(values, false);
    lemma_luhn_sum_indexed(values, true);
    luhn_round_trip(values);
}

/// An accumulator for the Luhn algorithm.
#[derive(Clone)]
pub struct LuhnAcc {
    carry0: u32,
    carry1: u32,
    has_processed: bool,
    history: Ghost<Seq<u32>>,
}

impl LuhnAcc {
    /// The two carries held by the accumulator.
    pub closed spec fn spec_carry(&self) -> (u32, u32) {
        (self.carry0, self.carry1)
    }

    /// Whether a digit has been processed.
    pub closed spec fn spec_has_processed(&self) -> bool {
        self.has_processed
    }

    /// The current carries: the Luhn sums of the digits with the last one not doubled and
    /// doubled, each up to a multiple of ten.
    pub fn carry(&self) -> (r: (u32, u32))
        requires
            self.inv(),
        ensures
            r == self.spec_carry(),
            r.0 as int % 10 == luhn_sum(self.history(), false) % 10,
            r.1 as int % 10 == luhn_sum(self.history(), true) % 10,
    {
        (self.carry0, self.carry1)
    }
}

impl Default for LuhnAcc {
    fn default() -> (r: Self)
        ensures
            r.inv(),
            r.history() == Seq::<u32>::empty(),
            r.pending() == None::<u32>,
    {
        LuhnAcc { carry0: 0, carry1: 0, has_processed: false, history: Ghost(Seq::empty()) }
    }
}

proof fn lemma_add_mod10(x: int, y: int, d: int)
    requires
        x % 10 == y % 10,
    ensures
        (x + d) % 10 == (y + d) % 10,
{
    lemma_add_mod_noop(x, d, 10);
    lemma_add_mod_noop(y, d, 10);
}

impl Accumulator<1> for LuhnAcc {
    open spec fn params_ok() -> bool {
        true
    }

    closed spec fn inv(&self) -> bool {
        &&& self.carry0 <= u32::MAX - 2
        &&& self.carry1 <= u32::MAX - 11
        &&& self.carry0 as int % 10 == luhn_sum(self.history@, false) % 10
        &&& self.carry1 as int % 10 == luhn_sum(self.history@, true) % 10
        &&& self.has_processed == (self.history@.len() > 0)
    }

    closed spec fn history(&self) -> Seq<u32> {
        self.history@
    }

    closed spec fn pending(&self) -> Option<u32> {
        None
    }

    open spec fn classify(value: u32) -> AccumulateResult {
        if value >= 10 {
            AccumulateResult::NotInCharset
        } else {
            AccumulateResult::Processed
        }
    }

    open spec fn check_values(values: Seq<u32>) -> Seq<u32> {
        seq![((10 - luhn_sum(values, true) % 10) % 10) as u32]
    }

    open spec fn is_valid(values: Seq<u32>, suppl: Option<u32>) -> bool {
        values.len() > 0 && luhn_sum(values, false) % 10 == 0
    }

    fn new() -> (r: Self) {
        LuhnAcc { carry0: 0, carry1: 0, has_processed: false, history: Ghost(Seq::empty()) }
    }

    fn accumulate(&mut self, value: u32) -> (r: AccumulateResult)
        ensures
            r != AccumulateResult::Processed ==> final(self).spec_carry() == old(self).spec_carry()
                && final(self).spec_has_processed() == old(self).spec_has_processed(),
            r == AccumulateResult::Processed ==> {
                let (a, b) = old(self).spec_carry();
                let reduced = if a > u32::MAX - 20 {
                    a % 10
                } else {
                    a
                };
                &&& final(self).spec_carry().0 as int == b + value
                &&& final(self).spec_carry().1 as int == reduced + luhn_doubled(value as int)
                &&& final(self).spec_has_processed()
            },
    {
        if value >= 10 {
            AccumulateResult::NotInCharset
        } else {
            let ghost old_history = self.history@;
            let mut a = self.carry0;
            let b = self.carry1;
            if a > u32::MAX - 10 * 2 {
                a = cold_rem(a, 10);
                proof {
                    lemma_mod_twice(self.carry0 as int, 10);
                }
            }
            let doubled = if value < 5 {
                value * 2
            } else {
                value * 2 - 9
            };
            proof {
                let h = old_history.push(value);
                assert(h.drop_last() =~= old_history);
                lemma_add_mod10(b as int, luhn_sum(old_history, true), value as int);
                lemma_add_mod10(a as int, luhn_sum(old_history, false), doubled as int);
            }
            self.carry0 = b + value;
            self.carry1 = a + doubled;
            self.has_processed = true;
            self.history = Ghost(old_history.push(value));
            AccumulateResult::Processed
        }
    }

    fn compute(&self) -> (r: [u32; 1]) {
        proof {
            lemma_mod_bound(self.carry1 as int, 10);
            lemma_mod_bound(luhn_sum(self.history@, true), 10);
        }
        [spec_rem(10 - self.carry1 % 10, 10)]
    }

    fn verify(&self) -> (r: bool) {
        self.has_processed && self.carry0 % 10 == 0
    }
}

/// The Luhn algorithm: the computed check digit is accepted, and appending it to the digits
/// makes them verify.
pub proof fn luhn_round_trip(values: Seq<u32>)
    ensures
        round_trip::<1, LuhnAcc>(values),
        LuhnAcc::check_values(values).len() == 1,
        LuhnAcc::check_values(values)[0] < 10,
{
    let s = luhn_sum(values, true);
    let c = (10 - s % 10) % 10;
    lemma_mod_bound(s, 10);
    lemma_mod_bound(10 - s % 10, 10);
    let cu = c as u32;
    assert(cu as int == c);
    let checks = LuhnAcc::check_values(values);
    assert(checks =~= seq![cu]);
    assert(checks.drop_last() =~= Seq::<u32>::empty());
    assert(feed::<1, LuhnAcc>((values, None), checks.drop_last()) == (values, None::<u32>));
    let all = values.push(cu);
    assert(all.drop_last() =~= values);
    assert(feed::<1, LuhnAcc>((values, None), checks) == next_state::<1, LuhnAcc>(
        (values, None),
        cu,
    ));
    assert(luhn_sum(all, false) == c + s);
    lemma_add_mod_noop(c, s, 10);
    lemma_mod_twice(10 - s % 10, 10);
    lemma_add_mod_noop(10 - s % 10, s, 10);
    lemma_mod_twice(s, 10);
    lemma_add_mod_noop(10 - s % 10, s % 10, 10);
    lemma_mod_self_0(10);
}


/// The Luhn algorithm accepts a single digit after any digits: the check digit.
pub proof fn luhn_check_unique()
    ensures
        single_check_unique::<1, LuhnAcc>(),
{
    assert forall|values: Seq<u32>, v: u32|
        #![trigger next_state::<1, LuhnAcc>((values, None), v)]
        LuhnAcc::classify(v) != AccumulateResult::NotInCharset && LuhnAcc::is_valid(
            next_state::<1, LuhnAcc>((values, None), v).0,
            next_state::<1, LuhnAcc>((values, None), v).1,
        ) implies seq![v] == LuhnAcc::check_values(values) by {
        let s = luhn_sum(values, true);
        let all = values.push(v);
        assert(all.drop_last() =~= values);
        assert(luhn_sum(all, false) == v + s);
        lemma_unique_complement(s, v as int, 0, 10);
        lemma_mod_bound(10 - s % 10, 10);
        lemma_mod_bound(s, 10);
    }
}


/// The Luhn algorithm.
///
/// See the [`System`] type for provided methods.
pub const LUHN: LuhnSys = LuhnSys;

/// The check character system interface for the Luhn algorithm.
///
/// It dereferences to the [`System`] that provides the methods.
#[derive(Debug, Default, Clone, Copy)]
pub struct LuhnSys;

impl core::ops::Deref for LuhnSys {
    type Target = System<1, LuhnAcc, Numeric, Numeric>;

    fn deref(&self) -> (r: &System<1, LuhnAcc, Numeric, Numeric>)
        ensures
            *r == (System::<1, LuhnAcc, Numeric, Numeric> {
                accumulator: PhantomData,
                encoder: Numeric,
                decoder: Numeric,
            }),
    {
        &System { accumulator: PhantomData, encoder: Numeric, decoder: Numeric }
    }
}

/// The system is well formed, and its decoder decodes each digit to its value, which encodes
/// back to it.
pub proof fn luhn_well_formed()
    ensures
        (System::<1, LuhnAcc, Numeric, Numeric> {
            accumulator: PhantomData,
            encoder: Numeric,
            decoder: Numeric,
        }).well_formed(),
        (System::<1, LuhnAcc, Numeric, Numeric> {
            accumulator: PhantomData,
            encoder: Numeric,
            decoder: Numeric,
        }).decodes_as_encoded(),
{
    let sys = System::<1, LuhnAcc, Numeric, Numeric> {
        accumulator: PhantomData,
        encoder: Numeric,
        decoder: Numeric,
    };
    numeric_inverse();
    assert forall|values: Seq<u32>|
        #![trigger LuhnAcc::check_values(values)]
        LuhnAcc::check_values(values).len() == 1 && round_trip::<1, LuhnAcc>(values) by {
        luhn_round_trip(values);
    }
    assert forall|values: Seq<u32>, i: int| 0 <= i < 1 implies #[trigger] LuhnAcc::check_values(
        values,
    )[i] < 10 by {
        luhn_round_trip(values);
    }
    sys.lemma_well_formed(10);
    sys.lemma_inverse_decodes(10);
}

} // verus!
