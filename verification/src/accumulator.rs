//! [`Accumulator`]s for check character computation and verification.

use vstd::prelude::*;
use vstd::arithmetic::div_mod::*;
use vstd::arithmetic::mul::*;

use crate::{non_zero_spec_rem, nz_mod, spec_rem};

verus! {

/// The result of an accumulation step.
///
/// See also [`Accumulator::accumulate`] for the semantics of the variants.
#[derive(Debug, Copy, Clone, PartialEq, Eq, Structural, Hash)]
pub enum AccumulateResult {
    /// The value was successfully processed, updating the accumulated state.
    Processed,
    /// The value is a supplementary check character (e.g., `'X'` or `'*'`).
    SupplFound,
    /// The value is not in the character set.
    NotInCharset,
}

/// A trait for accumulating values to compute or verify check characters.
///
/// The state of an accumulator is described by the sequence of the values processed so far
/// (`history`) and the supplementary check character value that is held back (`pending`).
pub trait Accumulator<const N_CC: usize>: Sized {
    /// Whether the type parameters describe a usable system.
    spec fn params_ok() -> bool;

    /// The internal invariant of the accumulator.
    spec fn inv(&self) -> bool;

    /// The values processed so far.
    spec fn history(&self) -> Seq<u32>;

    /// The supplementary check character value held back, if any.
    spec fn pending(&self) -> Option<u32>;

    /// How a value is treated by `accumulate`.
    spec fn classify(value: u32) -> AccumulateResult;

    /// The check character values for the processed values.
    spec fn check_values(values: Seq<u32>) -> Seq<u32>;

    /// Whether the processed values, followed by the held back supplementary value, satisfy the
    /// check character condition.
    spec fn is_valid(values: Seq<u32>, suppl: Option<u32>) -> bool;

    /// Creates an accumulator with no value accumulated.
    fn new() -> (r: Self)
        requires
            Self::params_ok(),
        ensures
            r.inv(),
            r.history() == Seq::<u32>::empty(),
            r.pending() == None::<u32>,
    ;

    /// Accumulates a numerical value, returning the result of the step as an [`AccumulateResult`].
    ///
    /// The accumulated state is updated only when `Processed` is returned. `NotInCharset` usually
    /// indicates an error, and the input value is discarded.
    ///
    /// A supplementary check character (e.g., `'X'` or `'*'`) does not update the state when
    /// `SupplFound` is returned; instead, it is stored and taken into account on the next call to
    /// `verify()`. The stored value is cleared once a subsequent `accumulate()` call returns
    /// `Processed` or `SupplFound`. `SupplFound` is considered an error unless it appears at the
    /// end of the input during verification.
    fn accumulate(&mut self, value: u32) -> (r: AccumulateResult)
        requires
            old(self).inv(),
        ensures
            final(self).inv(),
            r == Self::classify(value),
            r == AccumulateResult::Processed ==> final(self).history() == old(self).history().push(
                value,
            ) && final(self).pending() == None::<u32>,
            r == AccumulateResult::SupplFound ==> final(self).history() == old(self).history()
                && final(self).pending() == Some(value),
            r == AccumulateResult::NotInCharset ==> final(self).history() == old(self).history()
                && final(self).pending() == old(self).pending(),
    ;

    /// Computes the final check characters from the accumulated state.
    fn compute(&self) -> (r: [u32; N_CC])
        requires
            self.inv(),
        ensures
            r@ == Self::check_values(self.history()),
    ;

    /// Verifies whether the accumulated state satisfies the check character condition.
    fn verify(&self) -> (r: bool)
        requires
            self.inv(),
        ensures
            r == Self::is_valid(self.history(), self.pending()),
    ;
}

/// The number that the digits `values` denote in base `radix`, most significant first.
pub open spec fn pure_value(values: Seq<u32>, radix: int) -> int
    decreases values.len(),
{
    if values.len() == 0 {
        0
    } else {
        pure_value(values.drop_last(), radix) * radix + values.last()
    }
}

/// The values followed by the supplementary value, if there is one.
pub open spec fn with_suppl(values: Seq<u32>, suppl: Option<u32>) -> Seq<u32> {
    match suppl {
        None => values,
        Some(v) => values.push(v),
    }
}

/// One step of a pure system (times the radix, plus the value) maps congruent carries to
/// congruent results.
proof fn lemma_pure_step(carry: int, old_value: int, value: int, radix: int, modulus: int)
    requires
        modulus > 0,
        carry % modulus == old_value % modulus,
    ensures
        (carry * radix + value) % modulus == (old_value * radix + value) % modulus,
{
    lemma_mul_mod_noop_left(carry, radix, modulus);
    lemma_mul_mod_noop_left(old_value, radix, modulus);
    lemma_add_mod_noop(carry * radix, value, modulus);
    lemma_add_mod_noop(old_value * radix, value, modulus);
}

/// One step of a pure system as the accumulators take it: `carry * radix + value` while the carry
/// is small enough for that to fit in a `u32` whatever the value, and its remainder modulo
/// `modulus` otherwise.
pub open spec fn pure_step_value(carry: u32, value: u32, radix: u32, modulus: u32) -> int {
    let x = carry as int * radix as int + value as int;
    if carry as int > (u32::MAX - modulus) / radix as int {
        x % modulus as int
    } else {
        x
    }
}

/// A number congruent to `carry * radix + value` modulo `modulus`, computed without overflow: the
/// exact value while it is known to fit, and its remainder otherwise.
fn pure_step(carry: u32, value: u32, radix: u32, modulus: u32) -> (r: u32)
    requires
        0 < radix,
        0 < modulus < u32::MAX,
        value <= modulus,
    ensures
        r as int == pure_step_value(carry, value, radix, modulus),
        carry as int <= (u32::MAX - modulus) / radix as int ==> r as int == carry as int
            * radix as int + value as int,
        carry as int > (u32::MAX - modulus) / radix as int ==> r < modulus,
        r as int % modulus as int == (carry as int * radix as int + value as int) % modulus as int,
{
    if carry > (u32::MAX - modulus) / radix {
        assert(carry as int * radix as int <= 0xffff_ffff * 0xffff_ffff) by (nonlinear_arith)
            requires
                carry <= 0xffff_ffff,
                radix <= 0xffff_ffff,
        ;
        let wide = carry as u64 * radix as u64 + value as u64;
        let r = (wide % modulus as u64) as u32;
        proof {
            lemma_mod_bound(wide as int, modulus as int);
            lemma_mod_twice(wide as int, modulus as int);
        }
        r
    } else {
        let lim = (u32::MAX - modulus) / radix;
        assert(carry as int * radix as int <= (u32::MAX - modulus) as int) by (nonlinear_arith)
            requires
                carry <= lim,
                lim == (u32::MAX - modulus) as int / radix as int,
                radix > 0,
                u32::MAX - modulus >= 0,
        {
            lemma_fundamental_div_mod((u32::MAX - modulus) as int, radix as int);
            lemma_mul_inequality(carry as int, lim as int, radix as int);
        }
        carry * radix + value
    }
}

/// A generic accumulator for the pure system with a single check character.
#[derive(Clone)]
pub struct PureSingle<const MODULUS: u32, const RADIX: u32, const CHARSET_SIZE: u32> {
    carry: u32,
    suppl: Option<u32>,
    history: Ghost<Seq<u32>>,
}

impl<const MODULUS: u32, const RADIX: u32, const CHARSET_SIZE: u32> PureSingle<
    MODULUS,
    RADIX,
    CHARSET_SIZE,
> {
    /// The carry held by the accumulator.
    pub closed spec fn spec_carry(&self) -> u32 {
        self.carry
    }

    /// The current carry, congruent to the value of the processed digits modulo `MODULUS`.
    pub fn carry(&self) -> (r: u32)
        requires
            self.inv(),
        ensures
            r == self.spec_carry(),
            r as int % MODULUS as int == pure_value(self.history(), RADIX as int) % MODULUS as int,
    {
        self.carry
    }

    /// The supplementary check character value held back, if any.
    pub fn suppl(&self) -> (r: Option<u32>)
        ensures
            r == self.pending(),
    {
        self.suppl
    }
}

impl<const MODULUS: u32, const RADIX: u32, const CHARSET_SIZE: u32> Default for PureSingle<
    MODULUS,
    RADIX,
    CHARSET_SIZE,
> {
    fn default() -> (r: Self)
        ensures
            r.history() == Seq::<u32>::empty(),
            r.pending() == None::<u32>,
            Self::params_ok() ==> r.inv(),
    {
        PureSingle { carry: 0, suppl: None, history: Ghost(Seq::empty()) }
    }
}

impl<const MODULUS: u32, const RADIX: u32, const CHARSET_SIZE: u32> Accumulator<1> for PureSingle<
    MODULUS,
    RADIX,
    CHARSET_SIZE,
> {
    /// The modulus exceeds one, so that a check value is reduced by at most one subtraction.
    open spec fn params_ok() -> bool {
        &&& MODULUS >= CHARSET_SIZE
        &&& 1 < MODULUS < u32::MAX
        &&& RADIX > 0
        &&& CHARSET_SIZE > 0
    }

    closed spec fn inv(&self) -> bool {
        &&& Self::params_ok()
        &&& self.carry as int % MODULUS as int == pure_value(self.history@, RADIX as int)
            % MODULUS as int
        &&& self.suppl matches Some(v) ==> CHARSET_SIZE <= v < MODULUS
    }

    closed spec fn history(&self) -> Seq<u32> {
        self.history@
    }

    closed spec fn pending(&self) -> Option<u32> {
        self.suppl
    }

    open spec fn classify(value: u32) -> AccumulateResult {
        if value >= MODULUS {
            AccumulateResult::NotInCharset
        } else if value >= CHARSET_SIZE {
            AccumulateResult::SupplFound
        } else {
            AccumulateResult::Processed
        }
    }

    open spec fn check_values(values: Seq<u32>) -> Seq<u32> {
        let m = MODULUS as int;
        seq![((m + 1 - (pure_value(values, RADIX as int) * RADIX as int) % m) % m) as u32]
    }

    open spec fn is_valid(values: Seq<u32>, suppl: Option<u32>) -> bool {
        pure_value(with_suppl(values, suppl), RADIX as int) % MODULUS as int == 1
    }

    fn new() -> (r: Self) {
        PureSingle { carry: 0, suppl: None, history: Ghost(Seq::empty()) }
    }

    fn accumulate(&mut self, value: u32) -> (r: AccumulateResult)
        ensures
            r != AccumulateResult::Processed ==> final(self).spec_carry() == old(self).spec_carry(),
            r == AccumulateResult::Processed ==> final(self).spec_carry() as int == pure_step_value(
                old(self).spec_carry(),
                value,
                RADIX,
                MODULUS,
            ),
    {
        if value >= MODULUS {
            AccumulateResult::NotInCharset
        } else if value >= CHARSET_SIZE {
            self.suppl = Some(value);
            AccumulateResult::SupplFound
        } else {
            let ghost old_history = self.history@;
            self.suppl = None;
            let c = pure_step(self.carry, value, RADIX, MODULUS);
            proof {
                lemma_pure_step(
                    self.carry as int,
                    pure_value(old_history, RADIX as int),
                    value as int,
                    RADIX as int,
                    MODULUS as int,
                );
                assert(old_history.push(value).drop_last() =~= old_history);
            }
            self.carry = c;
            self.history = Ghost(old_history.push(value));
            AccumulateResult::Processed
        }
    }

    fn compute(&self) -> (r: [u32; 1]) {
        let carry = pure_step(self.carry, 0, RADIX, MODULUS);
        proof {
            lemma_pure_step(
                self.carry as int,
                pure_value(self.history@, RADIX as int),
                0,
                RADIX as int,
                MODULUS as int,
            );
            lemma_mod_bound(carry as int, MODULUS as int);
        }
        let v = MODULUS + 1 - carry % MODULUS;
        [spec_rem(v, MODULUS)]
    }

    fn verify(&self) -> (r: bool) {
        let carry = match self.suppl {
            None => self.carry,
            Some(value) => {
                proof {
                    lemma_pure_step(
                        self.carry as int,
                        pure_value(self.history@, RADIX as int),
                        value as int,
                        RADIX as int,
                        MODULUS as int,
                    );
                    assert(self.history@.push(value).drop_last() =~= self.history@);
                }
                pure_step(self.carry, value, RADIX, MODULUS)
            },
        };
        carry % MODULUS == 1
    }
}

/// A generic accumulator for the pure system with two check characters.
///
/// The radix of the system is the size of the character set.
#[derive(Clone)]
pub struct PureDouble<const MODULUS: u32, const CHARSET_SIZE: u32> {
    carry: u32,
    history: Ghost<Seq<u32>>,
}

impl<const MODULUS: u32, const CHARSET_SIZE: u32> PureDouble<MODULUS, CHARSET_SIZE> {
    /// The carry held by the accumulator.
    pub closed spec fn spec_carry(&self) -> u32 {
        self.carry
    }

    /// The current carry, congruent to the value of the processed digits modulo `MODULUS`.
    pub fn carry(&self) -> (r: u32)
        requires
            self.inv(),
        ensures
            r == self.spec_carry(),
            r as int % MODULUS as int == pure_value(self.history(), CHARSET_SIZE as int)
                % MODULUS as int,
    {
        self.carry
    }
}

impl<const MODULUS: u32, const CHARSET_SIZE: u32> Default for PureDouble<MODULUS, CHARSET_SIZE> {
    fn default() -> (r: Self)
        ensures
            r.history() == Seq::<u32>::empty(),
            r.pending() == None::<u32>,
            Self::params_ok() ==> r.inv(),
    {
        PureDouble { carry: 0, history: Ghost(Seq::empty()) }
    }
}

impl<const MODULUS: u32, const CHARSET_SIZE: u32> Accumulator<2> for PureDouble<
    MODULUS,
    CHARSET_SIZE,
> {
    /// Besides the bounds, a character value may not exceed the modulus by more than one, so
    /// that a step cannot overflow.
    open spec fn params_ok() -> bool {
        &&& 0 < MODULUS < u32::MAX
        &&& 0 < CHARSET_SIZE <= MODULUS as int + 1
        &&& MODULUS as int <= CHARSET_SIZE as int * CHARSET_SIZE as int
    }

    closed spec fn inv(&self) -> bool {
        &&& Self::params_ok()
        &&& self.carry as int % MODULUS as int == pure_value(self.history@, CHARSET_SIZE as int)
            % MODULUS as int
    }

    closed spec fn history(&self) -> Seq<u32> {
        self.history@
    }

    closed spec fn pending(&self) -> Option<u32> {
        None
    }

    open spec fn classify(value: u32) -> AccumulateResult {
        if value >= CHARSET_SIZE {
            AccumulateResult::NotInCharset
        } else {
            AccumulateResult::Processed
        }
    }

    open spec fn check_values(values: Seq<u32>) -> Seq<u32> {
        let m = MODULUS as int;
        let r = CHARSET_SIZE as int;
        let v = m + 1 - (pure_value(values, r) * r * r) % m;
        seq![(v / r) as u32, (v % r) as u32]
    }

    open spec fn is_valid(values: Seq<u32>, suppl: Option<u32>) -> bool {
        pure_value(values, CHARSET_SIZE as int) % MODULUS as int == 1
    }

    fn new() -> (r: Self) {
        PureDouble { carry: 0, history: Ghost(Seq::empty()) }
    }

    fn accumulate(&mut self, value: u32) -> (r: AccumulateResult)
        ensures
            r != AccumulateResult::Processed ==> final(self).spec_carry() == old(self).spec_carry(),
            r == AccumulateResult::Processed ==> final(self).spec_carry() as int == pure_step_value(
                old(self).spec_carry(),
                value,
                CHARSET_SIZE,
                MODULUS,
            ),
    {
        if value >= CHARSET_SIZE {
            AccumulateResult::NotInCharset
        } else {
            let ghost old_history = self.history@;
            let c = pure_step(self.carry, value, CHARSET_SIZE, MODULUS);
            proof {
                lemma_pure_step(
                    self.carry as int,
                    pure_value(old_history, CHARSET_SIZE as int),
                    value as int,
                    CHARSET_SIZE as int,
                    MODULUS as int,
                );
                assert(old_history.push(value).drop_last() =~= old_history);
            }
            self.carry = c;
            self.history = Ghost(old_history.push(value));
            AccumulateResult::Processed
        }
    }

    fn compute(&self) -> (r: [u32; 2]) {
        let radix = CHARSET_SIZE;
        let ghost p = pure_value(self.history@, radix as int);
        let c1 = pure_step(self.carry, 0, radix, MODULUS);
        let carry = pure_step(c1, 0, radix, MODULUS);
        proof {
            lemma_pure_step(self.carry as int, p, 0, radix as int, MODULUS as int);
            lemma_pure_step(c1 as int, p * radix, 0, radix as int, MODULUS as int);
            lemma_mod_bound(carry as int, MODULUS as int);
        }
        let v = MODULUS + 1 - carry % MODULUS;
        [v / radix, v % radix]
    }

    fn verify(&self) -> (r: bool) {
        self.carry % MODULUS == 1
    }
}

/// The partial sum `S` of the hybrid system after the values, reduced into `1..=m`, or `0` for no
/// value.
pub open spec fn hybrid_sum(values: Seq<u32>, m: int) -> int
    decreases values.len(),
{
    if values.len() == 0 {
        0
    } else {
        let prev = values.drop_last();
        let p = if prev.len() == 0 {
            m
        } else {
            (2 * hybrid_sum(prev, m)) % (m + 1)
        };
        nz_mod(p + values.last(), m)
    }
}

/// The product `P` of the hybrid system after the values: `m` for no value, and otherwise twice
/// the partial sum modulo `m + 1`.
pub open spec fn hybrid_product(values: Seq<u32>, m: int) -> int {
    if values.len() == 0 {
        m
    } else {
        (2 * hybrid_sum(values, m)) % (m + 1)
    }
}

/// A generic accumulator for the hybrid system (modulus `CHARSET_SIZE` and `CHARSET_SIZE + 1`).
#[derive(Clone)]
pub struct Hybrid<const CHARSET_SIZE: u32> {
    carry: u32,
    history: Ghost<Seq<u32>>,
}

impl<const CHARSET_SIZE: u32> Hybrid<CHARSET_SIZE> {
    /// The current carry: the partial sum of the hybrid system.
    pub fn carry(&self) -> (r: u32)
        requires
            self.inv(),
        ensures
            r as int == hybrid_sum(self.history(), CHARSET_SIZE as int),
    {
        self.carry
    }

    proof fn lemma_product_range(&self)
        requires
            self.inv(),
            self.history@.len() > 0,
        ensures
            1 <= hybrid_product(self.history@, CHARSET_SIZE as int) <= CHARSET_SIZE,
            hybrid_product(self.history@, CHARSET_SIZE as int) == (2 * self.carry) % (
            CHARSET_SIZE + 1),
    {
        lemma_hybrid_ranges(self.history@, CHARSET_SIZE as int);
    }
}

/// The partial sum of a hybrid system lies in `1..=m` after at least one value, and the product
/// in `1..=m` always, for an even `m`.
pub proof fn lemma_hybrid_ranges(values: Seq<u32>, m: int)
    requires
        m >= 2,
        m % 2 == 0,
    ensures
        values.len() > 0 ==> 1 <= hybrid_sum(values, m) <= m,
        values.len() == 0 ==> hybrid_sum(values, m) == 0,
        1 <= hybrid_product(values, m) <= m,
{
    if values.len() > 0 {
        let prev = values.drop_last();
        let p = if prev.len() == 0 {
            m
        } else {
            (2 * hybrid_sum(prev, m)) % (m + 1)
        };
        lemma_mod_bound(p + values.last(), m);
        let c = hybrid_sum(values, m);
        lemma_mod_bound(2 * c, m + 1);
        if (2 * c) % (m + 1) == 0 {
            lemma_fundamental_div_mod(2 * c, m + 1);
            let q = (2 * c) / (m + 1);
            assert(q == 1) by (nonlinear_arith)
                requires
                    2 * c == q * (m + 1),
                    1 <= c <= m,
                    m > 0,
            ;
            lemma_fundamental_div_mod(m, 2);
            assert(false);
        }
    }
}

impl<const CHARSET_SIZE: u32> Default for Hybrid<CHARSET_SIZE> {
    fn default() -> (r: Self)
        ensures
            r.history() == Seq::<u32>::empty(),
            r.pending() == None::<u32>,
            Self::params_ok() ==> r.inv(),
    {
        Hybrid { carry: 0, history: Ghost(Seq::empty()) }
    }
}

impl<const CHARSET_SIZE: u32> Accumulator<1> for Hybrid<CHARSET_SIZE> {
    /// The character set size is even, so that the product `2 * S % (M + 1)` never vanishes, and
    /// doubling a sum cannot overflow.
    open spec fn params_ok() -> bool {
        &&& CHARSET_SIZE % 2 == 0
        &&& CHARSET_SIZE > 0
        &&& u32::MAX / 2 > CHARSET_SIZE
    }

    closed spec fn inv(&self) -> bool {
        &&& Self::params_ok()
        &&& self.carry as int == hybrid_sum(self.history@, CHARSET_SIZE as int)
        &&& self.carry <= CHARSET_SIZE
        &&& (self.carry == 0 <==> self.history@.len() == 0)
    }

    closed spec fn history(&self) -> Seq<u32> {
        self.history@
    }

    closed spec fn pending(&self) -> Option<u32> {
        None
    }

    open spec fn classify(value: u32) -> AccumulateResult {
        if value >= CHARSET_SIZE {
            AccumulateResult::NotInCharset
        } else {
            AccumulateResult::Processed
        }
    }

    open spec fn check_values(values: Seq<u32>) -> Seq<u32> {
        let m = CHARSET_SIZE as int;
        seq![((m + 1 - hybrid_product(values, m)) % m) as u32]
    }

    open spec fn is_valid(values: Seq<u32>, suppl: Option<u32>) -> bool {
        hybrid_sum(values, CHARSET_SIZE as int) == 1
    }

    fn new() -> (r: Self) {
        Hybrid { carry: 0, history: Ghost(Seq::empty()) }
    }

    fn accumulate(&mut self, value: u32) -> (r: AccumulateResult) {
        let modulus = CHARSET_SIZE;
        if value >= CHARSET_SIZE {
            AccumulateResult::NotInCharset
        } else {
            let ghost old_history = self.history@;
            proof {
                if old_history.len() > 0 {
                    self.lemma_product_range();
                }
            }
            let p = match self.carry {
                0 => modulus,
                c => spec_rem(c * 2, modulus + 1),
            };
            let c = non_zero_spec_rem(p + value, modulus);
            proof {
                assert(old_history.push(value).drop_last() =~= old_history);
            }
            self.carry = c;
            self.history = Ghost(old_history.push(value));
            AccumulateResult::Processed
        }
    }

    fn compute(&self) -> (r: [u32; 1]) {
        let modulus = CHARSET_SIZE;
        proof {
            if self.history@.len() > 0 {
                self.lemma_product_range();
            } else {
                lemma_small_mod(0, modulus as nat + 1);
                lemma_small_mod(1, modulus as nat);
                lemma_fundamental_div_mod_converse_mod(modulus as int + 1, modulus as int, 1, 1);
            }
        }
        let carry = spec_rem(self.carry * 2, modulus + 1);
        [spec_rem(modulus + 1 - carry, modulus)]
    }

    fn verify(&self) -> (r: bool) {
        self.carry == 1
    }
}


/// An accumulator for ISO/IEC 7064, MOD 11-2.
pub type Mod11_2 = PureSingle<11, 2, 10>;

/// An accumulator for ISO/IEC 7064, MOD 37-2.
pub type Mod37_2 = PureSingle<37, 2, 36>;

/// An accumulator for ISO/IEC 7064, MOD 97-10.
pub type Mod97_10 = PureDouble<97, 10>;

/// An accumulator for ISO/IEC 7064, MOD 661-26.
pub type Mod661_26 = PureDouble<661, 26>;

/// An accumulator for ISO/IEC 7064, MOD 1271-36.
pub type Mod1271_36 = PureDouble<1271, 36>;

/// An accumulator for ISO/IEC 7064, MOD 11,10.
pub type Mod11_10 = Hybrid<10>;

/// An accumulator for ISO/IEC 7064, MOD 27,26.
pub type Mod27_26 = Hybrid<26>;

/// An accumulator for ISO/IEC 7064, MOD 37,36.
pub type Mod37_36 = Hybrid<36>;

/// The state, made of the processed values and the held back supplementary value, after an
/// accumulator of type `A` has accumulated `value`.
pub open spec fn next_state<const N: usize, A: Accumulator<N>>(
    state: (Seq<u32>, Option<u32>),
    value: u32,
) -> (Seq<u32>, Option<u32>) {
    match A::classify(value) {
        AccumulateResult::Processed => (state.0.push(value), None),
        AccumulateResult::SupplFound => (state.0, Some(value)),
        AccumulateResult::NotInCharset => state,
    }
}

/// The state after an accumulator of type `A` has accumulated each of `values` in turn.
pub open spec fn feed<const N: usize, A: Accumulator<N>>(
    state: (Seq<u32>, Option<u32>),
    values: Seq<u32>,
) -> (Seq<u32>, Option<u32>)
    decreases values.len(),
{
    if values.len() == 0 {
        state
    } else {
        next_state::<N, A>(feed::<N, A>(state, values.drop_last()), values.last())
    }
}

/// Whether the check character values that `A` computes for the processed `values` are
/// accepted in turn, each as a character value, the last one possibly as a supplementary value,
/// and whether appending them to the values makes them verify.
pub open spec fn round_trip<const N: usize, A: Accumulator<N>>(values: Seq<u32>) -> bool {
    let checks = A::check_values(values);
    let state = feed::<N, A>((values, None), checks);
    &&& checks.len() > 0
    &&& forall|i: int|
        0 <= i < checks.len() ==> #[trigger] A::classify(checks[i]) == AccumulateResult::Processed
            || (i == checks.len() - 1 && A::classify(checks[i]) == AccumulateResult::SupplFound)
    &&& A::is_valid(state.0, state.1)
}

/// Whether an accumulator with one check character accepts exactly one character value after
/// any processed values: a value that is accepted, as a character or as a supplementary one,
/// makes the values verify only if it is their check character value.
pub open spec fn single_check_unique<const N: usize, A: Accumulator<N>>() -> bool {
    forall|values: Seq<u32>, v: u32|
        #![trigger next_state::<N, A>((values, None), v)]
        A::classify(v) != AccumulateResult::NotInCharset && A::is_valid(
            next_state::<N, A>((values, None), v).0,
            next_state::<N, A>((values, None), v).1,
        ) ==> seq![v] == A::check_values(values)
}

/// The only value below `m` that brings `x` to the remainder `t` modulo `m` when added.
pub(crate) proof fn lemma_unique_complement(x: int, v: int, t: int, m: int)
    requires
        m > 0,
        0 <= v < m,
        0 <= t < m,
        (x + v) % m == t,
    ensures
        v == (m + t - x % m) % m,
{
    let a = x % m;
    lemma_mod_bound(x, m);
    lemma_add_mod_noop(x, v, m);
    lemma_small_mod(v as nat, m as nat);
    if a + v < m {
        lemma_small_mod((a + v) as nat, m as nat);
        lemma_fundamental_div_mod_converse_mod(m + t - a, m, 1, v);
    } else {
        lemma_fundamental_div_mod_converse_mod(a + v, m, 1, a + v - m);
        lemma_small_mod((m + t - a) as nat, m as nat);
    }
}

proof fn lemma_one_mod(x: int, c: int, m: int)
    requires
        m >= 2,
        c == (m + 1 - x % m) % m,
    ensures
        (x + c) % m == 1,
{
    lemma_mod_bound(x, m);
    lemma_add_mod_noop(x, m + 1 - x % m, m);
    lemma_mod_twice(x, m);
    lemma_add_mod_noop(x, c, m);
    lemma_mod_twice(m + 1 - x % m, m);
    lemma_add_mod_noop(x % m, m + 1 - x % m, m);
    lemma_fundamental_div_mod_converse_mod(m + 1, m, 1, 1);
}

/// Pure systems with a single check character: the computed check character is accepted, and
/// appending it to the values makes them verify.
pub proof fn pure_single_round_trip<const MODULUS: u32, const RADIX: u32, const CHARSET_SIZE: u32>(
    values: Seq<u32>,
)
    requires
        PureSingle::<MODULUS, RADIX, CHARSET_SIZE>::params_ok(),
    ensures
        round_trip::<1, PureSingle<MODULUS, RADIX, CHARSET_SIZE>>(values),
        PureSingle::<MODULUS, RADIX, CHARSET_SIZE>::check_values(values).len() == 1,
        PureSingle::<MODULUS, RADIX, CHARSET_SIZE>::check_values(values)[0] < MODULUS,
{
    let m = MODULUS as int;
    let r = RADIX as int;
    let checks = PureSingle::<MODULUS, RADIX, CHARSET_SIZE>::check_values(values);
    let x = pure_value(values, r) * r;
    let c = (m + 1 - x % m) % m;
    lemma_mod_bound(x, m);
    lemma_mod_bound(m + 1 - x % m, m);
    lemma_one_mod(x, c, m);
    let cu = c as u32;
    assert(cu as int == c);
    assert(checks =~= seq![cu]);
    assert(checks.drop_last() =~= Seq::<u32>::empty());
    let state = feed::<1, PureSingle<MODULUS, RADIX, CHARSET_SIZE>>((values, None), checks);
    assert(feed::<1, PureSingle<MODULUS, RADIX, CHARSET_SIZE>>((values, None), checks.drop_last())
        == (values, None::<u32>));
    assert(state == next_state::<1, PureSingle<MODULUS, RADIX, CHARSET_SIZE>>((values, None), cu));
    assert(values.push(cu).drop_last() =~= values);
    assert(with_suppl(state.0, state.1) =~= values.push(cu));
    assert(pure_value(values.push(cu), r) == x + c);
}

/// Pure systems with two check characters: when the modulus is at least two and below the square
/// of the radix by at least two, the computed check characters are accepted, and appending them
/// to the values makes them verify.
pub proof fn pure_double_round_trip<const MODULUS: u32, const CHARSET_SIZE: u32>(values: Seq<u32>)
    requires
        PureDouble::<MODULUS, CHARSET_SIZE>::params_ok(),
        MODULUS >= 2,
        MODULUS + 2 <= CHARSET_SIZE as int * CHARSET_SIZE as int,
    ensures
        round_trip::<2, PureDouble<MODULUS, CHARSET_SIZE>>(values),
        PureDouble::<MODULUS, CHARSET_SIZE>::check_values(values).len() == 2,
        PureDouble::<MODULUS, CHARSET_SIZE>::check_values(values)[0] < CHARSET_SIZE,
        PureDouble::<MODULUS, CHARSET_SIZE>::check_values(values)[1] < CHARSET_SIZE,
{
    let m = MODULUS as int;
    let r = CHARSET_SIZE as int;
    let checks = PureDouble::<MODULUS, CHARSET_SIZE>::check_values(values);
    let p = pure_value(values, r);
    let x = p * r * r;
    lemma_mod_bound(x, m);
    let v = m + 1 - x % m;
    lemma_fundamental_div_mod(v, r);
    lemma_mod_bound(v, r);
    assert(v / r < r) by (nonlinear_arith)
        requires
            v == r * (v / r) + v % r,
            0 <= v % r,
            v <= r * r - 1,
            r > 0,
    ;
    lemma_div_pos_is_pos(v, r);
    let hi = (v / r) as u32;
    let lo = (v % r) as u32;
    assert(hi as int == v / r);
    assert(lo as int == v % r);
    assert(checks =~= seq![hi, lo]);
    let first = values.push(hi);
    let both = first.push(lo);
    assert(checks.drop_last() =~= seq![hi]);
    assert(checks.drop_last().drop_last() =~= Seq::<u32>::empty());
    assert(first.drop_last() =~= values);
    assert(both.drop_last() =~= first);
    let state = feed::<2, PureDouble<MODULUS, CHARSET_SIZE>>((values, None), checks);
    let state1 = feed::<2, PureDouble<MODULUS, CHARSET_SIZE>>((values, None), checks.drop_last());
    assert(feed::<2, PureDouble<MODULUS, CHARSET_SIZE>>(
        (values, None),
        checks.drop_last().drop_last(),
    ) == (values, None::<u32>));
    assert(state1 == next_state::<2, PureDouble<MODULUS, CHARSET_SIZE>>((values, None), hi));
    assert(state1.0 == first);
    assert(state == next_state::<2, PureDouble<MODULUS, CHARSET_SIZE>>(state1, lo));
    assert(state.0 == both);
    assert(pure_value(first, r) == p * r + hi);
    assert(pure_value(both, r) == (p * r + hi) * r + lo);
    assert(pure_value(both, r) == x + v) by (nonlinear_arith)
        requires
            pure_value(both, r) == (p * r + hi) * r + lo,
            x == p * r * r,
            v == r * hi + lo,
    ;
    lemma_small_mod(v as nat, (m + 2) as nat);
    lemma_add_mod_noop(x, v, m);
    lemma_mod_twice(x, m);
    lemma_add_mod_noop(x % m, v, m);
    assert(x % m + v == m + 1);
    lemma_fundamental_div_mod_converse_mod(m + 1, m, 1, 1);
}

/// Hybrid systems: the computed check character is accepted, and appending it to the values
/// makes them verify.
pub proof fn hybrid_round_trip<const CHARSET_SIZE: u32>(values: Seq<u32>)
    requires
        Hybrid::<CHARSET_SIZE>::params_ok(),
    ensures
        round_trip::<1, Hybrid<CHARSET_SIZE>>(values),
        Hybrid::<CHARSET_SIZE>::check_values(values).len() == 1,
        Hybrid::<CHARSET_SIZE>::check_values(values)[0] < CHARSET_SIZE,
{
    let m = CHARSET_SIZE as int;
    lemma_hybrid_ranges(values, m);
    let p = hybrid_product(values, m);
    let c = (m + 1 - p) % m;
    lemma_mod_bound(m + 1 - p, m);
    let cu = c as u32;
    assert(cu as int == c);
    let checks = Hybrid::<CHARSET_SIZE>::check_values(values);
    assert(checks =~= seq![cu]);
    assert(checks.drop_last() =~= Seq::<u32>::empty());
    let all = values.push(cu);
    assert(all.drop_last() =~= values);
    let state = feed::<1, Hybrid<CHARSET_SIZE>>((values, None), checks);
    assert(feed::<1, Hybrid<CHARSET_SIZE>>((values, None), checks.drop_last()) == (
    values,
    None::<u32>,
    ));
    assert(state == next_state::<1, Hybrid<CHARSET_SIZE>>((values, None), cu));
    assert(state.0 == all);
    let prev_p = if values.len() == 0 {
        m
    } else {
        (2 * hybrid_sum(values, m)) % (m + 1)
    };
    assert(prev_p == p);
    assert(hybrid_sum(all, m) == nz_mod(p + c, m));
    if p == m {
        lemma_fundamental_div_mod_converse_mod(1, m, 0, 1);
        assert(c == 1);
        lemma_fundamental_div_mod_converse_mod(m + 1, m, 1, 1);
    } else {
        lemma_small_mod(p as nat, m as nat);
        lemma_one_mod(p, c, m);
    }
}

/// Pure systems with a single check character accept a single character value after any
/// processed values: the check character value.
pub proof fn pure_single_check_unique<const MODULUS: u32, const RADIX: u32, const CHARSET_SIZE: u32>()
    requires
        PureSingle::<MODULUS, RADIX, CHARSET_SIZE>::params_ok(),
    ensures
        single_check_unique::<1, PureSingle<MODULUS, RADIX, CHARSET_SIZE>>(),
{
    assert forall|values: Seq<u32>, v: u32|
        #![trigger next_state::<1, PureSingle<MODULUS, RADIX, CHARSET_SIZE>>((values, None), v)]
        PureSingle::<MODULUS, RADIX, CHARSET_SIZE>::classify(v) != AccumulateResult::NotInCharset
            && PureSingle::<MODULUS, RADIX, CHARSET_SIZE>::is_valid(
            next_state::<1, PureSingle<MODULUS, RADIX, CHARSET_SIZE>>((values, None), v).0,
            next_state::<1, PureSingle<MODULUS, RADIX, CHARSET_SIZE>>((values, None), v).1,
        ) implies seq![v] == PureSingle::<MODULUS, RADIX, CHARSET_SIZE>::check_values(values) by {
        let m = MODULUS as int;
        let x = pure_value(values, RADIX as int) * RADIX as int;
        assert(values.push(v).drop_last() =~= values);
        assert(with_suppl(
            next_state::<1, PureSingle<MODULUS, RADIX, CHARSET_SIZE>>((values, None), v).0,
            next_state::<1, PureSingle<MODULUS, RADIX, CHARSET_SIZE>>((values, None), v).1,
        ) =~= values.push(v));
        assert(pure_value(values.push(v), RADIX as int) == x + v);
        lemma_unique_complement(x, v as int, 1, m);
        lemma_mod_bound(m + 1 - x % m, m);
    }
}

/// Hybrid systems accept a single character value after any processed values: the check
/// character value.
pub proof fn hybrid_check_unique<const CHARSET_SIZE: u32>()
    requires
        Hybrid::<CHARSET_SIZE>::params_ok(),
    ensures
        single_check_unique::<1, Hybrid<CHARSET_SIZE>>(),
{
    assert forall|values: Seq<u32>, v: u32|
        #![trigger next_state::<1, Hybrid<CHARSET_SIZE>>((values, None), v)]
        Hybrid::<CHARSET_SIZE>::classify(v) != AccumulateResult::NotInCharset
            && Hybrid::<CHARSET_SIZE>::is_valid(
            next_state::<1, Hybrid<CHARSET_SIZE>>((values, None), v).0,
            next_state::<1, Hybrid<CHARSET_SIZE>>((values, None), v).1,
        ) implies seq![v] == Hybrid::<CHARSET_SIZE>::check_values(values) by {
        let m = CHARSET_SIZE as int;
        lemma_hybrid_ranges(values, m);
        let p = hybrid_product(values, m);
        let all = values.push(v);
        assert(all.drop_last() =~= values);
        assert(hybrid_sum(all, m) == nz_mod(p + v, m));
        assert((p + v) % m == 1);
        lemma_unique_complement(p, v as int, 1, m);
        if p == m {
            lemma_mod_self_0(m);
            lemma_fundamental_div_mod_converse_mod(m + 1, m, 1, 1);
            lemma_small_mod(1, m as nat);
        } else {
            lemma_small_mod(p as nat, m as nat);
        }
        lemma_mod_bound(m + 1 - p, m);
    }
}

} // verus!
