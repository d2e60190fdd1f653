//! The [`System`] structure providing a check character system interface.

use core::marker::PhantomData;

use vstd::prelude::*;

use crate::accumulator::{self, AccumulateResult, Accumulator, feed, next_state, round_trip};
use crate::charset::{
    self, Alphabetic, Alphanumeric, AlphanumericAst, DecodedValues, Decoder, Encoder, Numeric,
    NumericX, inverse_on,
};

verus! {

/// The state of an accumulator: the values processed so far and the supplementary value held
/// back, if any.
pub type AccState = (Seq<u32>, Option<u32>);

/// Accumulating `values` in turn from `state`, stopping at the first value that is not processed:
/// the state reached and the result of the last step (`Processed` when every value is).
pub open spec fn run_values<const N: usize, A: Accumulator<N>>(state: AccState, values: Seq<u32>) -> (
    AccState,
    AccumulateResult,
)
    decreases values.len(),
{
    if values.len() == 0 {
        (state, AccumulateResult::Processed)
    } else {
        let next = next_state::<N, A>(state, values[0]);
        if A::classify(values[0]) == AccumulateResult::Processed {
            run_values::<N, A>(next, values.drop_first())
        } else {
            (next, A::classify(values[0]))
        }
    }
}

/// Accumulating an item that decodes to `decoded` (`None` when it is not in the character set).
pub open spec fn step_decoded<const N: usize, A: Accumulator<N>>(
    state: AccState,
    decoded: Option<Seq<u32>>,
) -> (AccState, AccumulateResult) {
    match decoded {
        None => (state, AccumulateResult::NotInCharset),
        Some(values) => run_values::<N, A>(state, values),
    }
}

/// The state after accumulating each of `items` in turn from `state`, whatever the results.
pub open spec fn lax_run<const N: usize, A: Accumulator<N>, T>(
    decode: spec_fn(T) -> Option<Seq<u32>>,
    state: AccState,
    items: Seq<T>,
) -> AccState
    decreases items.len(),
{
    if items.len() == 0 {
        state
    } else {
        step_decoded::<N, A>(
            lax_run::<N, A, T>(decode, state, items.drop_last()),
            decode(items.last()),
        ).0
    }
}

/// The state after accumulating each of `items` in turn from a new accumulator, whatever the
/// results.
pub open spec fn lax_state<const N: usize, A: Accumulator<N>, T>(
    decode: spec_fn(T) -> Option<Seq<u32>>,
    items: Seq<T>,
) -> AccState {
    lax_run::<N, A, T>(decode, (Seq::empty(), None), items)
}

/// The result of accumulating the item at position `j`, after the items before it.
pub open spec fn result_at<const N: usize, A: Accumulator<N>, T>(
    decode: spec_fn(T) -> Option<Seq<u32>>,
    items: Seq<T>,
    j: int,
) -> AccumulateResult {
    step_decoded::<N, A>(lax_state::<N, A, T>(decode, items.take(j)), decode(items[j])).1
}

/// Whether each of the first `k` items is fully processed.
pub open spec fn processed_upto<const N: usize, A: Accumulator<N>, T>(
    decode: spec_fn(T) -> Option<Seq<u32>>,
    items: Seq<T>,
    k: int,
) -> bool {
    forall|j: int|
        0 <= j < k ==> #[trigger] result_at::<N, A, T>(decode, items, j)
            == AccumulateResult::Processed
}

/// Whether the item at `pos` is the first one that is not fully processed.
pub open spec fn first_failure<const N: usize, A: Accumulator<N>, T>(
    decode: spec_fn(T) -> Option<Seq<u32>>,
    items: Seq<T>,
    pos: int,
) -> bool {
    &&& 0 <= pos < items.len()
    &&& processed_upto::<N, A, T>(decode, items, pos)
    &&& result_at::<N, A, T>(decode, items, pos) != AccumulateResult::Processed
}

/// Whether strict verification accepts the items: each one is fully processed, except that the
/// last one may be a supplementary check character.
pub open spec fn verify_accepts<const N: usize, A: Accumulator<N>, T>(
    decode: spec_fn(T) -> Option<Seq<u32>>,
    items: Seq<T>,
) -> bool {
    ||| processed_upto::<N, A, T>(decode, items, items.len() as int)
    ||| items.len() > 0 && processed_upto::<N, A, T>(decode, items, items.len() - 1)
        && result_at::<N, A, T>(decode, items, items.len() - 1) == AccumulateResult::SupplFound
}

/// What an item decodes to with the decoder.
pub open spec fn item_decoder<T: Accumulatable<D>, D>(dec: D) -> spec_fn(T) -> Option<Seq<u32>> {
    |t: T| t.decoded_with(dec)
}

/// A type of item that can be accumulated: a numerical value or a character to be decoded.
pub trait Accumulatable<Dec>: Copy {
    /// The values that the item stands for, or `None` when it is not in the character set.
    spec fn decoded_with(self, dec: Dec) -> Option<Seq<u32>>;

    /// Accumulates the values that the item stands for, stopping at the first one that is not
    /// processed, and returns the result of the last step.
    fn accumulate_to<const N: usize, A: Accumulator<N>>(self, acc: &mut A, decoder: &Dec) -> (r:
        AccumulateResult)
        requires
            old(acc).inv(),
        ensures
            final(acc).inv(),
            ((final(acc).history(), final(acc).pending()), r) == step_decoded::<N, A>(
                (old(acc).history(), old(acc).pending()),
                self.decoded_with(*decoder),
            ),
    ;
}

impl<Dec> Accumulatable<Dec> for u32 {
    open spec fn decoded_with(self, dec: Dec) -> Option<Seq<u32>> {
        Some(seq![self])
    }

    fn accumulate_to<const N: usize, A: Accumulator<N>>(self, acc: &mut A, decoder: &Dec) -> (r:
        AccumulateResult) {
        let ghost before = (acc.history(), acc.pending());
        let r = acc.accumulate(self);
        proof {
            let vs = seq![self];
            assert(vs[0] == self);
            assert(vs.drop_first() =~= Seq::<u32>::empty());
            assert(run_values::<N, A>(next_state::<N, A>(before, self), vs.drop_first()) == (
            next_state::<N, A>(before, self),
            AccumulateResult::Processed,
            ));
            assert((acc.history(), acc.pending()) == next_state::<N, A>(before, self));
        }
        r
    }
}

impl<Dec: Decoder> Accumulatable<Dec> for char {
    open spec fn decoded_with(self, dec: Dec) -> Option<Seq<u32>> {
        dec.spec_decode(self)
    }

    fn accumulate_to<const N: usize, A: Accumulator<N>>(self, acc: &mut A, decoder: &Dec) -> (r:
        AccumulateResult) {
        match decoder.decode(self) {
            None => AccumulateResult::NotInCharset,
            Some(decoded) => {
                let ghost values = decoded.values();
                let ghost start = (acc.history(), acc.pending());
                let n = decoded.count();
                let mut i: usize = 0;
                proof {
                    assert(values.skip(0) =~= values);
                }
                while i < n
                    invariant
                        acc.inv(),
                        i <= n,
                        n == values.len(),
                        values == decoded.values(),
                        start == (old(acc).history(), old(acc).pending()),
                        decoder.spec_decode(self) == Some(values),
                        run_values::<N, A>(start, values) == run_values::<N, A>(
                            (acc.history(), acc.pending()),
                            values.skip(i as int),
                        ),
                    decreases n - i,
                {
                    let ghost before = (acc.history(), acc.pending());
                    let value = decoded.value_at(i);
                    let r = acc.accumulate(value);
                    proof {
                        let rest = values.skip(i as int);
                        assert(rest.len() > 0);
                        assert(rest[0] == value);
                        assert(rest.drop_first() =~= values.skip(i + 1));
                        assert((acc.history(), acc.pending()) == next_state::<N, A>(before, value));
                    }
                    if r != AccumulateResult::Processed {
                        proof {
                            let rest = values.skip(i as int);
                            assert(run_values::<N, A>(before, rest) == (
                            next_state::<N, A>(before, value),
                            r,
                            ));
                        }
                        return r;
                    }
                    i = i + 1;
                }
                proof {
                    assert(values.skip(i as int) =~= Seq::<u32>::empty());
                    assert(run_values::<N, A>(
                        (acc.history(), acc.pending()),
                        values.skip(i as int),
                    ) == ((acc.history(), acc.pending()), AccumulateResult::Processed));
                }
                AccumulateResult::Processed
            },
        }
    }
}

/// A generic facade structure combining [`Accumulator`] and character set into a check character
/// system interface.
#[derive(Debug, Default)]
pub struct System<const N_CC: usize, Acc, Enc, Dec> {
    /// The accumulator type of the system.
    pub accumulator: PhantomData<Acc>,
    /// The encoder of check character values.
    pub encoder: Enc,
    /// The decoder of input characters.
    pub decoder: Dec,
}

/// An error returned when check character computation fails.
#[derive(Debug)]
pub struct ComputeError<T> {
    /// The item that is not in the character set.
    pub val: T,
    /// The position of the item in the input.
    pub pos: usize,
}

/// The specific kind of a verification error.
#[derive(Debug, Clone, Copy, PartialEq, Eq, Structural)]
pub enum VerifyErrorKind {
    /// A character in the input was not found in the character set.
    NotInCharset,
    /// A supplementary check character was found before the end of the input.
    UnexpectedSuppl,
}

impl VerifyErrorKind {
    /// A description of the error kind.
    pub fn as_str(&self) -> (r: &'static str)
        ensures
            r@ == (match self {
                VerifyErrorKind::NotInCharset => "char not in charset"@,
                VerifyErrorKind::UnexpectedSuppl => "suppl check char not at end"@,
            }),
    {
        match self {
            VerifyErrorKind::NotInCharset => "char not in charset",
            VerifyErrorKind::UnexpectedSuppl => "suppl check char not at end",
        }
    }
}

/// An error returned when check character verification fails.
#[derive(Debug)]
pub struct VerifyError<T> {
    /// The offending item.
    pub val: T,
    /// The position of the item in the input.
    pub pos: usize,
    /// What is wrong with the item.
    pub kind: VerifyErrorKind,
}

/// Whether `r` is what strict computation gives for the items: the check character values of the
/// processed values when every item is fully processed, and otherwise the first item that is
/// not, with its position.
pub open spec fn computes<const N: usize, A: Accumulator<N>, T>(
    decode: spec_fn(T) -> Option<Seq<u32>>,
    items: Seq<T>,
    r: Result<[u32; N], ComputeError<T>>,
) -> bool {
    match r {
        Ok(values) => processed_upto::<N, A, T>(decode, items, items.len() as int) && values@
            == A::check_values(lax_state::<N, A, T>(decode, items).0),
        Err(e) => first_failure::<N, A, T>(decode, items, e.pos as int) && e.val == items[e.pos as int],
    }
}

/// Whether `r` is what strict verification gives for the items: when they are accepted, whether
/// the accumulated state satisfies the check character condition, and otherwise the first item
/// that is not fully processed, with its position and the reason.
pub open spec fn verifies<const N: usize, A: Accumulator<N>, T>(
    decode: spec_fn(T) -> Option<Seq<u32>>,
    items: Seq<T>,
    r: Result<bool, VerifyError<T>>,
) -> bool {
    match r {
        Ok(b) => verify_accepts::<N, A, T>(decode, items) && b == A::is_valid(
            lax_state::<N, A, T>(decode, items).0,
            lax_state::<N, A, T>(decode, items).1,
        ),
        Err(e) => {
            &&& first_failure::<N, A, T>(decode, items, e.pos as int)
            &&& e.val == items[e.pos as int]
            &&& e.kind == (if result_at::<N, A, T>(decode, items, e.pos as int)
                == AccumulateResult::SupplFound {
                VerifyErrorKind::UnexpectedSuppl
            } else {
                VerifyErrorKind::NotInCharset
            })
            &&& e.kind == VerifyErrorKind::UnexpectedSuppl ==> e.pos + 1 < items.len()
        },
    }
}

proof fn lemma_lax_step<const N: usize, A: Accumulator<N>, T>(
    decode: spec_fn(T) -> Option<Seq<u32>>,
    items: Seq<T>,
    i: int,
)
    requires
        0 <= i < items.len(),
    ensures
        lax_state::<N, A, T>(decode, items.take(i + 1)) == step_decoded::<N, A>(
            lax_state::<N, A, T>(decode, items.take(i)),
            decode(items[i]),
        ).0,
{
    assert(items.take(i + 1).drop_last() =~= items.take(i));
}

impl<const N_CC: usize, Acc: Accumulator<N_CC>, Enc, Dec> System<N_CC, Acc, Enc, Dec> {
    /// Computes the check character values from a slice of numerical values.
    ///
    /// # Errors
    ///
    /// Returns a [`ComputeError`] if any value is not in the character set.
    pub fn compute_from_values(&self, values: &[u32]) -> (r: Result<[u32; N_CC], ComputeError<u32>>)
        requires
            Acc::params_ok(),
        ensures
            computes::<N_CC, Acc, u32>(item_decoder::<u32, Dec>(self.decoder), values@, r),
    {
        self.compute_from_iter(values)
    }

    /// Verifies whether the check character values in the slice of numerical values are valid.
    ///
    /// # Errors
    ///
    /// Returns a [`VerifyError`] if any value is not in the character set, or if a supplementary
    /// check character value is found before the end.
    pub fn verify_from_values(&self, values: &[u32]) -> (r: Result<bool, VerifyError<u32>>)
        requires
            Acc::params_ok(),
        ensures
            verifies::<N_CC, Acc, u32>(item_decoder::<u32, Dec>(self.decoder), values@, r),
    {
        self.verify_from_iter(values)
    }

    fn compute_from_iter<T: Accumulatable<Dec>>(&self, items: &[T]) -> (r: Result<
        [u32; N_CC],
        ComputeError<T>,
    >)
        requires
            Acc::params_ok(),
        ensures
            computes::<N_CC, Acc, T>(item_decoder::<T, Dec>(self.decoder), items@, r),
    {
        let ghost decode = item_decoder::<T, Dec>(self.decoder);
        let mut acc = Acc::new();
        let n = items.len();
        let mut pos: usize = 0;
        proof {
            assert(items@.take(0) =~= Seq::<T>::empty());
        }
        while pos < n
            invariant
                acc.inv(),
                pos <= n,
                n == items@.len(),
                decode == item_decoder::<T, Dec>(self.decoder),
                (acc.history(), acc.pending()) == lax_state::<N_CC, Acc, T>(
                    decode,
                    items@.take(pos as int),
                ),
                processed_upto::<N_CC, Acc, T>(decode, items@, pos as int),
            decreases n - pos,
        {
            let val = items[pos];
            let r = val.accumulate_to(&mut acc, &self.decoder);
            proof {
                lemma_lax_step::<N_CC, Acc, T>(decode, items@, pos as int);
            }
            if r != AccumulateResult::Processed {
                return Err(ComputeError { val, pos });
            }
            pos = pos + 1;
        }
        proof {
            assert(items@.take(n as int) =~= items@);
        }
        Ok(acc.compute())
    }

    fn verify_from_iter<T: Accumulatable<Dec>>(&self, items: &[T]) -> (r: Result<
        bool,
        VerifyError<T>,
    >)
        requires
            Acc::params_ok(),
        ensures
            verifies::<N_CC, Acc, T>(item_decoder::<T, Dec>(self.decoder), items@, r),
    {
        let ghost decode = item_decoder::<T, Dec>(self.decoder);
        let mut acc = Acc::new();
        let n = items.len();
        let mut pos: usize = 0;
        proof {
            assert(items@.take(0) =~= Seq::<T>::empty());
        }
        while pos < n
            invariant
                acc.inv(),
                pos <= n,
                n == items@.len(),
                decode == item_decoder::<T, Dec>(self.decoder),
                (acc.history(), acc.pending()) == lax_state::<N_CC, Acc, T>(
                    decode,
                    items@.take(pos as int),
                ),
                processed_upto::<N_CC, Acc, T>(decode, items@, pos as int),
            decreases n - pos,
        {
            let val = items[pos];
            let r = val.accumulate_to(&mut acc, &self.decoder);
            proof {
                lemma_lax_step::<N_CC, Acc, T>(decode, items@, pos as int);
            }
            match r {
                AccumulateResult::Processed => {},
                AccumulateResult::SupplFound => {
                    if pos + 1 == n {
                        proof {
                            assert(items@.take(n as int) =~= items@);
                        }
                        return Ok(acc.verify());
                    } else {
                        let kind = VerifyErrorKind::UnexpectedSuppl;
                        return Err(VerifyError { val, pos, kind });
                    }
                },
                AccumulateResult::NotInCharset => {
                    let kind = VerifyErrorKind::NotInCharset;
                    return Err(VerifyError { val, pos, kind });
                },
            }
            pos = pos + 1;
        }
        proof {
            assert(items@.take(n as int) =~= items@);
        }
        Ok(acc.verify())
    }

    fn lax_from_iter<T: Accumulatable<Dec>>(&self, items: &[T]) -> (acc: Acc)
        requires
            Acc::params_ok(),
        ensures
            acc.inv(),
            (acc.history(), acc.pending()) == lax_state::<N_CC, Acc, T>(
                item_decoder::<T, Dec>(self.decoder),
                items@,
            ),
    {
        let ghost decode = item_decoder::<T, Dec>(self.decoder);
        let mut acc = Acc::new();
        let n = items.len();
        let mut pos: usize = 0;
        proof {
            assert(items@.take(0) =~= Seq::<T>::empty());
        }
        while pos < n
            invariant
                acc.inv(),
                pos <= n,
                n == items@.len(),
                decode == item_decoder::<T, Dec>(self.decoder),
                (acc.history(), acc.pending()) == lax_state::<N_CC, Acc, T>(
                    decode,
                    items@.take(pos as int),
                ),
            decreases n - pos,
        {
            let val = items[pos];
            let _ = val.accumulate_to(&mut acc, &self.decoder);
            proof {
                lemma_lax_step::<N_CC, Acc, T>(decode, items@, pos as int);
            }
            pos = pos + 1;
        }
        proof {
            assert(items@.take(n as int) =~= items@);
        }
        acc
    }

    /// Creates an instance with [`Encoder`] and [`Decoder`].
    pub fn with_charset(encoder: Enc, decoder: Dec) -> (r: Self)
        ensures
            r.encoder == encoder,
            r.decoder == decoder,
    {
        System { accumulator: PhantomData, encoder, decoder }
    }
}


/// The characters of the string, in order.
pub(crate) fn chars_of(s: &str) -> (r: Vec<char>)
    ensures
        r@ == s@,
{
    let mut out: Vec<char> = Vec::new();
    for c in it: s.chars()
        invariant
            out@ == it.seq().take(it.index() as int),
    {
        out.push(c);
    }
    out
}

/// Appends a character to the string by calling `String::push`, which the contract takes to add
/// the character at the end and change nothing else.
#[verifier::external_body]
fn push_char(s: &mut String, c: char)
    ensures
        final(s)@ == old(s)@.push(c),
{
    s.push(c)
}

impl<const N_CC: usize, Acc: Accumulator<N_CC>, Enc: Encoder, Dec: Decoder> System<
    N_CC,
    Acc,
    Enc,
    Dec,
> {
    /// Whether the encoder represents every check character value that the accumulator may
    /// compute.
    pub open spec fn encodes_checks(&self) -> bool {
        forall|values: Seq<u32>, i: int|
            0 <= i < N_CC ==> (#[trigger] self.encoder.spec_encode(
                Acc::check_values(values)[i],
            )) is Some
    }

    /// The characters that the encoder gives for the values.
    pub open spec fn encode_values(&self, values: Seq<u32>) -> Seq<char> {
        values.map_values(|v: u32| self.encoder.spec_encode(v)->0)
    }

    /// The check characters for the characters, which are accumulated in turn, whatever the
    /// results.
    pub open spec fn check_chars(&self, chars: Seq<char>) -> Seq<char> {
        self.encode_values(
            Acc::check_values(
                lax_state::<N_CC, Acc, char>(item_decoder::<char, Dec>(self.decoder), chars).0,
            ),
        )
    }

    /// Whether `r` is what strict computation gives for the characters: their check characters
    /// when each one is fully processed, and otherwise the first one that is not, with its
    /// position.
    pub open spec fn computes_chars(
        &self,
        chars: Seq<char>,
        r: Result<[char; N_CC], ComputeError<char>>,
    ) -> bool {
        let decode = item_decoder::<char, Dec>(self.decoder);
        match r {
            Ok(cc) => processed_upto::<N_CC, Acc, char>(decode, chars, chars.len() as int) && cc@
                == self.check_chars(chars),
            Err(e) => first_failure::<N_CC, Acc, char>(decode, chars, e.pos as int) && e.val
                == chars[e.pos as int],
        }
    }

    fn force_encode(&self, v: u32) -> (r: char)
        requires
            self.encoder.spec_encode(v) is Some,
        ensures
            r == self.encoder.spec_encode(v)->0,
    {
        match self.encoder.encode(v) {
            Some(c) => c,
            None => ' ',
        }
    }

    fn encode_all(&self, values: [u32; N_CC]) -> (r: [char; N_CC])
        requires
            forall|i: int| 0 <= i < N_CC ==> (#[trigger] self.encoder.spec_encode(values@[i])) is Some,
        ensures
            r@ == self.encode_values(values@),
    {
        let mut out = [' '; N_CC];
        for i in 0..N_CC
            invariant
                out@.len() == N_CC,
                forall|j: int| 0 <= j < N_CC ==> (#[trigger] self.encoder.spec_encode(values@[j])) is Some,
                forall|j: int| 0 <= j < i ==> out@[j] == #[trigger] self.encoder.spec_encode(values@[j])->0,
        {
            out[i] = self.force_encode(values[i]);
        }
        assert(out@ =~= self.encode_values(values@));
        out
    }

    /// Computes the check characters for the string `s` and appends them.
    ///
    /// # Errors
    ///
    /// Returns a [`ComputeError`] if any character is not in the character set; `s` is then left
    /// unchanged.
    pub fn protect(&self, s: &mut String) -> (r: Result<(), ComputeError<char>>)
        requires
            Acc::params_ok(),
            self.encodes_checks(),
        ensures
            match r {
                Ok(()) => processed_upto::<N_CC, Acc, char>(
                    item_decoder::<char, Dec>(self.decoder),
                    old(s)@,
                    old(s)@.len() as int,
                ) && final(s)@ == old(s)@ + self.check_chars(old(s)@),
                Err(e) => final(s)@ == old(s)@ && self.computes_chars(old(s)@, Err(e)),
            },
    {
        match self.compute(s.as_str()) {
            Ok(cc) => {
                let ghost start = s@;
                for i in 0..N_CC
                    invariant
                        s@ == start + cc@.take(i as int),
                {
                    push_char(s, cc[i]);
                    proof {
                        assert(cc@.take(i + 1) =~= cc@.take(i as int).push(cc@[i as int]));
                    }
                }
                proof {
                    assert(cc@.take(N_CC as int) =~= cc@);
                }
                Ok(())
            },
            Err(e) => Err(e),
        }
    }

    /// Computes the check characters for the string `s` and appends them, ignoring any invalid
    /// characters.
    pub fn protect_lax(&self, s: &mut String)
        requires
            Acc::params_ok(),
            self.encodes_checks(),
        ensures
            final(s)@ == old(s)@ + self.check_chars(old(s)@),
    {
        let cc = self.compute_lax(s.as_str());
        let ghost start = s@;
        for i in 0..N_CC
            invariant
                s@ == start + cc@.take(i as int),
        {
            push_char(s, cc[i]);
            proof {
                assert(cc@.take(i + 1) =~= cc@.take(i as int).push(cc@[i as int]));
            }
        }
        proof {
            assert(cc@.take(N_CC as int) =~= cc@);
        }
    }

    /// Computes the check characters for the string `s`.
    ///
    /// # Errors
    ///
    /// Returns a [`ComputeError`] if any character is not in the character set.
    pub fn compute(&self, s: &str) -> (r: Result<[char; N_CC], ComputeError<char>>)
        requires
            Acc::params_ok(),
            self.encodes_checks(),
        ensures
            self.computes_chars(s@, r),
    {
        let chars = chars_of(s);
        self.compute_from_chars(chars.as_slice())
    }

    /// Computes the check characters for the string `s`, ignoring any invalid characters.
    pub fn compute_lax(&self, s: &str) -> (r: [char; N_CC])
        requires
            Acc::params_ok(),
            self.encodes_checks(),
        ensures
            r@ == self.check_chars(s@),
    {
        let chars = chars_of(s);
        let acc = self.lax_from_iter(chars.as_slice());
        let vs = acc.compute();
        proof {
            assert forall|i: int| 0 <= i < N_CC implies (#[trigger] self.encoder.spec_encode(
                vs@[i],
            )) is Some by {
                assert(self.encoder.spec_encode(Acc::check_values(acc.history())[i]) is Some);
            }
        }
        self.encode_all(vs)
    }

    /// Computes the check characters from a slice of characters.
    ///
    /// # Errors
    ///
    /// Returns a [`ComputeError`] if any character is not in the character set.
    pub fn compute_from_chars(&self, chars: &[char]) -> (r: Result<
        [char; N_CC],
        ComputeError<char>,
    >)
        requires
            Acc::params_ok(),
            self.encodes_checks(),
        ensures
            self.computes_chars(chars@, r),
    {
        match self.compute_from_iter(chars) {
            Ok(vs) => {
                proof {
                    assert forall|i: int| 0 <= i < N_CC implies (#[trigger] self.encoder.spec_encode(
                        vs@[i],
                    )) is Some by {
                        assert(self.encoder.spec_encode(
                            Acc::check_values(
                                lax_state::<N_CC, Acc, char>(
                                    item_decoder::<char, Dec>(self.decoder),
                                    chars@,
                                ).0,
                            )[i],
                        ) is Some);
                    }
                }
                Ok(self.encode_all(vs))
            },
            Err(e) => Err(e),
        }
    }
}

impl<const N_CC: usize, Acc: Accumulator<N_CC>, Enc, Dec: Decoder> System<N_CC, Acc, Enc, Dec> {
    /// Verifies whether the check characters in the string `s` are valid.
    ///
    /// # Errors
    ///
    /// Returns a [`VerifyError`] if any character is not in the character set, or if a
    /// supplementary check character (e.g., `X` or `*`) is found before the end.
    pub fn verify(&self, s: &str) -> (r: Result<bool, VerifyError<char>>)
        requires
            Acc::params_ok(),
        ensures
            verifies::<N_CC, Acc, char>(item_decoder::<char, Dec>(self.decoder), s@, r),
    {
        let chars = chars_of(s);
        self.verify_from_chars(chars.as_slice())
    }

    /// Verifies whether the check characters in the string `s` are valid, ignoring any invalid
    /// characters.
    ///
    /// For this purpose, supplementary check characters (e.g., `X` or `*`) found before the end are
    /// regarded as invalid and ignored.
    pub fn verify_lax(&self, s: &str) -> (r: bool)
        requires
            Acc::params_ok(),
        ensures
            r == Acc::is_valid(
                lax_state::<N_CC, Acc, char>(item_decoder::<char, Dec>(self.decoder), s@).0,
                lax_state::<N_CC, Acc, char>(item_decoder::<char, Dec>(self.decoder), s@).1,
            ),
    {
        let chars = chars_of(s);
        self.lax_from_iter(chars.as_slice()).verify()
    }

    /// Verifies whether the check characters in the slice of characters are valid.
    ///
    /// # Errors
    ///
    /// Returns a [`VerifyError`] if any character is not in the character set, or if a
    /// supplementary check character (e.g., `X` or `*`) is found before the end.
    pub fn verify_from_chars(&self, chars: &[char]) -> (r: Result<bool, VerifyError<char>>)
        requires
            Acc::params_ok(),
        ensures
            verifies::<N_CC, Acc, char>(item_decoder::<char, Dec>(self.decoder), chars@, r),
    {
        self.verify_from_iter(chars)
    }
}


impl<const N_CC: usize, Acc: Accumulator<N_CC>, Enc: Encoder, Dec: Decoder> System<
    N_CC,
    Acc,
    Enc,
    Dec,
> {
    /// Whether the parts of the system fit together: the accumulator's parameters are usable,
    /// it computes `N_CC` check character values, the encoder represents each of them by a
    /// character that the decoder turns back into it, and appending them to any processed values
    /// makes these verify.
    pub open spec fn well_formed(&self) -> bool {
        &&& Acc::params_ok()
        &&& self.encodes_checks()
        &&& forall|values: Seq<u32>| (#[trigger] Acc::check_values(values)).len() == N_CC
        &&& forall|values: Seq<u32>, i: int|
            0 <= i < N_CC ==> self.decoder.spec_decode(
                (#[trigger] self.encoder.spec_encode(Acc::check_values(values)[i]))->0,
            ) == Some(seq![Acc::check_values(values)[i]])
        &&& forall|values: Seq<u32>| #[trigger] round_trip::<N_CC, Acc>(values)
    }

    /// An encoder and decoder that are inverse on the values below some bound decode each
    /// character to at most one value, which the encoder turns back into that character.
    pub proof fn lemma_inverse_decodes(&self, size: u32)
        requires
            inverse_on(self.encoder, self.decoder, size),
        ensures
            self.decodes_as_encoded(),
            single_valued(item_decoder::<char, Dec>(self.decoder)),
    {
        assert forall|c: char| #[trigger] item_decoder::<char, Dec>(self.decoder)(c) == self.decoder.spec_decode(c) by {}
    }

    /// A system is well formed when its encoder and decoder are inverse on the values below
    /// `size`, every check character value is below `size`, and appending the check character
    /// values to any processed values makes these verify.
    pub proof fn lemma_well_formed(&self, size: u32)
        requires
            Acc::params_ok(),
            inverse_on(self.encoder, self.decoder, size),
            forall|values: Seq<u32>|
                #![trigger Acc::check_values(values)]
                Acc::check_values(values).len() == N_CC && round_trip::<N_CC, Acc>(values),
            forall|values: Seq<u32>, i: int|
                0 <= i < N_CC ==> #[trigger] Acc::check_values(values)[i] < size,
        ensures
            self.well_formed(),
    {
        assert forall|values: Seq<u32>, i: int| 0 <= i < N_CC implies (#[trigger] self.encoder.spec_encode(
            Acc::check_values(values)[i],
        )) is Some by {
            let v = Acc::check_values(values)[i];
            assert(v < size);
            assert(self.encoder.spec_encode(v) is Some);
        }
        assert forall|values: Seq<u32>, i: int| 0 <= i < N_CC implies self.decoder.spec_decode(
            (#[trigger] self.encoder.spec_encode(Acc::check_values(values)[i]))->0,
        ) == Some(seq![Acc::check_values(values)[i]]) by {
            let v = Acc::check_values(values)[i];
            assert(v < size);
            assert(self.encoder.spec_encode(v) is Some);
        }
        assert forall|values: Seq<u32>| #[trigger] round_trip::<N_CC, Acc>(values) by {
            assert(Acc::check_values(values).len() == N_CC);
        }
    }
}

proof fn lemma_lax_run_append<const N: usize, A: Accumulator<N>, T>(
    decode: spec_fn(T) -> Option<Seq<u32>>,
    state: AccState,
    x: Seq<T>,
    y: Seq<T>,
)
    ensures
        lax_run::<N, A, T>(decode, state, x + y) == lax_run::<N, A, T>(
            decode,
            lax_run::<N, A, T>(decode, state, x),
            y,
        ),
    decreases y.len(),
{
    if y.len() == 0 {
        assert(x + y =~= x);
    } else {
        lemma_lax_run_append::<N, A, T>(decode, state, x, y.drop_last());
        assert((x + y).drop_last() =~= x + y.drop_last());
        assert((x + y).last() == y.last());
    }
}

proof fn lemma_run_single<const N: usize, A: Accumulator<N>>(state: AccState, v: u32)
    ensures
        step_decoded::<N, A>(state, Some(seq![v])) == (
            next_state::<N, A>(state, v),
            A::classify(v),
        ),
{
    let vs = seq![v];
    assert(vs[0] == v);
    assert(vs.drop_first() =~= Seq::<u32>::empty());
    assert(run_values::<N, A>(next_state::<N, A>(state, v), vs.drop_first()) == (
    next_state::<N, A>(state, v),
    AccumulateResult::Processed,
    ));
}

proof fn lemma_lax_run_singles<const N: usize, A: Accumulator<N>, T>(
    decode: spec_fn(T) -> Option<Seq<u32>>,
    state: AccState,
    items: Seq<T>,
    values: Seq<u32>,
)
    requires
        items.len() == values.len(),
        forall|i: int| 0 <= i < items.len() ==> decode(#[trigger] items[i]) == Some(seq![values[i]]),
    ensures
        lax_run::<N, A, T>(decode, state, items) == feed::<N, A>(state, values),
    decreases items.len(),
{
    if items.len() > 0 {
        let n = items.len() - 1;
        lemma_lax_run_singles::<N, A, T>(decode, state, items.drop_last(), values.drop_last());
        assert(decode(items[n]) == Some(seq![values[n]]));
        lemma_run_single::<N, A>(lax_run::<N, A, T>(decode, state, items.drop_last()), values[n]);
    }
}

proof fn lemma_run_no_pending<const N: usize, A: Accumulator<N>>(state: AccState, values: Seq<u32>)
    requires
        state.1 == None::<u32>,
        run_values::<N, A>(state, values).1 == AccumulateResult::Processed,
    ensures
        run_values::<N, A>(state, values).0.1 == None::<u32>,
    decreases values.len(),
{
    if values.len() > 0 {
        lemma_run_no_pending::<N, A>(next_state::<N, A>(state, values[0]), values.drop_first());
    }
}

proof fn lemma_processed_no_pending<const N: usize, A: Accumulator<N>, T>(
    decode: spec_fn(T) -> Option<Seq<u32>>,
    items: Seq<T>,
    k: int,
)
    requires
        0 <= k <= items.len(),
        processed_upto::<N, A, T>(decode, items, k),
    ensures
        lax_state::<N, A, T>(decode, items.take(k)).1 == None::<u32>,
    decreases k,
{
    if k == 0 {
        assert(items.take(0) =~= Seq::<T>::empty());
    } else {
        lemma_processed_no_pending::<N, A, T>(decode, items, k - 1);
        lemma_lax_step::<N, A, T>(decode, items, k - 1);
        assert(result_at::<N, A, T>(decode, items, k - 1) == AccumulateResult::Processed);
        match decode(items[k - 1]) {
            None => {},
            Some(values) => {
                lemma_run_no_pending::<N, A>(
                    lax_state::<N, A, T>(decode, items.take(k - 1)),
                    values,
                );
            },
        }
    }
}

proof fn lemma_feed_pending<const N: usize, A: Accumulator<N>>(
    history: Seq<u32>,
    pending: Option<u32>,
    values: Seq<u32>,
)
    requires
        values.len() > 0,
        A::classify(values[0]) != AccumulateResult::NotInCharset,
    ensures
        feed::<N, A>((history, pending), values) == feed::<N, A>((history, None), values),
    decreases values.len(),
{
    if values.len() == 1 {
        assert(values.drop_last() =~= Seq::<u32>::empty());
        assert(values.last() == values[0]);
        assert(feed::<N, A>((history, pending), values.drop_last()) == (history, pending));
        assert(feed::<N, A>((history, None), values.drop_last()) == (history, None::<u32>));
    } else {
        assert(values.drop_last()[0] == values[0]);
        lemma_feed_pending::<N, A>(history, pending, values.drop_last());
    }
}

/// Whether each item decodes to at most one value.
pub open spec fn single_valued<T>(decode: spec_fn(T) -> Option<Seq<u32>>) -> bool {
    forall|t: T|
        #![trigger decode(t)]
        match decode(t) {
            Some(vs) => vs.len() == 1,
            None => true,
        }
}

/// Whether the item decodes to a value that the accumulator processes.
pub open spec fn processes_item<const N: usize, A: Accumulator<N>, T>(
    decode: spec_fn(T) -> Option<Seq<u32>>,
    t: T,
) -> bool {
    match decode(t) {
        Some(vs) => A::classify(vs[0]) == AccumulateResult::Processed,
        None => false,
    }
}

/// Whether the item decodes to a value that the accumulator accepts, as a character value or as
/// a supplementary one.
pub open spec fn accepts_item<const N: usize, A: Accumulator<N>, T>(
    decode: spec_fn(T) -> Option<Seq<u32>>,
    t: T,
) -> bool {
    match decode(t) {
        Some(vs) => A::classify(vs[0]) != AccumulateResult::NotInCharset,
        None => false,
    }
}

/// The items that decode to a value that the accumulator processes, in order.
pub open spec fn processed_items<const N: usize, A: Accumulator<N>, T>(
    decode: spec_fn(T) -> Option<Seq<u32>>,
    items: Seq<T>,
) -> Seq<T> {
    items.filter(|t: T| processes_item::<N, A, T>(decode, t))
}

/// The items that decode to a value that the accumulator accepts, in order.
pub open spec fn accepted_items<const N: usize, A: Accumulator<N>, T>(
    decode: spec_fn(T) -> Option<Seq<u32>>,
    items: Seq<T>,
) -> Seq<T> {
    items.filter(|t: T| accepts_item::<N, A, T>(decode, t))
}

/// Whether the last accepted item is a supplementary check character.
pub open spec fn ends_with_suppl<const N: usize, A: Accumulator<N>, T>(
    decode: spec_fn(T) -> Option<Seq<u32>>,
    items: Seq<T>,
) -> bool {
    let accepted = accepted_items::<N, A, T>(decode, items);
    accepted.len() > 0 && !processes_item::<N, A, T>(decode, accepted.last())
}

/// The items that lax verification takes into account: the processed ones, followed by the
/// last accepted item when it is a supplementary check character.
pub open spec fn lax_verified_items<const N: usize, A: Accumulator<N>, T>(
    decode: spec_fn(T) -> Option<Seq<u32>>,
    items: Seq<T>,
) -> Seq<T> {
    let kept = processed_items::<N, A, T>(decode, items);
    if ends_with_suppl::<N, A, T>(decode, items) {
        kept.push(accepted_items::<N, A, T>(decode, items).last())
    } else {
        kept
    }
}

/// The supplementary value that lax accumulation holds back after the items: that of the last
/// accepted item, when it is a supplementary check character.
pub open spec fn lax_pending<const N: usize, A: Accumulator<N>, T>(
    decode: spec_fn(T) -> Option<Seq<u32>>,
    items: Seq<T>,
) -> Option<u32> {
    if ends_with_suppl::<N, A, T>(decode, items) {
        Some(decode(accepted_items::<N, A, T>(decode, items).last())->0[0])
    } else {
        None
    }
}

proof fn lemma_push_results<const N: usize, A: Accumulator<N>, T>(
    decode: spec_fn(T) -> Option<Seq<u32>>,
    s: Seq<T>,
    t: T,
)
    ensures
        forall|j: int|
            0 <= j < s.len() ==> #[trigger] result_at::<N, A, T>(decode, s.push(t), j) == result_at::<
                N,
                A,
                T,
            >(decode, s, j),
        result_at::<N, A, T>(decode, s.push(t), s.len() as int) == step_decoded::<N, A>(
            lax_state::<N, A, T>(decode, s),
            decode(t),
        ).1,
        lax_state::<N, A, T>(decode, s.push(t)) == step_decoded::<N, A>(
            lax_state::<N, A, T>(decode, s),
            decode(t),
        ).0,
{
    assert(s.push(t).drop_last() =~= s);
    assert(s.push(t).take(s.len() as int) =~= s);
    assert forall|j: int| 0 <= j < s.len() implies #[trigger] result_at::<N, A, T>(
        decode,
        s.push(t),
        j,
    ) == result_at::<N, A, T>(decode, s, j) by {
        assert(s.push(t).take(j) =~= s.take(j));
        assert(s.push(t)[j] == s[j]);
    }
}

proof fn lemma_lax_filtered<const N: usize, A: Accumulator<N>, T>(
    decode: spec_fn(T) -> Option<Seq<u32>>,
    items: Seq<T>,
)
    requires
        single_valued(decode),
    ensures
        lax_state::<N, A, T>(decode, processed_items::<N, A, T>(decode, items)) == (
            lax_state::<N, A, T>(decode, items).0,
            None::<u32>,
        ),
        processed_upto::<N, A, T>(
            decode,
            processed_items::<N, A, T>(decode, items),
            processed_items::<N, A, T>(decode, items).len() as int,
        ),
        lax_state::<N, A, T>(decode, items).1 == lax_pending::<N, A, T>(decode, items),
    decreases items.len(),
{
    reveal(Seq::filter);
    let kept = processed_items::<N, A, T>(decode, items);
    if items.len() == 0 {
        assert(kept =~= Seq::<T>::empty());
        assert(accepted_items::<N, A, T>(decode, items) =~= Seq::<T>::empty());
    } else {
        let p = items.drop_last();
        let t = items.last();
        lemma_lax_filtered::<N, A, T>(decode, p);
        let kept_p = processed_items::<N, A, T>(decode, p);
        let st = lax_state::<N, A, T>(decode, p);
        assert(lax_state::<N, A, T>(decode, items) == step_decoded::<N, A>(st, decode(t)).0);
        match decode(t) {
            None => {
                assert(!processes_item::<N, A, T>(decode, t));
                assert(!accepts_item::<N, A, T>(decode, t));
                assert(kept == kept_p);
                assert(accepted_items::<N, A, T>(decode, items) == accepted_items::<N, A, T>(
                    decode,
                    p,
                ));
            },
            Some(vs) => {
                assert(vs.len() == 1);
                let v = vs[0];
                assert(vs =~= seq![v]);
                lemma_run_single::<N, A>(st, v);
                lemma_run_single::<N, A>((st.0, None), v);
                if A::classify(v) == AccumulateResult::Processed {
                    assert(kept == kept_p.push(t));
                    assert(accepted_items::<N, A, T>(decode, items) == accepted_items::<N, A, T>(
                        decode,
                        p,
                    ).push(t));
                    lemma_push_results::<N, A, T>(decode, kept_p, t);
                    assert forall|j: int| 0 <= j < kept.len() implies #[trigger] result_at::<
                        N,
                        A,
                        T,
                    >(decode, kept, j) == AccumulateResult::Processed by {
                        if j < kept_p.len() {
                            assert(result_at::<N, A, T>(decode, kept_p, j)
                                == AccumulateResult::Processed);
                        }
                    }
                } else if A::classify(v) == AccumulateResult::SupplFound {
                    assert(kept == kept_p);
                    assert(accepted_items::<N, A, T>(decode, items) == accepted_items::<N, A, T>(
                        decode,
                        p,
                    ).push(t));
                } else {
                    assert(kept == kept_p);
                    assert(accepted_items::<N, A, T>(decode, items) == accepted_items::<N, A, T>(
                        decode,
                        p,
                    ));
                }
            },
        }
    }
}

impl<const N_CC: usize, Acc: Accumulator<N_CC>, Enc: Encoder, Dec: Decoder> System<
    N_CC,
    Acc,
    Enc,
    Dec,
> {
    proof fn lemma_check_chars_decode(&self, chars: Seq<char>)
        requires
            self.well_formed(),
        ensures
            self.check_chars(chars).len() == N_CC,
            forall|i: int|
                0 <= i < N_CC ==> item_decoder::<char, Dec>(self.decoder)(
                    #[trigger] self.check_chars(chars)[i],
                ) == Some(
                    seq![Acc::check_values(lax_state::<N_CC, Acc, char>(item_decoder::<char, Dec>(self.decoder), chars).0)[i]],
                ),
    {
        let h = lax_state::<N_CC, Acc, char>(item_decoder::<char, Dec>(self.decoder), chars).0;
        assert(Acc::check_values(h).len() == N_CC);
        assert forall|i: int| 0 <= i < N_CC implies item_decoder::<char, Dec>(self.decoder)(
            #[trigger] self.check_chars(chars)[i],
        ) == Some(seq![Acc::check_values(h)[i]]) by {
            assert(self.check_chars(chars)[i] == self.encoder.spec_encode(Acc::check_values(h)[i])->0);
        }
    }

    /// Appending the check characters that strict computation gives for `chars` yields
    /// characters that strict verification accepts and verifies.
    pub proof fn protect_then_verify(&self, chars: Seq<char>)
        requires
            self.well_formed(),
            processed_upto::<N_CC, Acc, char>(
                item_decoder::<char, Dec>(self.decoder),
                chars,
                chars.len() as int,
            ),
        ensures
            verifies::<N_CC, Acc, char>(
                item_decoder::<char, Dec>(self.decoder),
                chars + self.check_chars(chars),
                Ok(true),
            ),
    {
        let decode = item_decoder::<char, Dec>(self.decoder);
        let a = chars;
        let st = lax_state::<N_CC, Acc, char>(decode, a);
        let h = st.0;
        let vs = Acc::check_values(h);
        let cc = self.check_chars(a);
        let items = a + cc;
        let n = a.len();
        self.lemma_check_chars_decode(a);
        assert(a.take(n as int) =~= a);
        lemma_processed_no_pending::<N_CC, Acc, char>(decode, a, n as int);
        assert(st == (h, None::<u32>));
        assert(round_trip::<N_CC, Acc>(h));
        assert forall|j: int| 0 <= j <= N_CC implies #[trigger] lax_state::<N_CC, Acc, char>(
            decode,
            items.take(n + j),
        ) == feed::<N_CC, Acc>((h, None), vs.take(j)) by {
            assert(items.take(n + j) =~= a + cc.take(j));
            lemma_lax_run_append::<N_CC, Acc, char>(decode, (Seq::empty(), None), a, cc.take(j));
            lemma_lax_run_singles::<N_CC, Acc, char>(decode, st, cc.take(j), vs.take(j));
        }
        assert forall|i: int| 0 <= i < n implies #[trigger] result_at::<N_CC, Acc, char>(
            decode,
            items,
            i,
        ) == result_at::<N_CC, Acc, char>(decode, a, i) by {
            assert(items.take(i) =~= a.take(i));
            assert(items[i] == a[i]);
        }
        assert forall|j: int| 0 <= j < N_CC implies #[trigger] result_at::<N_CC, Acc, char>(
            decode,
            items,
            n + j,
        ) == Acc::classify(vs[j]) by {
            assert(items[n + j] == cc[j]);
            assert(lax_state::<N_CC, Acc, char>(decode, items.take(n + j)) == feed::<N_CC, Acc>(
                (h, None),
                vs.take(j),
            ));
            lemma_run_single::<N_CC, Acc>(feed::<N_CC, Acc>((h, None), vs.take(j)), vs[j]);
        }
        assert(items.take(n + N_CC) =~= items);
        assert(vs.take(N_CC as int) =~= vs);
        assert(lax_state::<N_CC, Acc, char>(decode, items) == feed::<N_CC, Acc>((h, None), vs));
        assert(processed_upto::<N_CC, Acc, char>(decode, items, n + N_CC - 1)) by {
            assert forall|i: int| 0 <= i < n + N_CC - 1 implies #[trigger] result_at::<
                N_CC,
                Acc,
                char,
            >(decode, items, i) == AccumulateResult::Processed by {
                if i < n {
                    assert(result_at::<N_CC, Acc, char>(decode, a, i)
                        == AccumulateResult::Processed);
                } else {
                    assert(result_at::<N_CC, Acc, char>(decode, items, n + (i - n)) == Acc::classify(
                        vs[i - n],
                    ));
                }
            }
        }
        assert(result_at::<N_CC, Acc, char>(decode, items, n + (N_CC - 1)) == Acc::classify(
            vs[N_CC - 1],
        ));
    }

    /// Lax computation and verification ignore what strict ones reject, for a decoder that
    /// decodes each character to at most one value. Strict computation succeeds on the
    /// processed characters alone and gives the check characters that lax computation gives for
    /// all of them. Strict verification succeeds on the processed characters, followed by the
    /// last accepted one when it is a supplementary check character, and gives what lax
    /// verification gives for all of them.
    pub proof fn strict_agrees_with_lax(
        &self,
        chars: Seq<char>,
        computed: Result<[char; N_CC], ComputeError<char>>,
        verified: Result<bool, VerifyError<char>>,
    )
        requires
            single_valued(item_decoder::<char, Dec>(self.decoder)),
            self.computes_chars(
                processed_items::<N_CC, Acc, char>(item_decoder::<char, Dec>(self.decoder), chars),
                computed,
            ),
            verifies::<N_CC, Acc, char>(
                item_decoder::<char, Dec>(self.decoder),
                lax_verified_items::<N_CC, Acc, char>(item_decoder::<char, Dec>(self.decoder), chars),
                verified,
            ),
        ensures
            computed is Ok,
            computed matches Ok(cc) ==> cc@ == self.check_chars(chars),
            verified == Ok::<bool, VerifyError<char>>(
                Acc::is_valid(
                    lax_state::<N_CC, Acc, char>(item_decoder::<char, Dec>(self.decoder), chars).0,
                    lax_state::<N_CC, Acc, char>(item_decoder::<char, Dec>(self.decoder), chars).1,
                ),
            ),
    {
        let decode = item_decoder::<char, Dec>(self.decoder);
        let kept = processed_items::<N_CC, Acc, char>(decode, chars);
        let st = lax_state::<N_CC, Acc, char>(decode, chars);
        lemma_lax_filtered::<N_CC, Acc, char>(decode, chars);
        if let Err(e) = computed {
            assert(result_at::<N_CC, Acc, char>(decode, kept, e.pos as int)
                == AccumulateResult::Processed);
        }
        let t2 = lax_verified_items::<N_CC, Acc, char>(decode, chars);
        if ends_with_suppl::<N_CC, Acc, char>(decode, chars) {
            let accepted = accepted_items::<N_CC, Acc, char>(decode, chars);
            let a = accepted.last();
            chars.lemma_filter_pred(
                |t: char| accepts_item::<N_CC, Acc, char>(decode, t),
                accepted.len() - 1,
            );
            assert(accepts_item::<N_CC, Acc, char>(decode, a));
            let vs = decode(a)->0;
            assert(decode(a) == Some(vs));
            assert(vs.len() == 1);
            let v = vs[0];
            assert(vs =~= seq![v]);
            lemma_run_single::<N_CC, Acc>((st.0, None), v);
            lemma_push_results::<N_CC, Acc, char>(decode, kept, a);
            assert(lax_state::<N_CC, Acc, char>(decode, t2) == st);
            assert(processed_upto::<N_CC, Acc, char>(decode, t2, t2.len() - 1));
            assert(result_at::<N_CC, Acc, char>(decode, t2, t2.len() - 1)
                == AccumulateResult::SupplFound);
            if let Err(e) = verified {
                if e.pos + 1 < t2.len() {
                    assert(result_at::<N_CC, Acc, char>(decode, t2, e.pos as int)
                        == AccumulateResult::Processed);
                }
            }
        } else {
            assert(lax_state::<N_CC, Acc, char>(decode, t2) == st);
            if let Err(e) = verified {
                assert(result_at::<N_CC, Acc, char>(decode, t2, e.pos as int)
                    == AccumulateResult::Processed);
            }
        }
    }

    /// Whether every character that the decoder accepts decodes to a single value that the
    /// encoder turns back into that character.
    pub open spec fn decodes_as_encoded(&self) -> bool {
        forall|c: char|
            #![trigger self.decoder.spec_decode(c)]
            match self.decoder.spec_decode(c) {
                Some(vs) => vs.len() == 1 && self.encoder.spec_encode(vs[0]) == Some(c),
                None => true,
            }
    }

    /// With a single check character, the computed check character is the only character that
    /// makes the processed characters verify when it is appended to them.
    pub proof fn check_char_is_unique(&self, chars: Seq<char>, c: char)
        requires
            N_CC == 1,
            self.well_formed(),
            self.decodes_as_encoded(),
            accumulator::single_check_unique::<N_CC, Acc>(),
            processed_upto::<N_CC, Acc, char>(
                item_decoder::<char, Dec>(self.decoder),
                chars,
                chars.len() as int,
            ),
            verifies::<N_CC, Acc, char>(
                item_decoder::<char, Dec>(self.decoder),
                chars.push(c),
                Ok(true),
            ),
        ensures
            seq![c] == self.check_chars(chars),
    {
        let decode = item_decoder::<char, Dec>(self.decoder);
        let n = chars.len() as int;
        let all = chars.push(c);
        let st = lax_state::<N_CC, Acc, char>(decode, chars);
        let h = st.0;
        assert(chars.take(n) =~= chars);
        lemma_processed_no_pending::<N_CC, Acc, char>(decode, chars, n);
        assert(st == (h, None::<u32>));
        lemma_push_results::<N_CC, Acc, char>(decode, chars, c);
        assert(all.len() == n + 1);
        let r = result_at::<N_CC, Acc, char>(decode, all, n);
        assert(r != AccumulateResult::NotInCharset);
        assert(self.decoder.spec_decode(c) is Some);
        let vs = self.decoder.spec_decode(c)->0;
        assert(vs.len() == 1);
        let v = vs[0];
        assert(vs =~= seq![v]);
        lemma_run_single::<N_CC, Acc>(st, v);
        assert(Acc::classify(v) != AccumulateResult::NotInCharset);
        assert(lax_state::<N_CC, Acc, char>(decode, all) == next_state::<N_CC, Acc>((h, None), v));
        assert(seq![v] == Acc::check_values(h));
        assert(self.encoder.spec_encode(v) == Some(c));
        assert(self.check_chars(chars) =~= seq![c]);
    }

    /// Appending the check characters that lax computation gives for `chars` yields characters
    /// that lax verification accepts.
    pub proof fn protect_lax_then_verify_lax(&self, chars: Seq<char>)
        requires
            self.well_formed(),
        ensures
            ({
                let st = lax_state::<N_CC, Acc, char>(
                    item_decoder::<char, Dec>(self.decoder),
                    chars + self.check_chars(chars),
                );
                Acc::is_valid(st.0, st.1)
            }),
    {
        let decode = item_decoder::<char, Dec>(self.decoder);
        let st = lax_state::<N_CC, Acc, char>(decode, chars);
        let h = st.0;
        let vs = Acc::check_values(h);
        let cc = self.check_chars(chars);
        self.lemma_check_chars_decode(chars);
        assert(round_trip::<N_CC, Acc>(h));
        lemma_lax_run_append::<N_CC, Acc, char>(decode, (Seq::empty(), None), chars, cc);
        lemma_lax_run_singles::<N_CC, Acc, char>(decode, st, cc, vs);
        assert(Acc::classify(vs[0]) != AccumulateResult::NotInCharset);
        lemma_feed_pending::<N_CC, Acc>(h, st.1, vs);
    }
}

/// Lax computation and verification ignore a character that is not in the character set.
pub proof fn lax_ignores_invalid<const N: usize, A: Accumulator<N>, T>(
    decode: spec_fn(T) -> Option<Seq<u32>>,
    before: Seq<T>,
    item: T,
    after: Seq<T>,
)
    requires
        decode(item) == None::<Seq<u32>>,
    ensures
        lax_state::<N, A, T>(decode, before.push(item) + after) == lax_state::<N, A, T>(
            decode,
            before + after,
        ),
{
    let init: AccState = (Seq::empty(), None);
    lemma_lax_run_append::<N, A, T>(decode, init, before.push(item), after);
    lemma_lax_run_append::<N, A, T>(decode, init, before, after);
    assert(before.push(item).drop_last() =~= before);
}


/// The ISO/IEC 7064, MOD 11-2 pure system with a single check character.
///
/// It dereferences to the [`System`] that provides the methods.
#[derive(Debug, Default, Clone, Copy)]
pub struct Mod11_2;

impl core::ops::Deref for Mod11_2 {
    type Target = System<1, accumulator::Mod11_2, NumericX, NumericX>;

    fn deref(&self) -> (r: &System<1, accumulator::Mod11_2, NumericX, NumericX>)
        ensures
            *r == (System::<1, accumulator::Mod11_2, NumericX, NumericX> { accumulator: PhantomData, encoder: NumericX, decoder: NumericX }),
    {
        &System { accumulator: PhantomData, encoder: NumericX, decoder: NumericX }
    }
}

/// The ISO/IEC 7064, MOD 37-2 pure system with a single check character.
///
/// It dereferences to the [`System`] that provides the methods.
#[derive(Debug, Default, Clone, Copy)]
pub struct Mod37_2;

impl core::ops::Deref for Mod37_2 {
    type Target = System<1, accumulator::Mod37_2, AlphanumericAst, AlphanumericAst>;

    fn deref(&self) -> (r: &System<1, accumulator::Mod37_2, AlphanumericAst, AlphanumericAst>)
        ensures
            *r == (System::<1, accumulator::Mod37_2, AlphanumericAst, AlphanumericAst> { accumulator: PhantomData, encoder: AlphanumericAst, decoder: AlphanumericAst }),
    {
        &System { accumulator: PhantomData, encoder: AlphanumericAst, decoder: AlphanumericAst }
    }
}

/// The ISO/IEC 7064, MOD 97-10 pure system with two check characters.
///
/// It dereferences to the [`System`] that provides the methods.
#[derive(Debug, Default, Clone, Copy)]
pub struct Mod97_10;

impl core::ops::Deref for Mod97_10 {
    type Target = System<2, accumulator::Mod97_10, Numeric, Numeric>;

    fn deref(&self) -> (r: &System<2, accumulator::Mod97_10, Numeric, Numeric>)
        ensures
            *r == (System::<2, accumulator::Mod97_10, Numeric, Numeric> { accumulator: PhantomData, encoder: Numeric, decoder: Numeric }),
    {
        &System { accumulator: PhantomData, encoder: Numeric, decoder: Numeric }
    }
}

/// The ISO/IEC 7064, MOD 661-26 pure system with two check characters.
///
/// It dereferences to the [`System`] that provides the methods.
#[derive(Debug, Default, Clone, Copy)]
pub struct Mod661_26;

impl core::ops::Deref for Mod661_26 {
    type Target = System<2, accumulator::Mod661_26, Alphabetic, Alphabetic>;

    fn deref(&self) -> (r: &System<2, accumulator::Mod661_26, Alphabetic, Alphabetic>)
        ensures
            *r == (System::<2, accumulator::Mod661_26, Alphabetic, Alphabetic> { accumulator: PhantomData, encoder: Alphabetic, decoder: Alphabetic }),
    {
        &System { accumulator: PhantomData, encoder: Alphabetic, decoder: Alphabetic }
    }
}

/// The ISO/IEC 7064, MOD 1271-36 pure system with two check characters.
///
/// It dereferences to the [`System`] that provides the methods.
#[derive(Debug, Default, Clone, Copy)]
pub struct Mod1271_36;

impl core::ops::Deref for Mod1271_36 {
    type Target = System<2, accumulator::Mod1271_36, Alphanumeric, Alphanumeric>;

    fn deref(&self) -> (r: &System<2, accumulator::Mod1271_36, Alphanumeric, Alphanumeric>)
        ensures
            *r == (System::<2, accumulator::Mod1271_36, Alphanumeric, Alphanumeric> { accumulator: PhantomData, encoder: Alphanumeric, decoder: Alphanumeric }),
    {
        &System { accumulator: PhantomData, encoder: Alphanumeric, decoder: Alphanumeric }
    }
}

/// The ISO/IEC 7064, MOD 11,10 hybrid system.
///
/// It dereferences to the [`System`] that provides the methods.
#[derive(Debug, Default, Clone, Copy)]
pub struct Mod11_10;

impl core::ops::Deref for Mod11_10 {
    type Target = System<1, accumulator::Mod11_10, Numeric, Numeric>;

    fn deref(&self) -> (r: &System<1, accumulator::Mod11_10, Numeric, Numeric>)
        ensures
            *r == (System::<1, accumulator::Mod11_10, Numeric, Numeric> { accumulator: PhantomData, encoder: Numeric, decoder: Numeric }),
    {
        &System { accumulator: PhantomData, encoder: Numeric, decoder: Numeric }
    }
}

/// The ISO/IEC 7064, MOD 27,26 hybrid system.
///
/// It dereferences to the [`System`] that provides the methods.
#[derive(Debug, Default, Clone, Copy)]
pub struct Mod27_26;

impl core::ops::Deref for Mod27_26 {
    type Target = System<1, accumulator::Mod27_26, Alphabetic, Alphabetic>;

    fn deref(&self) -> (r: &System<1, accumulator::Mod27_26, Alphabetic, Alphabetic>)
        ensures
            *r == (System::<1, accumulator::Mod27_26, Alphabetic, Alphabetic> { accumulator: PhantomData, encoder: Alphabetic, decoder: Alphabetic }),
    {
        &System { accumulator: PhantomData, encoder: Alphabetic, decoder: Alphabetic }
    }
}

/// The ISO/IEC 7064, MOD 37,36 hybrid system.
///
/// It dereferences to the [`System`] that provides the methods.
#[derive(Debug, Default, Clone, Copy)]
pub struct Mod37_36;

impl core::ops::Deref for Mod37_36 {
    type Target = System<1, accumulator::Mod37_36, Alphanumeric, Alphanumeric>;

    fn deref(&self) -> (r: &System<1, accumulator::Mod37_36, Alphanumeric, Alphanumeric>)
        ensures
            *r == (System::<1, accumulator::Mod37_36, Alphanumeric, Alphanumeric> { accumulator: PhantomData, encoder: Alphanumeric, decoder: Alphanumeric }),
    {
        &System { accumulator: PhantomData, encoder: Alphanumeric, decoder: Alphanumeric }
    }
}

proof fn pure_single_system_well_formed<
    const MODULUS: u32,
    const RADIX: u32,
    const CHARSET_SIZE: u32,
    Enc: Encoder,
    Dec: Decoder,
>(sys: System<1, accumulator::PureSingle<MODULUS, RADIX, CHARSET_SIZE>, Enc, Dec>, size: u32)
    requires
        accumulator::PureSingle::<MODULUS, RADIX, CHARSET_SIZE>::params_ok(),
        inverse_on(sys.encoder, sys.decoder, size),
        MODULUS <= size,
    ensures
        sys.well_formed(),
{
    assert forall|values: Seq<u32>|
        #![trigger accumulator::PureSingle::<MODULUS, RADIX, CHARSET_SIZE>::check_values(values)]
        accumulator::PureSingle::<MODULUS, RADIX, CHARSET_SIZE>::check_values(values).len() == 1
            && round_trip::<1, accumulator::PureSingle<MODULUS, RADIX, CHARSET_SIZE>>(values) by {
        accumulator::pure_single_round_trip::<MODULUS, RADIX, CHARSET_SIZE>(values);
    }
    assert forall|values: Seq<u32>, i: int| 0 <= i < 1 implies #[trigger] accumulator::PureSingle::<
        MODULUS,
        RADIX,
        CHARSET_SIZE,
    >::check_values(values)[i] < size by {
        accumulator::pure_single_round_trip::<MODULUS, RADIX, CHARSET_SIZE>(values);
    }
    sys.lemma_well_formed(size);
}

proof fn pure_double_system_well_formed<
    const MODULUS: u32,
    const CHARSET_SIZE: u32,
    Enc: Encoder,
    Dec: Decoder,
>(sys: System<2, accumulator::PureDouble<MODULUS, CHARSET_SIZE>, Enc, Dec>, size: u32)
    requires
        accumulator::PureDouble::<MODULUS, CHARSET_SIZE>::params_ok(),
        MODULUS >= 2,
        MODULUS + 2 <= CHARSET_SIZE as int * CHARSET_SIZE as int,
        inverse_on(sys.encoder, sys.decoder, size),
        CHARSET_SIZE <= size,
    ensures
        sys.well_formed(),
{
    assert forall|values: Seq<u32>|
        #![trigger accumulator::PureDouble::<MODULUS, CHARSET_SIZE>::check_values(values)]
        accumulator::PureDouble::<MODULUS, CHARSET_SIZE>::check_values(values).len() == 2
            && round_trip::<2, accumulator::PureDouble<MODULUS, CHARSET_SIZE>>(values) by {
        accumulator::pure_double_round_trip::<MODULUS, CHARSET_SIZE>(values);
    }
    assert forall|values: Seq<u32>, i: int| 0 <= i < 2 implies #[trigger] accumulator::PureDouble::<
        MODULUS,
        CHARSET_SIZE,
    >::check_values(values)[i] < size by {
        accumulator::pure_double_round_trip::<MODULUS, CHARSET_SIZE>(values);
    }
    sys.lemma_well_formed(size);
}

proof fn hybrid_system_well_formed<const CHARSET_SIZE: u32, Enc: Encoder, Dec: Decoder>(
    sys: System<1, accumulator::Hybrid<CHARSET_SIZE>, Enc, Dec>,
    size: u32,
)
    requires
        accumulator::Hybrid::<CHARSET_SIZE>::params_ok(),
        inverse_on(sys.encoder, sys.decoder, size),
        CHARSET_SIZE <= size,
    ensures
        sys.well_formed(),
{
    assert forall|values: Seq<u32>|
        #![trigger accumulator::Hybrid::<CHARSET_SIZE>::check_values(values)]
        accumulator::Hybrid::<CHARSET_SIZE>::check_values(values).len() == 1 && round_trip::<
            1,
            accumulator::Hybrid<CHARSET_SIZE>,
        >(values) by {
        accumulator::hybrid_round_trip::<CHARSET_SIZE>(values);
    }
    assert forall|values: Seq<u32>, i: int| 0 <= i < 1 implies #[trigger] accumulator::Hybrid::<
        CHARSET_SIZE,
    >::check_values(values)[i] < size by {
        accumulator::hybrid_round_trip::<CHARSET_SIZE>(values);
    }
    sys.lemma_well_formed(size);
}

/// The eight systems of ISO/IEC 7064 are well formed.
pub proof fn standard_systems_well_formed()
    ensures
        (System::<1, accumulator::Mod11_2, NumericX, NumericX> { accumulator: PhantomData, encoder: NumericX, decoder: NumericX }).well_formed(),
        (System::<1, accumulator::Mod37_2, AlphanumericAst, AlphanumericAst> { accumulator: PhantomData, encoder: AlphanumericAst, decoder: AlphanumericAst }).well_formed(),
        (System::<2, accumulator::Mod97_10, Numeric, Numeric> { accumulator: PhantomData, encoder: Numeric, decoder: Numeric }).well_formed(),
        (System::<2, accumulator::Mod661_26, Alphabetic, Alphabetic> { accumulator: PhantomData, encoder: Alphabetic, decoder: Alphabetic }).well_formed(),
        (System::<2, accumulator::Mod1271_36, Alphanumeric, Alphanumeric> { accumulator: PhantomData, encoder: Alphanumeric, decoder: Alphanumeric }).well_formed(),
        (System::<1, accumulator::Mod11_10, Numeric, Numeric> { accumulator: PhantomData, encoder: Numeric, decoder: Numeric }).well_formed(),
        (System::<1, accumulator::Mod27_26, Alphabetic, Alphabetic> { accumulator: PhantomData, encoder: Alphabetic, decoder: Alphabetic }).well_formed(),
        (System::<1, accumulator::Mod37_36, Alphanumeric, Alphanumeric> { accumulator: PhantomData, encoder: Alphanumeric, decoder: Alphanumeric }).well_formed(),
{
    charset::numeric_x_inverse();
    pure_single_system_well_formed(System::<1, accumulator::Mod11_2, NumericX, NumericX> { accumulator: PhantomData, encoder: NumericX, decoder: NumericX }, 11);
    charset::alphanumeric_ast_inverse();
    pure_single_system_well_formed(System::<1, accumulator::Mod37_2, AlphanumericAst, AlphanumericAst> { accumulator: PhantomData, encoder: AlphanumericAst, decoder: AlphanumericAst }, 37);
    charset::numeric_inverse();
    pure_double_system_well_formed(System::<2, accumulator::Mod97_10, Numeric, Numeric> { accumulator: PhantomData, encoder: Numeric, decoder: Numeric }, 10);
    charset::alphabetic_inverse();
    pure_double_system_well_formed(System::<2, accumulator::Mod661_26, Alphabetic, Alphabetic> { accumulator: PhantomData, encoder: Alphabetic, decoder: Alphabetic }, 26);
    charset::alphanumeric_inverse();
    pure_double_system_well_formed(System::<2, accumulator::Mod1271_36, Alphanumeric, Alphanumeric> { accumulator: PhantomData, encoder: Alphanumeric, decoder: Alphanumeric }, 36);
    charset::numeric_inverse();
    hybrid_system_well_formed(System::<1, accumulator::Mod11_10, Numeric, Numeric> { accumulator: PhantomData, encoder: Numeric, decoder: Numeric }, 10);
    charset::alphabetic_inverse();
    hybrid_system_well_formed(System::<1, accumulator::Mod27_26, Alphabetic, Alphabetic> { accumulator: PhantomData, encoder: Alphabetic, decoder: Alphabetic }, 26);
    charset::alphanumeric_inverse();
    hybrid_system_well_formed(System::<1, accumulator::Mod37_36, Alphanumeric, Alphanumeric> { accumulator: PhantomData, encoder: Alphanumeric, decoder: Alphanumeric }, 36);
}

/// The systems of ISO/IEC 7064 decode each character to at most one value, which encodes back to
/// it, and those with a single check character accept a single character after any processed
/// characters.
pub proof fn standard_systems_decode_uniquely()
    ensures
        (System::<1, accumulator::Mod11_2, NumericX, NumericX> { accumulator: PhantomData, encoder: NumericX, decoder: NumericX }).decodes_as_encoded(),
        (System::<1, accumulator::Mod37_2, AlphanumericAst, AlphanumericAst> { accumulator: PhantomData, encoder: AlphanumericAst, decoder: AlphanumericAst }).decodes_as_encoded(),
        (System::<2, accumulator::Mod97_10, Numeric, Numeric> { accumulator: PhantomData, encoder: Numeric, decoder: Numeric }).decodes_as_encoded(),
        (System::<2, accumulator::Mod661_26, Alphabetic, Alphabetic> { accumulator: PhantomData, encoder: Alphabetic, decoder: Alphabetic }).decodes_as_encoded(),
        (System::<2, accumulator::Mod1271_36, Alphanumeric, Alphanumeric> { accumulator: PhantomData, encoder: Alphanumeric, decoder: Alphanumeric }).decodes_as_encoded(),
        (System::<1, accumulator::Mod11_10, Numeric, Numeric> { accumulator: PhantomData, encoder: Numeric, decoder: Numeric }).decodes_as_encoded(),
        (System::<1, accumulator::Mod27_26, Alphabetic, Alphabetic> { accumulator: PhantomData, encoder: Alphabetic, decoder: Alphabetic }).decodes_as_encoded(),
        (System::<1, accumulator::Mod37_36, Alphanumeric, Alphanumeric> { accumulator: PhantomData, encoder: Alphanumeric, decoder: Alphanumeric }).decodes_as_encoded(),
        single_valued(item_decoder::<char, NumericX>(NumericX)),
        single_valued(item_decoder::<char, AlphanumericAst>(AlphanumericAst)),
        single_valued(item_decoder::<char, Numeric>(Numeric)),
        single_valued(item_decoder::<char, Alphabetic>(Alphabetic)),
        single_valued(item_decoder::<char, Alphanumeric>(Alphanumeric)),
        accumulator::single_check_unique::<1, accumulator::Mod11_2>(),
        accumulator::single_check_unique::<1, accumulator::Mod37_2>(),
        accumulator::single_check_unique::<1, accumulator::Mod11_10>(),
        accumulator::single_check_unique::<1, accumulator::Mod27_26>(),
        accumulator::single_check_unique::<1, accumulator::Mod37_36>(),
{
    charset::numeric_x_inverse();
    (System::<1, accumulator::Mod11_2, NumericX, NumericX> { accumulator: PhantomData, encoder: NumericX, decoder: NumericX }).lemma_inverse_decodes(11);
    charset::alphanumeric_ast_inverse();
    (System::<1, accumulator::Mod37_2, AlphanumericAst, AlphanumericAst> { accumulator: PhantomData, encoder: AlphanumericAst, decoder: AlphanumericAst }).lemma_inverse_decodes(37);
    charset::numeric_inverse();
    (System::<2, accumulator::Mod97_10, Numeric, Numeric> { accumulator: PhantomData, encoder: Numeric, decoder: Numeric }).lemma_inverse_decodes(10);
    charset::alphabetic_inverse();
    (System::<2, accumulator::Mod661_26, Alphabetic, Alphabetic> { accumulator: PhantomData, encoder: Alphabetic, decoder: Alphabetic }).lemma_inverse_decodes(26);
    charset::alphanumeric_inverse();
    (System::<2, accumulator::Mod1271_36, Alphanumeric, Alphanumeric> { accumulator: PhantomData, encoder: Alphanumeric, decoder: Alphanumeric }).lemma_inverse_decodes(36);
    (System::<1, accumulator::Mod11_10, Numeric, Numeric> { accumulator: PhantomData, encoder: Numeric, decoder: Numeric }).lemma_inverse_decodes(10);
    (System::<1, accumulator::Mod27_26, Alphabetic, Alphabetic> { accumulator: PhantomData, encoder: Alphabetic, decoder: Alphabetic }).lemma_inverse_decodes(26);
    (System::<1, accumulator::Mod37_36, Alphanumeric, Alphanumeric> { accumulator: PhantomData, encoder: Alphanumeric, decoder: Alphanumeric }).lemma_inverse_decodes(36);
    accumulator::pure_single_check_unique::<11, 2, 10>();
    accumulator::pure_single_check_unique::<37, 2, 36>();
    accumulator::hybrid_check_unique::<10>();
    accumulator::hybrid_check_unique::<26>();
    accumulator::hybrid_check_unique::<36>();
}

} // verus!
