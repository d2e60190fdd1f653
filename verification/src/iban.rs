//! The [`Iban`] structure for the IBAN variant of MOD 97-10.
//!
//! The International Bank Account Number (IBAN) is one of the most famous adopters of ISO/IEC 7064,
//! whereas it employs MOD 97-10 in a distinctive configuration: the check digits are placed within
//! the string rather than appended at its end, the alphanumeric input is converted to a numeric
//! stream prior to validation, and some check digit pairs otherwise permitted under ISO/IEC 7064
//! are rejected as invalid under this variant. The [`Iban`] structure provides support for
//! computing and verifying this variant.

use vstd::prelude::*;
use vstd::arithmetic::div_mod::*;

use crate::accumulator::{Accumulator, Mod97_10, feed, pure_double_round_trip, pure_value};
use crate::charset::{
    Encoder, Numeric, ascii_upper, base36_case_insensitive, base36_value, char_of, decimal_digits,
    in_range, to_digit36, upper_chars,
};
use crate::system::chars_of;

verus! {

/// The IBAN variant of MOD 97-10.
pub const IBAN: Iban = Iban;

/// The check character system interface for the IBAN variant of MOD 97-10.
#[derive(Debug, Default)]
#[non_exhaustive]
pub struct Iban;

/// The specific kind of an IBAN error.
#[derive(Debug, Clone, Copy, PartialEq, Eq, Structural)]
pub enum IbanErrorKind {
    /// The string is longer than 34 characters.
    TooLong,
    /// The string is too short to hold a country code and check digits.
    TooShort,
    /// The country code is not two letters.
    MalformedCountry,
    /// A character that is neither a digit nor a letter was found.
    NonAlphanumeric(char),
}

/// An error returned when IBAN check digit computation or verification fails.
#[derive(Debug)]
pub struct IbanError {
    /// What went wrong.
    pub kind: IbanErrorKind,
}

/// The numeric form of alphanumeric characters: each letter is replaced by the two digits of
/// its base 36 value.
pub open spec fn numeric_form(chars: Seq<char>) -> Seq<u32>
    decreases chars.len(),
{
    if chars.len() == 0 {
        Seq::empty()
    } else {
        numeric_form(chars.drop_last()) + decimal_digits(base36_value(chars.last())->0)
    }
}

/// Whether every character is a digit or a letter.
pub open spec fn all_alphanumeric(chars: Seq<char>) -> bool {
    forall|i: int| 0 <= i < chars.len() ==> (#[trigger] base36_value(chars[i])) is Some
}

/// Whether every character is a letter.
pub open spec fn all_letters(chars: Seq<char>) -> bool {
    forall|i: int|
        0 <= i < chars.len() ==> (#[trigger] base36_value(chars[i])) is Some && base36_value(
            chars[i],
        )->0 >= 10
}

/// The IBAN check digits for a country code and a basic bank account number (BBAN):
/// `98 - (N * 100) % 97`, where `N` is the number whose digits are the numeric form of the BBAN
/// followed by that of the country code.
pub open spec fn iban_check_digits(country: Seq<char>, bank_account: Seq<char>) -> Seq<char> {
    let n = pure_value(numeric_form(bank_account) + numeric_form(country), 10);
    let v = 98 - (n * 100) % 97;
    seq![char_of('0' as int + v / 10), char_of('0' as int + v % 10)]
}

/// Whether `r` is the outcome of computing the check digits for a two-letter country code
/// position and a BBAN: the first non-alphanumeric character of the BBAN, then a BBAN longer
/// than 30 characters, then the first character of the country code that is not a letter, are
/// reported in that order.
pub open spec fn iban_computes(
    country: Seq<char>,
    bank_account: Seq<char>,
    r: Result<[char; 2], IbanError>,
) -> bool {
    match r {
        Ok(cc) => {
            &&& all_alphanumeric(bank_account)
            &&& bank_account.len() <= 30
            &&& all_letters(country)
            &&& cc@ == iban_check_digits(country, bank_account)
        },
        Err(e) => match e.kind {
            IbanErrorKind::NonAlphanumeric(c) => {
                ||| exists|i: int|
                    0 <= i < bank_account.len() && all_alphanumeric(bank_account.take(i))
                        && base36_value(#[trigger] bank_account[i]) is None && bank_account[i] == c
                ||| all_alphanumeric(bank_account) && bank_account.len() <= 30 && exists|i: int|
                    0 <= i < country.len() && all_letters(country.take(i)) && base36_value(
                        #[trigger] country[i],
                    ) is None && country[i] == c
            },
            IbanErrorKind::TooLong => all_alphanumeric(bank_account) && bank_account.len() > 30,
            IbanErrorKind::MalformedCountry => {
                &&& all_alphanumeric(bank_account)
                &&& bank_account.len() <= 30
                &&& exists|i: int|
                    0 <= i < country.len() && all_letters(country.take(i)) && (#[trigger] base36_value(
                        country[i],
                    )) is Some && base36_value(country[i])->0 < 10
            },
            IbanErrorKind::TooShort => false,
        },
    }
}

/// Whether `r` is the outcome of verifying the check digits of the string `s`.
pub open spec fn iban_verifies(s: Seq<char>, r: Result<bool, IbanError>) -> bool {
    if s.len() < 4 {
        (r matches Err(e) && e.kind == IbanErrorKind::TooShort)
    } else {
        let country = s.take(2);
        let cc = s.subrange(2, 4);
        let bank_account = s.skip(4);
        match r {
            Ok(b) => exists|computed: [char; 2]|
                iban_computes(country, bank_account, Ok(computed)) && b == (computed@ == cc),
            Err(e) => iban_computes(country, bank_account, Err(e)),
        }
    }
}

fn digit_char(d: u32) -> (r: char)
    requires
        d < 10,
    ensures
        r == char_of('0' as int + d),
{
    match Numeric.encode(d) {
        Some(c) => c,
        None => '0',
    }
}

/// Accumulates the decimal digits of a base 36 value.
fn accumulate_digits(acc: &mut Mod97_10, value: u32)
    requires
        old(acc).inv(),
        value < 36,
    ensures
        final(acc).inv(),
        final(acc).history() == old(acc).history() + decimal_digits(value),
{
    if value < 10 {
        acc.accumulate(value);
        assert(old(acc).history().push(value) =~= old(acc).history() + seq![value]);
    } else {
        acc.accumulate(value / 10);
        acc.accumulate(value % 10);
        assert(old(acc).history().push(value / 10).push(value % 10) =~= old(acc).history()
            + seq![value / 10, value % 10]);
    }
}

proof fn lemma_numeric_form_step(chars: Seq<char>, i: int)
    requires
        0 <= i < chars.len(),
    ensures
        numeric_form(chars.take(i + 1)) == numeric_form(chars.take(i)) + decimal_digits(
            base36_value(chars[i])->0,
        ),
{
    assert(chars.take(i + 1).drop_last() =~= chars.take(i));
}

impl Iban {
    /// Computes the check digits for the country code and basic bank account number (BBAN).
    ///
    /// # Errors
    ///
    /// Returns an [`IbanError`] if the arguments are invalid.
    pub fn compute(&self, country: &str, bank_account: &str) -> (r: Result<[char; 2], IbanError>)
        ensures
            country@.len() != 2 ==> (r matches Err(e) && e.kind == IbanErrorKind::MalformedCountry),
            country@.len() == 2 ==> iban_computes(country@, bank_account@, r),
    {
        let ctry = chars_of(country);
        let bban = chars_of(bank_account);
        self.compute_from_chars(ctry.as_slice(), bban.as_slice())
    }

    /// Computes the check digits from slices holding the country code and basic bank account
    /// number (BBAN).
    ///
    /// # Errors
    ///
    /// Returns an [`IbanError`] if the arguments are invalid.
    pub fn compute_from_chars(&self, country: &[char], bank_account: &[char]) -> (r: Result<
        [char; 2],
        IbanError,
    >)
        ensures
            country@.len() != 2 ==> (r matches Err(e) && e.kind == IbanErrorKind::MalformedCountry),
            country@.len() == 2 ==> iban_computes(country@, bank_account@, r),
    {
        if country.len() != 2 {
            return Err(IbanError { kind: IbanErrorKind::MalformedCountry });
        }
        self.compute_inner(country, bank_account)
    }

    /// Verifies whether the check digits in the string `s` are valid.
    ///
    /// This method verifies only the check digits and does not validate other IBAN properties, such
    /// as country code existence or country-specific lengths and formats.
    ///
    /// # Errors
    ///
    /// Returns an [`IbanError`] if the argument is invalid.
    pub fn verify(&self, s: &str) -> (r: Result<bool, IbanError>)
        ensures
            iban_verifies(s@, r),
    {
        let chars = chars_of(s);
        self.verify_from_chars(chars.as_slice())
    }

    /// Verifies whether the check digits in the slice of characters are valid.
    ///
    /// This method verifies only the check digits and does not validate other IBAN properties, such
    /// as country code existence or country-specific lengths and formats.
    ///
    /// # Errors
    ///
    /// Returns an [`IbanError`] if the argument is invalid.
    pub fn verify_from_chars(&self, chars: &[char]) -> (r: Result<bool, IbanError>)
        ensures
            iban_verifies(chars@, r),
    {
        if chars.len() < 4 {
            return Err(IbanError { kind: IbanErrorKind::TooShort });
        }
        let (country, rest) = chars.split_at(2);
        let (cc, bank_account) = rest.split_at(2);
        proof {
            assert(country@ =~= chars@.take(2));
            assert(cc@ =~= chars@.subrange(2, 4));
            assert(bank_account@ =~= chars@.skip(4));
        }
        match self.compute_inner(country, bank_account) {
            Ok(computed) => {
                let b = computed[0] == cc[0] && computed[1] == cc[1];
                proof {
                    assert(b == (computed@ =~= cc@));
                }
                Ok(b)
            },
            Err(e) => Err(e),
        }
    }

    fn compute_inner(&self, country: &[char], bank_account: &[char]) -> (r: Result<
        [char; 2],
        IbanError,
    >)
        requires
            country@.len() == 2,
        ensures
            iban_computes(country@, bank_account@, r),
    {
        let mut acc = Mod97_10::new();
        let n = bank_account.len();
        proof {
            assert(bank_account@.take(0) =~= Seq::<char>::empty());
            assert(country@.take(0) =~= Seq::<char>::empty());
        }
        for i in 0..n
            invariant
                n == bank_account@.len(),
                acc.inv(),
                acc.history() == numeric_form(bank_account@.take(i as int)),
                all_alphanumeric(bank_account@.take(i as int)),
        {
            let c = bank_account[i];
            let value = match to_digit36(c) {
                Some(v) => v,
                None => {
                    return Err(IbanError { kind: IbanErrorKind::NonAlphanumeric(c) });
                },
            };
            accumulate_digits(&mut acc, value);
            proof {
                lemma_numeric_form_step(bank_account@, i as int);
                assert forall|j: int| 0 <= j < i + 1 implies (#[trigger] base36_value(
                    bank_account@.take(i + 1)[j],
                )) is Some by {
                    if j < i {
                        assert(bank_account@.take(i + 1)[j] == bank_account@.take(i as int)[j]);
                    }
                }
            }
        }
        proof {
            assert(bank_account@.take(n as int) =~= bank_account@);
        }
        if n > 30 {
            return Err(IbanError { kind: IbanErrorKind::TooLong });
        }
        for i in 0..2
            invariant
                country@.len() == 2,
                n == bank_account@.len(),
                n <= 30,
                all_alphanumeric(bank_account@),
                acc.inv(),
                acc.history() == numeric_form(bank_account@) + numeric_form(
                    country@.take(i as int),
                ),
                all_letters(country@.take(i as int)),
        {
            let c = country[i];
            let value = match to_digit36(c) {
                Some(v) => v,
                None => {
                    return Err(IbanError { kind: IbanErrorKind::NonAlphanumeric(c) });
                },
            };
            if value < 10 {
                return Err(IbanError { kind: IbanErrorKind::MalformedCountry });
            }
            accumulate_digits(&mut acc, value);
            proof {
                lemma_numeric_form_step(country@, i as int);
                assert forall|j: int| 0 <= j < i + 1 implies (#[trigger] base36_value(
                    country@.take(i + 1)[j],
                )) is Some && base36_value(country@.take(i + 1)[j])->0 >= 10 by {
                    if j < i {
                        assert(country@.take(i + 1)[j] == country@.take(i as int)[j]);
                    }
                }
            }
        }
        proof {
            assert(country@.take(2) =~= country@);
        }
        let cc = acc.compute();
        proof {
            let p = pure_value(acc.history(), 10);
            lemma_mod_bound(p * 10 * 10, 97);
            assert(p * 10 * 10 == p * 100);
        }
        let r = [digit_char(cc[0]), digit_char(cc[1])];
        assert(r@ =~= iban_check_digits(country@, bank_account@));
        Ok(r)
    }
}


proof fn lemma_numeric_form_append(x: Seq<char>, y: Seq<char>)
    ensures
        numeric_form(x + y) == numeric_form(x) + numeric_form(y),
    decreases y.len(),
{
    if y.len() == 0 {
        assert(x + y =~= x);
        assert(numeric_form(x) + numeric_form(y) =~= numeric_form(x));
    } else {
        lemma_numeric_form_append(x, y.drop_last());
        assert((x + y).drop_last() =~= x + y.drop_last());
        assert(numeric_form(x) + numeric_form(y) =~= numeric_form(x) + numeric_form(y.drop_last())
            + decimal_digits(base36_value(y.last())->0));
    }
}

/// The check digits computed for a country code and a BBAN are accepted by verification when
/// placed after the country code and before the BBAN.
pub proof fn iban_round_trip(country: Seq<char>, bank_account: Seq<char>, cc: [char; 2])
    requires
        country.len() == 2,
        iban_computes(country, bank_account, Ok(cc)),
    ensures
        iban_verifies(country + cc@ + bank_account, Ok(true)),
{
    let s = country + cc@ + bank_account;
    assert(s.take(2) =~= country);
    assert(s.subrange(2, 4) =~= cc@);
    assert(s.skip(4) =~= bank_account);
}

/// With the computed check digits, the rearranged IBAN (the BBAN, then the country code, then
/// the check digits) in numeric form is a number that leaves the remainder 1 when divided by 97.
pub proof fn iban_remainder_one(country: Seq<char>, bank_account: Seq<char>, cc: [char; 2])
    requires
        iban_computes(country, bank_account, Ok(cc)),
    ensures
        pure_value(numeric_form(bank_account + country + cc@), 10) % 97 == 1,
{
    let values = numeric_form(bank_account) + numeric_form(country);
    pure_double_round_trip::<97, 10>(values);
    let checks = Mod97_10::check_values(values);
    let hi = checks[0];
    let lo = checks[1];
    assert(checks.drop_last() =~= seq![hi]);
    assert(checks.drop_last().drop_last() =~= Seq::<u32>::empty());
    let st1 = feed::<2, Mod97_10>((values, None), checks.drop_last());
    assert(feed::<2, Mod97_10>((values, None), checks.drop_last().drop_last()) == (
    values,
    None::<u32>,
    ));
    assert(st1.0 == values.push(hi));
    assert(feed::<2, Mod97_10>((values, None), checks).0 == values.push(hi).push(lo));
    assert(pure_value(values.push(hi).push(lo), 10) % 97 == 1);
    lemma_numeric_form_append(bank_account, country);
    lemma_numeric_form_append(bank_account + country, cc@);
    assert(cc@[0] == char_of('0' as int + hi));
    assert(cc@[1] == char_of('0' as int + lo));
    assert(cc@.drop_last() =~= seq![cc@[0]]);
    assert(cc@.drop_last().drop_last() =~= Seq::<char>::empty());
    assert(hi < 10 && lo < 10);
    assert(base36_value(cc@[0]) == Some(hi));
    assert(base36_value(cc@[1]) == Some(lo));
    assert(numeric_form(cc@.drop_last().drop_last()) =~= Seq::<u32>::empty());
    assert(numeric_form(cc@.drop_last()) =~= seq![hi]);
    assert(numeric_form(cc@) =~= seq![hi, lo]);
    assert(values.push(hi).push(lo) =~= values + seq![hi, lo]);
}

proof fn lemma_upper_value(chars: Seq<char>)
    ensures
        upper_chars(chars).len() == chars.len(),
        forall|i: int|
            0 <= i < chars.len() ==> #[trigger] upper_chars(chars)[i] == ascii_upper(chars[i])
                && base36_value(upper_chars(chars)[i]) == base36_value(chars[i]),
        forall|i: int|
            0 <= i < chars.len() && #[trigger] base36_value(chars[i]) is None ==> upper_chars(
                chars,
            )[i] == chars[i],
        all_alphanumeric(upper_chars(chars)) == all_alphanumeric(chars),
        all_letters(upper_chars(chars)) == all_letters(chars),
{
    assert forall|i: int| 0 <= i < chars.len() implies #[trigger] upper_chars(chars)[i]
        == ascii_upper(chars[i]) && base36_value(upper_chars(chars)[i]) == base36_value(
        chars[i],
    ) by {
        base36_case_insensitive(chars[i]);
    }
    if all_alphanumeric(chars) {
        assert forall|i: int| 0 <= i < chars.len() implies (#[trigger] base36_value(
            upper_chars(chars)[i],
        )) is Some by {
            assert(base36_value(chars[i]) is Some);
        }
    }
    if all_alphanumeric(upper_chars(chars)) {
        assert forall|i: int| 0 <= i < chars.len() implies (#[trigger] base36_value(
            chars[i],
        )) is Some by {
            assert(base36_value(upper_chars(chars)[i]) is Some);
        }
    }
    if all_letters(chars) {
        assert forall|i: int| 0 <= i < chars.len() implies (#[trigger] base36_value(
            upper_chars(chars)[i],
        )) is Some && base36_value(upper_chars(chars)[i])->0 >= 10 by {
            assert(base36_value(chars[i]) is Some);
        }
    }
    if all_letters(upper_chars(chars)) {
        assert forall|i: int| 0 <= i < chars.len() implies (#[trigger] base36_value(
            chars[i],
        )) is Some && base36_value(chars[i])->0 >= 10 by {
            assert(base36_value(upper_chars(chars)[i]) is Some);
        }
    }
}

proof fn lemma_upper_take(chars: Seq<char>, i: int)
    requires
        0 <= i <= chars.len(),
    ensures
        upper_chars(chars).take(i) == upper_chars(chars.take(i)),
        upper_chars(chars).skip(i) == upper_chars(chars.skip(i)),
{
    assert(upper_chars(chars).take(i) =~= upper_chars(chars.take(i)));
    assert(upper_chars(chars).skip(i) =~= upper_chars(chars.skip(i)));
}

proof fn lemma_upper_numeric_form(chars: Seq<char>)
    ensures
        numeric_form(upper_chars(chars)) == numeric_form(chars),
    decreases chars.len(),
{
    if chars.len() > 0 {
        lemma_upper_numeric_form(chars.drop_last());
        assert(upper_chars(chars).drop_last() =~= upper_chars(chars.drop_last()));
        lemma_upper_value(chars);
        assert(upper_chars(chars).last() == upper_chars(chars)[chars.len() - 1]);
    }
}

proof fn lemma_upper_computes(
    country: Seq<char>,
    bank_account: Seq<char>,
    r: Result<[char; 2], IbanError>,
)
    requires
        iban_computes(country, bank_account, r),
    ensures
        iban_computes(upper_chars(country), upper_chars(bank_account), r),
{
    let uc = upper_chars(country);
    let ub = upper_chars(bank_account);
    lemma_upper_value(country);
    lemma_upper_value(bank_account);
    lemma_upper_numeric_form(country);
    lemma_upper_numeric_form(bank_account);
    match r {
        Ok(cc) => {},
        Err(e) => match e.kind {
            IbanErrorKind::NonAlphanumeric(c) => {
                if exists|i: int|
                    0 <= i < bank_account.len() && all_alphanumeric(bank_account.take(i))
                        && base36_value(#[trigger] bank_account[i]) is None && bank_account[i]
                        == c {
                    let i = choose|i: int|
                        0 <= i < bank_account.len() && all_alphanumeric(bank_account.take(i))
                            && base36_value(#[trigger] bank_account[i]) is None && bank_account[i]
                            == c;
                    lemma_upper_take(bank_account, i);
                    lemma_upper_value(bank_account.take(i));
                    assert(base36_value(ub[i]) is None);
                } else {
                    let i = choose|i: int|
                        0 <= i < country.len() && all_letters(country.take(i)) && base36_value(
                            #[trigger] country[i],
                        ) is None && country[i] == c;
                    lemma_upper_take(country, i);
                    lemma_upper_value(country.take(i));
                    assert(base36_value(uc[i]) is None);
                }
            },
            IbanErrorKind::MalformedCountry => {
                let i = choose|i: int|
                    0 <= i < country.len() && all_letters(country.take(i)) && (
                    #[trigger] base36_value(country[i])) is Some && base36_value(country[i])->0
                        < 10;
                lemma_upper_take(country, i);
                lemma_upper_value(country.take(i));
                assert(base36_value(uc[i]) == base36_value(country[i]));
            },
            _ => {},
        },
    }
}

proof fn lemma_lower_computes(
    country: Seq<char>,
    bank_account: Seq<char>,
    r: Result<[char; 2], IbanError>,
)
    requires
        iban_computes(upper_chars(country), upper_chars(bank_account), r),
    ensures
        iban_computes(country, bank_account, r),
{
    let uc = upper_chars(country);
    let ub = upper_chars(bank_account);
    lemma_upper_value(country);
    lemma_upper_value(bank_account);
    lemma_upper_numeric_form(country);
    lemma_upper_numeric_form(bank_account);
    match r {
        Ok(cc) => {},
        Err(e) => match e.kind {
            IbanErrorKind::NonAlphanumeric(c) => {
                if exists|i: int|
                    0 <= i < ub.len() && all_alphanumeric(ub.take(i)) && base36_value(
                        #[trigger] ub[i],
                    ) is None && ub[i] == c {
                    let i = choose|i: int|
                        0 <= i < ub.len() && all_alphanumeric(ub.take(i)) && base36_value(
                            #[trigger] ub[i],
                        ) is None && ub[i] == c;
                    lemma_upper_take(bank_account, i);
                    lemma_upper_value(bank_account.take(i));
                    assert(base36_value(bank_account[i]) is None);
                } else {
                    let i = choose|i: int|
                        0 <= i < uc.len() && all_letters(uc.take(i)) && base36_value(
                            #[trigger] uc[i],
                        ) is None && uc[i] == c;
                    lemma_upper_take(country, i);
                    lemma_upper_value(country.take(i));
                    assert(base36_value(country[i]) is None);
                }
            },
            IbanErrorKind::MalformedCountry => {
                let i = choose|i: int|
                    0 <= i < uc.len() && all_letters(uc.take(i)) && (#[trigger] base36_value(
                        uc[i],
                    )) is Some && base36_value(uc[i])->0 < 10;
                lemma_upper_take(country, i);
                lemma_upper_value(country.take(i));
                assert(base36_value(uc[i]) == base36_value(country[i]));
            },
            _ => {},
        },
    }
}

proof fn lemma_check_digits_are_digits(country: Seq<char>, bank_account: Seq<char>)
    ensures
        iban_check_digits(country, bank_account).len() == 2,
        forall|k: int|
            0 <= k < 2 ==> #[trigger] in_range(iban_check_digits(country, bank_account)[k], '0', '9'),
{
    let n = pure_value(numeric_form(bank_account) + numeric_form(country), 10);
    lemma_mod_bound(n * 100, 97);
    let v = 98 - (n * 100) % 97;
    assert(0 <= v / 10 < 10);
    assert(0 <= v % 10 < 10);
}

proof fn lemma_digits_match_upper(d: Seq<char>, cc: Seq<char>)
    requires
        d.len() == 2,
        forall|k: int| 0 <= k < 2 ==> #[trigger] in_range(d[k], '0', '9'),
    ensures
        (d == cc) == (d == upper_chars(cc)),
{
    lemma_upper_value(cc);
    if d == cc {
        assert forall|k: int| 0 <= k < 2 implies upper_chars(cc)[k] == d[k] by {
            assert(in_range(d[k], '0', '9'));
        }
        assert(d =~= upper_chars(cc));
    }
    if d == upper_chars(cc) {
        assert forall|k: int| 0 <= k < 2 implies cc[k] == d[k] by {
            assert(in_range(d[k], '0', '9'));
            assert(upper_chars(cc)[k] == ascii_upper(cc[k]));
        }
        assert(d =~= cc);
    }
}

/// IBAN computation and verification ignore case: the outcome for lowercase letters is the one
/// for the same letters in uppercase, whatever the input.
pub proof fn iban_ignores_case(
    country: Seq<char>,
    bank_account: Seq<char>,
    computed: Result<[char; 2], IbanError>,
    s: Seq<char>,
    verified: Result<bool, IbanError>,
)
    ensures
        iban_computes(country, bank_account, computed) == iban_computes(
            upper_chars(country),
            upper_chars(bank_account),
            computed,
        ),
        iban_verifies(s, verified) == iban_verifies(upper_chars(s), verified),
{
    if iban_computes(country, bank_account, computed) {
        lemma_upper_computes(country, bank_account, computed);
    }
    if iban_computes(upper_chars(country), upper_chars(bank_account), computed) {
        lemma_lower_computes(country, bank_account, computed);
    }
    let us = upper_chars(s);
    if s.len() >= 4 {
        let country = s.take(2);
        let cc = s.subrange(2, 4);
        let bank_account = s.skip(4);
        lemma_upper_take(s, 2);
        lemma_upper_take(s, 4);
        lemma_upper_value(s);
        assert(us.subrange(2, 4) =~= upper_chars(cc));
        assert(us.take(2) == upper_chars(country));
        assert(us.skip(4) == upper_chars(bank_account));
        match verified {
            Ok(b) => {
                if iban_verifies(s, verified) {
                    let comp = choose|comp: [char; 2]|
                        iban_computes(country, bank_account, Ok(comp)) && b == (comp@ == cc);
                    lemma_upper_computes(country, bank_account, Ok(comp));
                    lemma_check_digits_are_digits(country, bank_account);
                    lemma_digits_match_upper(comp@, cc);
                }
                if iban_verifies(us, verified) {
                    let comp = choose|comp: [char; 2]|
                        iban_computes(upper_chars(country), upper_chars(bank_account), Ok(comp))
                            && b == (comp@ == upper_chars(cc));
                    lemma_lower_computes(country, bank_account, Ok(comp));
                    lemma_check_digits_are_digits(country, bank_account);
                    lemma_digits_match_upper(comp@, cc);
                }
            },
            Err(e) => {
                if iban_verifies(s, verified) {
                    lemma_upper_computes(country, bank_account, Err(e));
                }
                if iban_verifies(us, verified) {
                    lemma_lower_computes(country, bank_account, Err(e));
                }
            },
        }
    }
}

} // verus!
