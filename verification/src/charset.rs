//! Character set types for mapping between characters and their numerical values.

use vstd::prelude::*;

use crate::accumulator::pure_value;

verus! {

/// A trait for encoding a numerical value into its corresponding character.
pub trait Encoder {
    /// The character for the value, or `None` if it is not representable.
    spec fn spec_encode(&self, v: u32) -> Option<char>;

    /// Encodes a numerical value into its corresponding character.
    ///
    /// Returns `None` if the value is not representable in this character set.
    fn encode(&self, v: u32) -> (r: Option<char>)
        ensures
            r == self.spec_encode(v),
    ;
}

/// The numerical values that a character decodes to.
pub trait DecodedValues {
    /// The values, in order.
    spec fn values(&self) -> Seq<u32>;

    /// The number of values.
    fn count(&self) -> (n: usize)
        ensures
            n == self.values().len(),
    ;

    /// The value at position `i`.
    fn value_at(&self, i: usize) -> (v: u32)
        requires
            i < self.values().len(),
        ensures
            v == self.values()[i as int],
    ;
}

impl<const N: usize> DecodedValues for [u32; N] {
    open spec fn values(&self) -> Seq<u32> {
        self@
    }

    fn count(&self) -> (n: usize) {
        N
    }

    fn value_at(&self, i: usize) -> (v: u32) {
        self[i]
    }
}

impl DecodedValues for Vec<u32> {
    open spec fn values(&self) -> Seq<u32> {
        self@
    }

    fn count(&self) -> (n: usize) {
        self.len()
    }

    fn value_at(&self, i: usize) -> (v: u32) {
        self[i]
    }
}

/// A trait for decoding a character into its corresponding numerical values.
pub trait Decoder {
    /// The decoded numerical values.
    type Decoded: DecodedValues;

    /// The values that the character decodes to, or `None` if it is not in the character set.
    spec fn spec_decode(&self, c: char) -> Option<Seq<u32>>;

    /// Decodes a character into its corresponding numerical values.
    ///
    /// Returns `None` if the character is not part of this character set.
    fn decode(&self, c: char) -> (r: Option<Self::Decoded>)
        ensures
            match r {
                None => self.spec_decode(c) == None::<Seq<u32>>,
                Some(d) => self.spec_decode(c) == Some(d.values()),
            },
    ;
}

/// The character whose code is `code`.
pub open spec fn char_of(code: int) -> char {
    code as char
}

/// Whether the character lies between `lo` and `hi`, both included.
pub open spec fn in_range(c: char, lo: char, hi: char) -> bool {
    lo as int <= c as int <= hi as int
}

/// The position of the character after `first`, as a single decoded value.
pub open spec fn offset_from(c: char, first: char) -> Seq<u32> {
    seq![(c as int - first as int) as u32]
}

/// Whether `enc` and `dec` map the values below `size` one to one onto the same characters, and
/// reject every other value and character.
pub open spec fn inverse_on<E: Encoder, D: Decoder>(enc: E, dec: D, size: u32) -> bool {
    &&& forall|v: u32|
        #![trigger enc.spec_encode(v)]
        v < size ==> (enc.spec_encode(v) matches Some(c) && dec.spec_decode(c) == Some(seq![v]))
    &&& forall|v: u32| #![trigger enc.spec_encode(v)] v >= size ==> enc.spec_encode(v) is None
    &&& forall|c: char|
        #![trigger dec.spec_decode(c)]
        dec.spec_decode(c) matches Some(vs) ==> vs.len() == 1 && vs[0] < size && enc.spec_encode(
            vs[0],
        ) == Some(c)
}

/// The character `zero_value + v`.
fn encode_ascii(v: u32, zero_value: u8) -> (r: char)
    requires
        v + zero_value < 128,
    ensures
        r == char_of(zero_value + v),
{
    ((v as u8) + zero_value) as char
}

/// The code of `c` minus `zero_value`.
fn decode_ascii(c: char, zero_value: u8) -> (r: u32)
    requires
        c as u32 >= zero_value,
    ensures
        r == c as u32 - zero_value,
{
    (c as u32).wrapping_sub(zero_value as u32)
}

/// A character set type representing numeric characters (`'0'`-`'9'`).
#[derive(Debug, Default, Clone)]
pub struct Numeric;

impl Encoder for Numeric {
    open spec fn spec_encode(&self, v: u32) -> Option<char> {
        if v < 10 {
            Some(char_of('0' as int + v))
        } else {
            None
        }
    }

    fn encode(&self, v: u32) -> (r: Option<char>) {
        if v < 10 {
            Some(encode_ascii(v, '0' as u8))
        } else {
            None
        }
    }
}

impl Decoder for Numeric {
    type Decoded = [u32; 1];

    open spec fn spec_decode(&self, c: char) -> Option<Seq<u32>> {
        if in_range(c, '0', '9') {
            Some(offset_from(c, '0'))
        } else {
            None
        }
    }

    fn decode(&self, c: char) -> (r: Option<[u32; 1]>) {
        if '0' <= c && c <= '9' {
            let r = [decode_ascii(c, '0' as u8)];
            assert(r@ =~= offset_from(c, '0'));
            Some(r)
        } else {
            None
        }
    }
}

/// A character set type representing numeric characters (`'0'`-`'9'`) and the supplementary check
/// character `'X'`.
///
/// Note that the conversion by this type is case-sensitive.
#[derive(Debug, Default, Clone)]
pub struct NumericX;

impl Encoder for NumericX {
    open spec fn spec_encode(&self, v: u32) -> Option<char> {
        if v < 10 {
            Some(char_of('0' as int + v))
        } else if v == 10 {
            Some('X')
        } else {
            None
        }
    }

    fn encode(&self, v: u32) -> (r: Option<char>) {
        if v < 10 {
            Some(encode_ascii(v, '0' as u8))
        } else if v == 10 {
            Some('X')
        } else {
            None
        }
    }
}

impl Decoder for NumericX {
    type Decoded = [u32; 1];

    open spec fn spec_decode(&self, c: char) -> Option<Seq<u32>> {
        if in_range(c, '0', '9') {
            Some(offset_from(c, '0'))
        } else if c == 'X' {
            Some(seq![10u32])
        } else {
            None
        }
    }

    fn decode(&self, c: char) -> (r: Option<[u32; 1]>) {
        if '0' <= c && c <= '9' {
            let r = [decode_ascii(c, '0' as u8)];
            assert(r@ =~= offset_from(c, '0'));
            Some(r)
        } else if c == 'X' {
            let r = [10];
            assert(r@ =~= seq![10u32]);
            Some(r)
        } else {
            None
        }
    }
}

/// A character set type representing uppercase alphabetic characters (`'A'`-`'Z'`).
///
/// Note that the conversion by this type is case-sensitive.
#[derive(Debug, Default, Clone)]
pub struct Alphabetic;

impl Encoder for Alphabetic {
    open spec fn spec_encode(&self, v: u32) -> Option<char> {
        if v < 26 {
            Some(char_of('A' as int + v))
        } else {
            None
        }
    }

    fn encode(&self, v: u32) -> (r: Option<char>) {
        if v < 26 {
            Some(encode_ascii(v, 'A' as u8))
        } else {
            None
        }
    }
}

impl Decoder for Alphabetic {
    type Decoded = [u32; 1];

    open spec fn spec_decode(&self, c: char) -> Option<Seq<u32>> {
        if in_range(c, 'A', 'Z') {
            Some(offset_from(c, 'A'))
        } else {
            None
        }
    }

    fn decode(&self, c: char) -> (r: Option<[u32; 1]>) {
        if 'A' <= c && c <= 'Z' {
            let r = [decode_ascii(c, 'A' as u8)];
            assert(r@ =~= offset_from(c, 'A'));
            Some(r)
        } else {
            None
        }
    }
}

/// A character set type representing uppercase alphanumeric characters (`'0'`-`'9'`, `'A'`-`'Z'`).
///
/// Note that the conversion by this type is case-sensitive.
#[derive(Debug, Default, Clone)]
pub struct Alphanumeric;

impl Encoder for Alphanumeric {
    open spec fn spec_encode(&self, v: u32) -> Option<char> {
        if v < 10 {
            Some(char_of('0' as int + v))
        } else if v < 36 {
            Some(char_of('A' as int + v - 10))
        } else {
            None
        }
    }

    fn encode(&self, v: u32) -> (r: Option<char>) {
        if v < 10 {
            Some(encode_ascii(v, '0' as u8))
        } else if v < 36 {
            Some(encode_ascii(v, 'A' as u8 - 10))
        } else {
            None
        }
    }
}

impl Decoder for Alphanumeric {
    type Decoded = [u32; 1];

    open spec fn spec_decode(&self, c: char) -> Option<Seq<u32>> {
        if in_range(c, '0', '9') {
            Some(offset_from(c, '0'))
        } else if in_range(c, 'A', 'Z') {
            Some(seq![(c as int - 'A' as int + 10) as u32])
        } else {
            None
        }
    }

    fn decode(&self, c: char) -> (r: Option<[u32; 1]>) {
        if '0' <= c && c <= '9' {
            let r = [decode_ascii(c, '0' as u8)];
            assert(r@ =~= offset_from(c, '0'));
            Some(r)
        } else if 'A' <= c && c <= 'Z' {
            let r = [decode_ascii(c, 'A' as u8 - 10)];
            assert(r@ =~= seq![(c as int - 'A' as int + 10) as u32]);
            Some(r)
        } else {
            None
        }
    }
}

/// A character set type representing uppercase alphanumeric characters (`'0'`-`'9'`, `'A'`-`'Z'`)
/// and the supplementary check character `'*'`.
///
/// Note that the conversion by this type is case-sensitive.
#[derive(Debug, Default, Clone)]
pub struct AlphanumericAst;

impl Encoder for AlphanumericAst {
    open spec fn spec_encode(&self, v: u32) -> Option<char> {
        if v < 10 {
            Some(char_of('0' as int + v))
        } else if v < 36 {
            Some(char_of('A' as int + v - 10))
        } else if v == 36 {
            Some('*')
        } else {
            None
        }
    }

    fn encode(&self, v: u32) -> (r: Option<char>) {
        if v < 10 {
            Some(encode_ascii(v, '0' as u8))
        } else if v < 36 {
            Some(encode_ascii(v, 'A' as u8 - 10))
        } else if v == 36 {
            Some('*')
        } else {
            None
        }
    }
}

impl Decoder for AlphanumericAst {
    type Decoded = [u32; 1];

    open spec fn spec_decode(&self, c: char) -> Option<Seq<u32>> {
        if in_range(c, '0', '9') {
            Some(offset_from(c, '0'))
        } else if in_range(c, 'A', 'Z') {
            Some(seq![(c as int - 'A' as int + 10) as u32])
        } else if c == '*' {
            Some(seq![36u32])
        } else {
            None
        }
    }

    fn decode(&self, c: char) -> (r: Option<[u32; 1]>) {
        if '0' <= c && c <= '9' {
            let r = [decode_ascii(c, '0' as u8)];
            assert(r@ =~= offset_from(c, '0'));
            Some(r)
        } else if 'A' <= c && c <= 'Z' {
            let r = [decode_ascii(c, 'A' as u8 - 10)];
            assert(r@ =~= seq![(c as int - 'A' as int + 10) as u32]);
            Some(r)
        } else if c == '*' {
            let r = [36];
            assert(r@ =~= seq![36u32]);
            Some(r)
        } else {
            None
        }
    }
}

/// The value of a character as a digit in base 36: `'0'`-`'9'` are 0 to 9, and the letters
/// `'a'`-`'z'` and `'A'`-`'Z'` are 10 to 35.
pub open spec fn base36_value(c: char) -> Option<u32> {
    if in_range(c, '0', '9') {
        Some((c as int - '0' as int) as u32)
    } else if in_range(c, 'a', 'z') {
        Some((c as int - 'a' as int + 10) as u32)
    } else if in_range(c, 'A', 'Z') {
        Some((c as int - 'A' as int + 10) as u32)
    } else {
        None
    }
}

/// The decimal digits of a value below 100, without a leading zero.
pub open spec fn decimal_digits(v: u32) -> Seq<u32> {
    if v < 10 {
        seq![v]
    } else {
        seq![v / 10, v % 10]
    }
}

/// The value of a character as a digit in base 36, as `char::to_digit(36)` gives it.
pub(crate) fn to_digit36(c: char) -> (r: Option<u32>)
    ensures
        r == base36_value(c),
{
    if '0' <= c && c <= '9' {
        Some(c as u32 - '0' as u32)
    } else if 'a' <= c && c <= 'z' {
        Some(c as u32 - 'a' as u32 + 10)
    } else if 'A' <= c && c <= 'Z' {
        Some(c as u32 - 'A' as u32 + 10)
    } else {
        None
    }
}

/// A character set type for decoding only, as for International Securities Identification
/// Numbers (ISIN): a digit (`'0'`-`'9'`) stands for its value, and a letter (`'A'`-`'Z'` or
/// `'a'`-`'z'`) for the two decimal digits of its value in base 36 (`'A'` for 1 and 0).
#[derive(Debug, Default, Clone)]
pub struct Base36Digits;

impl Decoder for Base36Digits {
    type Decoded = Vec<u32>;

    open spec fn spec_decode(&self, c: char) -> Option<Seq<u32>> {
        match base36_value(c) {
            None => None,
            Some(v) => Some(decimal_digits(v)),
        }
    }

    fn decode(&self, c: char) -> (r: Option<Vec<u32>>) {
        match to_digit36(c) {
            None => None,
            Some(v) => {
                let mut values = Vec::new();
                if v < 10 {
                    values.push(v);
                } else {
                    values.push(v / 10);
                    values.push(v % 10);
                }
                assert(values@ =~= decimal_digits(v));
                Some(values)
            },
        }
    }
}

/// `Numeric` maps the values `0..10` one to one onto `'0'..='9'` and back.
pub proof fn numeric_inverse()
    ensures
        inverse_on(Numeric, Numeric, 10),
{
}

/// `NumericX` maps the values `0..11` one to one onto `'0'..='9'` and `'X'` and back.
pub proof fn numeric_x_inverse()
    ensures
        inverse_on(NumericX, NumericX, 11),
{
}

/// `Alphabetic` maps the values `0..26` one to one onto `'A'..='Z'` and back.
pub proof fn alphabetic_inverse()
    ensures
        inverse_on(Alphabetic, Alphabetic, 26),
{
}

/// `Alphanumeric` maps the values `0..36` one to one onto `'0'..='9'` and `'A'..='Z'` and back.
pub proof fn alphanumeric_inverse()
    ensures
        inverse_on(Alphanumeric, Alphanumeric, 36),
{
}

/// `AlphanumericAst` maps the values `0..37` one to one onto `'0'..='9'`, `'A'..='Z'` and `'*'`
/// and back.
pub proof fn alphanumeric_ast_inverse()
    ensures
        inverse_on(AlphanumericAst, AlphanumericAst, 37),
{
}

/// Whether `enc` and `dec` follow the list `chars`: the value `i` is encoded as the `i`-th
/// character of the list, which decodes to `i`, and no other value or character is accepted.
pub open spec fn follows_list<E: Encoder, D: Decoder>(enc: E, dec: D, chars: Seq<char>) -> bool {
    &&& forall|i: int|
        0 <= i < chars.len() ==> enc.spec_encode(i as u32) == Some(#[trigger] chars[i])
            && dec.spec_decode(chars[i]) == Some(seq![i as u32])
    &&& forall|v: u32| #![trigger enc.spec_encode(v)] v >= chars.len() ==> enc.spec_encode(v) is None
    &&& forall|c: char| #![trigger dec.spec_decode(c)] dec.spec_decode(c) is Some ==> chars.contains(c)
}

/// The decimal digits, in order.
pub open spec fn digit_chars() -> Seq<char> {
    seq!['0', '1', '2', '3', '4', '5', '6', '7', '8', '9']
}

/// The uppercase letters, in order.
pub open spec fn letter_chars() -> Seq<char> {
    seq![
        'A', 'B', 'C', 'D', 'E', 'F', 'G', 'H', 'I', 'J', 'K', 'L', 'M', 'N', 'O', 'P', 'Q', 'R',
        'S', 'T', 'U', 'V', 'W', 'X', 'Y', 'Z',
    ]
}

proof fn lemma_char_lists()
    ensures
        digit_chars().len() == 10,
        letter_chars().len() == 26,
        forall|i: int| 0 <= i < 10 ==> #[trigger] digit_chars()[i] == char_of('0' as int + i),
        forall|i: int| 0 <= i < 26 ==> #[trigger] letter_chars()[i] == char_of('A' as int + i),
{
    assert(digit_chars() =~= Seq::new(10, |i: int| char_of('0' as int + i)));
    assert(letter_chars() =~= Seq::new(26, |i: int| char_of('A' as int + i)));
}

/// `Numeric` follows the list `"0123456789"`.
pub proof fn numeric_order()
    ensures
        follows_list(Numeric, Numeric, digit_chars()),
{
    lemma_char_lists();
    let chars = digit_chars();
    assert forall|c: char| #[trigger] Numeric.spec_decode(c) is Some implies chars.contains(c) by {
        assert(chars[c as int - '0' as int] == c);
    }
}

/// `NumericX` follows the list `"0123456789X"`.
pub proof fn numeric_x_order()
    ensures
        follows_list(NumericX, NumericX, digit_chars().push('X')),
{
    lemma_char_lists();
    let chars = digit_chars().push('X');
    assert forall|c: char| #[trigger] NumericX.spec_decode(c) is Some implies chars.contains(c) by {
        if c == 'X' {
            assert(chars[10] == c);
        } else {
            assert(chars[c as int - '0' as int] == c);
        }
    }
}

/// `Alphabetic` follows the list `"ABCDEFGHIJKLMNOPQRSTUVWXYZ"`.
pub proof fn alphabetic_order()
    ensures
        follows_list(Alphabetic, Alphabetic, letter_chars()),
{
    lemma_char_lists();
    let chars = letter_chars();
    assert forall|c: char| #[trigger] Alphabetic.spec_decode(c) is Some implies chars.contains(
        c,
    ) by {
        assert(chars[c as int - 'A' as int] == c);
    }
}

/// `Alphanumeric` follows the list `"0123456789ABCDEFGHIJKLMNOPQRSTUVWXYZ"`.
pub proof fn alphanumeric_order()
    ensures
        follows_list(Alphanumeric, Alphanumeric, digit_chars() + letter_chars()),
{
    lemma_char_lists();
    let chars = digit_chars() + letter_chars();
    assert forall|i: int| 0 <= i < chars.len() implies Alphanumeric.spec_encode(i as u32) == Some(
        #[trigger] chars[i],
    ) && Alphanumeric.spec_decode(chars[i]) == Some(seq![i as u32]) by {
        if i >= 10 {
            assert(chars[i] == letter_chars()[i - 10]);
        }
    }
    assert forall|c: char| #[trigger] Alphanumeric.spec_decode(c) is Some implies chars.contains(
        c,
    ) by {
        if in_range(c, '0', '9') {
            assert(chars[c as int - '0' as int] == c);
        } else {
            assert(chars[c as int - 'A' as int + 10] == c);
        }
    }
}

/// `AlphanumericAst` follows the list `"0123456789ABCDEFGHIJKLMNOPQRSTUVWXYZ*"`.
pub proof fn alphanumeric_ast_order()
    ensures
        follows_list(AlphanumericAst, AlphanumericAst, (digit_chars() + letter_chars()).push('*')),
{
    lemma_char_lists();
    let chars = (digit_chars() + letter_chars()).push('*');
    assert forall|i: int| 0 <= i < chars.len() implies AlphanumericAst.spec_encode(i as u32)
        == Some(#[trigger] chars[i]) && AlphanumericAst.spec_decode(chars[i]) == Some(
        seq![i as u32],
    ) by {
        if 10 <= i < 36 {
            assert(chars[i] == letter_chars()[i - 10]);
        }
    }
    assert forall|c: char| #[trigger] AlphanumericAst.spec_decode(c) is Some implies chars.contains(
        c,
    ) by {
        if in_range(c, '0', '9') {
            assert(chars[c as int - '0' as int] == c);
        } else if in_range(c, 'A', 'Z') {
            assert(chars[c as int - 'A' as int + 10] == c);
        } else {
            assert(chars[36] == c);
        }
    }
}

/// The character with lowercase ASCII letters turned into uppercase ones.
pub open spec fn ascii_upper(c: char) -> char {
    if in_range(c, 'a', 'z') {
        char_of(c as int - 'a' as int + 'A' as int)
    } else {
        c
    }
}

/// The characters with lowercase ASCII letters turned into uppercase ones.
pub open spec fn upper_chars(chars: Seq<char>) -> Seq<char> {
    chars.map_values(|c: char| ascii_upper(c))
}

/// The base 36 value of a character ignores case, and it is the value that `Alphanumeric`
/// decodes the uppercase character to: a digit stands for itself, and a letter, lowercase or
/// uppercase, for its place in the alphabet plus ten. Any other character has no value.
pub proof fn base36_case_insensitive(c: char)
    ensures
        base36_value(ascii_upper(c)) == base36_value(c),
        Alphanumeric.spec_decode(ascii_upper(c)) == match base36_value(c) {
            Some(v) => Some(seq![v]),
            None => None::<Seq<u32>>,
        },
{
}

/// `Base36Digits` decodes exactly the characters that have a base 36 value, each to the decimal
/// digits of the value that `Alphanumeric` gives the uppercase character: one digit for a
/// decimal digit, and two for a letter, read most significant first.
pub proof fn base36_digits_decimal(c: char)
    ensures
        Base36Digits.spec_decode(c) is Some <==> Alphanumeric.spec_decode(ascii_upper(c)) is Some,
        Base36Digits.spec_decode(c) matches Some(vs) ==> {
            let v = Alphanumeric.spec_decode(ascii_upper(c))->0[0];
            &&& vs.len() == if v < 10 {
                1int
            } else {
                2int
            }
            &&& forall|i: int| 0 <= i < vs.len() ==> vs[i] < 10
            &&& pure_value(vs, 10) == v
        },
{
    base36_case_insensitive(c);
    if let Some(vs) = Base36Digits.spec_decode(c) {
        let v = base36_value(c)->0;
        assert(v < 36);
        if v < 10 {
            assert(vs.drop_last() =~= Seq::<u32>::empty());
            assert(pure_value(vs, 10) == pure_value(vs.drop_last(), 10) * 10 + v);
        } else {
            assert(vs.drop_last() =~= seq![v / 10]);
            assert(vs.drop_last().drop_last() =~= Seq::<u32>::empty());
            assert(pure_value(vs.drop_last(), 10) == pure_value(vs.drop_last().drop_last(), 10)
                * 10 + v / 10);
            assert(pure_value(vs, 10) == pure_value(vs.drop_last(), 10) * 10 + v % 10);
            assert((v / 10) * 10 + v % 10 == v);
        }
    }
}

} // verus!
