use iso_7064::accumulator::{AccumulateResult, Accumulator};
use iso_7064::charset::{Base36Digits, Decoder, Encoder, Numeric};
use iso_7064::extra::gs1::{GS1, Gs1Acc};
use iso_7064::extra::luhn::{LUHN as LUHN_SYS, LuhnAcc as LuhnModAcc};
use iso_7064::extra::{GTIN, GtinAcc, LUHN, LuhnAcc};
use iso_7064::system::System;

fn prepared_inner<const N_CC: usize, Acc, Enc, Dec>(
    sys: &System<N_CC, Acc, Enc, Dec>,
    valid: &[&str],
    invalid: &[&str],
) where
    Acc: Accumulator<N_CC>,
    Enc: Encoder,
    Dec: Decoder,
{
    for &s in valid {
        assert!(sys.verify(s).unwrap());
        assert!(sys.verify_lax(s));
        let chars: Vec<char> = s.chars().collect();
        assert!(sys.verify_from_chars(&chars).unwrap());

        let (u, cc) = s.split_at(s.len() - N_CC);
        let u_chars: Vec<char> = u.chars().collect();
        assert!(cc.chars().eq(sys.compute(u).unwrap()));
        assert!(cc.chars().eq(sys.compute_lax(u)));
        assert!(cc.chars().eq(sys.compute_from_chars(&u_chars).unwrap()));
    }

    for &s in invalid {
        assert!(!sys.verify(s).unwrap());
        assert!(!sys.verify_lax(s));
        let chars: Vec<char> = s.chars().collect();
        assert!(!sys.verify_from_chars(&chars).unwrap());

        let (u, cc) = s.split_at(s.len() - N_CC);
        let u_chars: Vec<char> = u.chars().collect();
        assert!(!cc.chars().eq(sys.compute(u).unwrap()));
        assert!(!cc.chars().eq(sys.compute_lax(u)));
        assert!(!cc.chars().eq(sys.compute_from_chars(&u_chars).unwrap()));
    }
}

fn accumulate_values(acc: &mut impl Accumulator<1>, values: impl IntoIterator<Item = u32>) {
    for value in values {
        assert_eq!(acc.accumulate(value), AccumulateResult::Processed);
    }
}

/// A small xorshift generator standing in for a random number generator.
struct SmallRng(u64);

impl SmallRng {
    fn new(seed: u64) -> Self {
        SmallRng(seed | 1)
    }

    fn random_range(&mut self, range: std::ops::Range<u32>) -> u32 {
        let mut x = self.0;
        x ^= x << 13;
        x ^= x >> 7;
        x ^= x << 17;
        self.0 = x;
        range.start + (x % u64::from(range.end - range.start)) as u32
    }
}

#[test]
fn examples_luhn() {
    let mut acc = LuhnAcc::default();
    accumulate_values(&mut acc, [4, 8, 7, 2, 1, 4, 8]);
    assert_eq!(acc.compute(), [4]);
    accumulate_values(&mut acc, [4]);
    assert!(acc.verify());
}

#[test]
fn examples_gtin() {
    let mut acc = GtinAcc::default();
    accumulate_values(
        &mut acc,
        [3, 7, 6, 1, 0, 4, 2, 5, 0, 0, 2, 1, 2, 3, 4, 5, 6],
    );
    assert_eq!(acc.compute(), [9]);
    accumulate_values(&mut acc, [9]);
    assert!(acc.verify());
}

#[test]
fn boundaries_luhn() {
    let mut acc = LuhnAcc::default();

    accumulate_values(&mut acc, 0..10);

    let carry = acc.carry();
    for value in 10..2048 {
        assert_eq!(acc.accumulate(value), AccumulateResult::NotInCharset);
        assert_eq!(acc.carry(), carry);
    }
}

#[test]
fn boundaries_gtin() {
    let mut acc = GtinAcc::default();

    accumulate_values(&mut acc, 0..10);

    let carry = acc.carry();
    for value in 10..2048 {
        assert_eq!(acc.accumulate(value), AccumulateResult::NotInCharset);
        assert_eq!(acc.carry(), carry);
    }
}

fn random_inner<Acc>(naive_fn: impl Fn(&[u32]) -> u32)
where
    Acc: Accumulator<1> + Default + Clone,
{
    let mut rng = SmallRng::new(0x9e37_79b9_7f4a_7c15);
    for _ in 0..8 {
        let values: [u32; 1024] = core::array::from_fn(|_| rng.random_range(0..10));
        let mut acc = Acc::default();
        assert!(!acc.verify());
        for i in 0..values.len() {
            acc.accumulate(values[i]);

            assert_eq!(acc.verify(), naive_fn(&values[..i]) == values[i]);

            let cc = acc.compute();
            assert_eq!(cc, [naive_fn(&values[..=i])]);

            let mut clone = acc.clone();
            for value in cc {
                clone.accumulate(value);
            }
            assert!(clone.verify())
        }
    }
}

#[test]
fn random_luhn() {
    fn naive_fn(values: &[u32]) -> u32 {
        const SUB: [u32; 10] = [0, 2, 4, 6, 8, 1, 3, 5, 7, 9];
        let mut carry = 0;
        for (i, &v) in values.iter().rev().enumerate() {
            carry += if i % 2 == 0 { SUB[v as usize] } else { v };
            carry %= 10;
        }
        (10 - carry) % 10
    }

    random_inner::<LuhnAcc>(naive_fn);
}

#[test]
fn random_gtin() {
    fn naive_fn(values: &[u32]) -> u32 {
        let mut carry = 0;
        for (i, &v) in values.iter().rev().enumerate() {
            carry += if i % 2 == 0 { v * 3 } else { v };
            carry %= 10;
        }
        (10 - carry) % 10
    }

    random_inner::<GtinAcc>(naive_fn);
}

#[test]
fn prepared_luhn() {
    let valid = &[
        "546623412242598542363",
        "429869407",
        "697482027002074929657",
        "24427809",
        "40945102099",
        "7765910180673709242",
        "0334754482118806638",
        "353159977932780875001",
        "24221502320077397",
        "55281270707218379",
        "42861648824",
        "60932589014642580",
    ];

    let invalid = &[
        "743638155913",
        "89472241187133",
        "741010972016880174648",
        "6044520638804741920",
        "51212175412516688233",
        "76245165717037759",
        "6366487495713270993924",
        "23742667215749",
        "2986089939865",
        "44932344897270",
        "16693589271944940",
        "2222675562",
    ];

    prepared_inner(&*LUHN, valid, invalid);
}

#[test]
fn prepared_gtin() {
    let valid = &[
        "9201696531",
        "49950385619451233889",
        "36147121450673678056505",
        "89051525687652679018",
        "177945840022586907",
        "040966595",
        "4616160305150",
        "32573277760920769",
        "125119223031",
        "53748599212771",
        "858821862656667",
        "64718330",
    ];

    let invalid = &[
        "1320267506819606688870",
        "3244530282",
        "9808980103049501991713",
        "10830077677580",
        "72636966152958653",
        "097892315743878",
        "83641903781222688830",
        "49941940257492255012045",
        "17618635417724453339",
        "1645108330301674",
        "9645092905763",
        "61928210334114471550661",
    ];

    prepared_inner(&*GTIN, valid, invalid);
}

#[test]
fn extra_decode_isin() {
    let sys: System<1, LuhnAcc, _, _> = System::with_charset(Numeric, Base36Digits);

    let isin = "US0378331005";
    assert!(sys.verify(isin).unwrap());

    let mut chars = isin.chars();
    let cc = chars.next_back().unwrap();
    assert_eq!(sys.compute(chars.as_str()).unwrap(), [cc]);
}

#[test]
fn luhn_examples() {
    let mut acc = LuhnModAcc::default();
    accumulate_values(&mut acc, [4, 8, 7, 2, 1, 4, 8]);
    assert_eq!(acc.compute(), [4]);
    accumulate_values(&mut acc, [4]);
    assert!(acc.verify());
}

#[test]
fn luhn_boundaries() {
    let mut acc = LuhnModAcc::default();

    accumulate_values(&mut acc, 0..10);

    let carry = acc.carry();
    for value in 10..2048 {
        assert_eq!(acc.accumulate(value), AccumulateResult::NotInCharset);
        assert_eq!(acc.carry(), carry);
    }
}

#[test]
fn luhn_random() {
    fn naive_fn(values: &[u32]) -> u32 {
        const SUB: [u32; 10] = [0, 2, 4, 6, 8, 1, 3, 5, 7, 9];
        let mut carry = 0;
        for (i, &v) in values.iter().rev().enumerate() {
            carry += if i % 2 == 0 { SUB[v as usize] } else { v };
            carry %= 10;
        }
        (10 - carry) % 10
    }

    random_inner::<LuhnModAcc>(naive_fn);
}

#[test]
fn luhn_prepared() {
    let valid = &[
        "546623412242598542363",
        "429869407",
        "697482027002074929657",
        "24427809",
        "40945102099",
        "7765910180673709242",
        "0334754482118806638",
        "353159977932780875001",
        "24221502320077397",
        "55281270707218379",
        "42861648824",
        "60932589014642580",
    ];

    let invalid = &[
        "743638155913",
        "89472241187133",
        "741010972016880174648",
        "6044520638804741920",
        "51212175412516688233",
        "76245165717037759",
        "6366487495713270993924",
        "23742667215749",
        "2986089939865",
        "44932344897270",
        "16693589271944940",
        "2222675562",
    ];

    prepared_inner(&*LUHN_SYS, valid, invalid);
}

#[test]
fn luhn_decode_isin() {
    let sys: System<1, LuhnModAcc, _, _> = System::with_charset(Numeric, Base36Digits);

    let isin = "US0378331005";
    assert!(sys.verify(isin).unwrap());

    let mut chars = isin.chars();
    let cc = chars.next_back().unwrap();
    assert_eq!(sys.compute(chars.as_str()).unwrap(), [cc]);
}

#[test]
fn gs1_examples() {
    let mut acc = Gs1Acc::default();
    accumulate_values(
        &mut acc,
        [3, 7, 6, 1, 0, 4, 2, 5, 0, 0, 2, 1, 2, 3, 4, 5, 6],
    );
    assert_eq!(acc.compute(), [9]);
    accumulate_values(&mut acc, [9]);
    assert!(acc.verify());
}

#[test]
fn gs1_boundaries() {
    let mut acc = Gs1Acc::default();

    accumulate_values(&mut acc, 0..10);

    let carry = acc.carry();
    for value in 10..2048 {
        assert_eq!(acc.accumulate(value), AccumulateResult::NotInCharset);
        assert_eq!(acc.carry(), carry);
    }
}

#[test]
fn gs1_random() {
    fn naive_fn(values: &[u32]) -> u32 {
        let mut carry = 0;
        for (i, &v) in values.iter().rev().enumerate() {
            carry += if i % 2 == 0 { v * 3 } else { v };
            carry %= 10;
        }
        (10 - carry) % 10
    }

    random_inner::<Gs1Acc>(naive_fn);
}

#[test]
fn gs1_prepared() {
    let valid = &[
        "9201696531",
        "49950385619451233889",
        "36147121450673678056505",
        "89051525687652679018",
        "177945840022586907",
        "040966595",
        "4616160305150",
        "32573277760920769",
        "125119223031",
        "53748599212771",
        "858821862656667",
        "64718330",
    ];

    let invalid = &[
        "1320267506819606688870",
        "3244530282",
        "9808980103049501991713",
        "10830077677580",
        "72636966152958653",
        "097892315743878",
        "83641903781222688830",
        "49941940257492255012045",
        "17618635417724453339",
        "1645108330301674",
        "9645092905763",
        "61928210334114471550661",
    ];

    prepared_inner(&*GS1, valid, invalid);
}


#[test]
fn docs_examples_extra() {
    assert_eq!(LUHN.compute("1789372997").unwrap(), ['4']);
    assert!(LUHN.verify("17893729974").unwrap());
    assert_eq!(GTIN.compute("9761234500001").unwrap(), ['8']);
    assert!(GTIN.verify("97612345000018").unwrap());
}

#[test]
fn empty_is_not_valid() {
    assert!(!LUHN.verify("").unwrap());
    assert!(!GS1.verify("").unwrap());
    assert_eq!(LUHN.compute("").unwrap(), ['0']);
    assert_eq!(GS1.compute("").unwrap(), ['0']);
}

#[test]
fn round_trip_extra() {
    for s in ["", "7", "79927398713", "0000", "123456789012"] {
        let mut buf = String::from(s);
        LUHN.protect(&mut buf).unwrap();
        assert!(LUHN.verify(&buf).unwrap(), "{}", buf);
        let mut buf = String::from(s);
        GS1.protect(&mut buf).unwrap();
        assert!(GS1.verify(&buf).unwrap(), "{}", buf);
    }
}

#[test]
fn exact_carry_luhn_gs1() {
    let mut acc = LuhnAcc::default();
    assert_eq!(acc.accumulate(4), AccumulateResult::Processed);
    assert_eq!(acc.carry(), (4, 8));
    assert_eq!(acc.accumulate(8), AccumulateResult::Processed);
    assert_eq!(acc.carry(), (16, 11));
    assert_eq!(acc.accumulate(12), AccumulateResult::NotInCharset);
    assert_eq!(acc.carry(), (16, 11));

    let mut acc = Gs1Acc::default();
    assert_eq!(acc.accumulate(3), AccumulateResult::Processed);
    assert_eq!(acc.carry(), (0, 3));
    assert_eq!(acc.accumulate(7), AccumulateResult::Processed);
    assert_eq!(acc.carry(), (3, 7));
    assert_eq!(acc.accumulate(5), AccumulateResult::Processed);
    assert_eq!(acc.carry(), (7, 8));
    assert_eq!(acc.accumulate(10), AccumulateResult::NotInCharset);
    assert_eq!(acc.carry(), (7, 8));
}

#[test]
fn luhn_indexed_sum_example() {
    // each digit doubled at an odd distance from the last one
    let digits = [7u32, 9, 9, 2, 7, 3, 9, 8, 7, 1, 3];
    let n = digits.len();
    let mut sum = 0;
    for (i, &d) in digits.iter().enumerate() {
        sum += if (n - 1 - i) % 2 == 1 { [0, 2, 4, 6, 8, 1, 3, 5, 7, 9][d as usize] } else { d };
    }
    assert_eq!(sum % 10, 0);
    assert!(LUHN.verify("79927398713").unwrap());
    assert_eq!(LUHN.compute("7992739871").unwrap(), ['3']);
}

#[test]
fn single_check_digit_is_unique_luhn_gs1() {
    for c in '0'..='9' {
        let s = format!("7992739871{}", c);
        assert_eq!(LUHN.verify(&s).unwrap(), c == '3');
        let s = format!("37610425002123456{}", c);
        assert_eq!(GTIN.verify(&s).unwrap(), c == '9');
    }
}

#[test]
fn gs1_indexed_sum_example() {
    // each digit weighs three at an odd distance from the last one, one otherwise
    let digits = [3u32, 7, 6, 1, 0, 4, 2, 5, 0, 0, 2, 1, 2, 3, 4, 5, 6, 9];
    let n = digits.len();
    let mut sum = 0;
    for (i, &d) in digits.iter().enumerate() {
        sum += if (n - 1 - i) % 2 == 1 { 3 * d } else { d };
    }
    assert_eq!(sum % 10, 0);
    assert!(GTIN.verify("376104250021234569").unwrap());
}
