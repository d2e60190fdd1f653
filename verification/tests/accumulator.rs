use iso_7064::accumulator::{
    AccumulateResult, Accumulator, Hybrid, Mod11_10, Mod11_2, Mod1271_36, Mod27_26, Mod37_2,
    Mod37_36, Mod661_26, Mod97_10, PureDouble, PureSingle,
};

fn accumulate_values<const N_CC: usize>(
    acc: &mut impl Accumulator<N_CC>,
    values: impl IntoIterator<Item = u32>,
) {
    for value in values {
        assert_eq!(acc.accumulate(value), AccumulateResult::Processed);
    }
}

/// A small xorshift generator standing in for a random number generator.
struct SmallRng(u64);

impl SmallRng {
    fn new(seed: u64) -> Self {
        SmallRng(seed | 1)
    }

    fn next_u64(&mut self) -> u64 {
        let mut x = self.0;
        x ^= x << 13;
        x ^= x >> 7;
        x ^= x << 17;
        self.0 = x;
        x
    }

    fn random_range(&mut self, range: std::ops::Range<u32>) -> u32 {
        range.start + (self.next_u64() % u64::from(range.end - range.start)) as u32
    }
}

#[test]
fn examples_mod_11_2() {
    let mut acc = Mod11_2::default();
    accumulate_values(&mut acc, [0, 7, 9, 4]);
    assert_eq!(acc.compute(), [0]);
    accumulate_values(&mut acc, [0]);
    assert!(acc.verify());

    let mut acc = Mod11_2::default();
    accumulate_values(&mut acc, [0, 7, 9]);
    assert_eq!(acc.compute(), [10]);
    assert_eq!(acc.accumulate(10), AccumulateResult::SupplFound);
    assert!(acc.verify());
}

#[test]
fn examples_mod_97_10() {
    let mut acc = Mod97_10::default();
    accumulate_values(&mut acc, [7, 9, 4]);
    assert_eq!(acc.compute(), [4, 4]);
    accumulate_values(&mut acc, [4, 4]);
    assert!(acc.verify());
}

#[test]
fn examples_mod_1271_36() {
    let mut acc = Mod1271_36::default();
    accumulate_values(&mut acc, [18, 28, 24, 7, 9]);
    assert_eq!(acc.compute(), [3, 32]);
    accumulate_values(&mut acc, [3, 32]);
    assert!(acc.verify());
}

#[test]
fn examples_mod_11_10() {
    let mut acc = Mod11_10::default();
    accumulate_values(&mut acc, [0, 7, 9, 4]);
    assert_eq!(acc.compute(), [5]);
    accumulate_values(&mut acc, [5]);
    assert!(acc.verify());
}

#[test]
fn boundaries_pure_single() {
    fn run<const MODULUS: u32, const RADIX: u32, const CHARSET_SIZE: u32>(
        mut acc: PureSingle<MODULUS, RADIX, CHARSET_SIZE>,
    ) {
        assert_eq!(acc.suppl(), None);
        for value in 0..CHARSET_SIZE {
            assert_eq!(acc.accumulate(value), AccumulateResult::Processed);
            assert_eq!(acc.suppl(), None);
        }
        let carry = acc.carry();
        for value in CHARSET_SIZE..MODULUS {
            assert_eq!(acc.accumulate(value), AccumulateResult::SupplFound);
            assert_eq!(acc.carry(), carry);
            assert_eq!(acc.suppl(), Some(value));
        }
        let suppl = acc.suppl();
        for value in MODULUS..2048 {
            assert_eq!(acc.accumulate(value), AccumulateResult::NotInCharset);
            assert_eq!(acc.carry(), carry);
            assert_eq!(acc.suppl(), suppl);
        }
        acc.accumulate(0);
        assert_eq!(acc.suppl(), None);
    }

    run(Mod11_2::default());
    run(Mod37_2::default());
    run(PureSingle::<29, 2, 29>::default());
    run(PureSingle::<57, 2, 32>::default());
}

#[test]
fn boundaries_pure_double() {
    fn run<const MODULUS: u32, const CHARSET_SIZE: u32>(
        mut acc: PureDouble<MODULUS, CHARSET_SIZE>,
    ) {
        accumulate_values(&mut acc, 0..CHARSET_SIZE);

        let carry = acc.carry();
        for value in CHARSET_SIZE..2048 {
            assert_eq!(acc.accumulate(value), AccumulateResult::NotInCharset);
            assert_eq!(acc.carry(), carry);
        }
    }

    run(Mod97_10::default());
    run(Mod661_26::default());
    run(Mod1271_36::default());
    run(PureDouble::<239, 16>::default());
    run(PureDouble::<1289, 36>::default());
}

#[test]
fn boundaries_hybrid() {
    fn run<const CHARSET_SIZE: u32>(mut acc: Hybrid<CHARSET_SIZE>) {
        accumulate_values(&mut acc, 0..CHARSET_SIZE);

        let carry = acc.carry();
        for value in CHARSET_SIZE..2048 {
            assert_eq!(acc.accumulate(value), AccumulateResult::NotInCharset);
            assert_eq!(acc.carry(), carry);
        }
    }

    run(Mod11_10::default());
    run(Mod27_26::default());
    run(Mod37_36::default());
    run(Hybrid::<16>::default());
    run(Hybrid::<64>::default());
}

/// Accepts alternative check character pairs of the pure double systems.
#[test]
fn pure_double_ambiguity() {
    fn run<Acc: Accumulator<2> + Default>(s: &[u32], cc: &[u32], cc_alt: &[u32]) {
        let mut acc = Acc::default();
        accumulate_values(&mut acc, s.iter().copied());
        assert_eq!(&acc.compute(), cc);

        accumulate_values(&mut acc, cc.iter().copied());
        assert!(acc.verify());

        let mut alt = Acc::default();
        accumulate_values(&mut alt, s.iter().copied());
        accumulate_values(&mut alt, cc_alt.iter().copied());
        assert!(alt.verify());
    }

    run::<Mod97_10>(&[9, 7], &[9, 8], &[0, 1]);
    run::<Mod661_26>(&[25, 11], &[25, 12], &[0, 1]);
    run::<Mod1271_36>(&[35, 11], &[35, 12], &[0, 1]);
}

/// Tests accumulators using random numbers and naive implementations of the recursive methods
/// described in the standard.
fn random_inner<const N_CC: usize, Acc>(
    modulus: u32,
    charset_size: u32,
    initial_p: u32,
    next_s: impl Fn(u32, u32) -> u32,
    next_p: impl Fn(u32) -> u32,
) where
    Acc: Accumulator<N_CC> + Default + Clone,
{
    let mut rng = SmallRng::new(0x2545_f491_4f6c_dd1d ^ u64::from(modulus));
    for _ in 0..8 {
        let mut acc = Acc::default();
        let mut p = initial_p;
        assert!(!acc.verify());
        for _ in 0..1024 {
            let value = rng.random_range(0..charset_size);
            acc.accumulate(value);
            let s = next_s(p, value);
            p = next_p(s);

            assert_eq!(acc.verify(), s % modulus == 1);

            let cc = acc.compute();
            let cc_expected: &[u32] = match N_CC {
                1 => &[(modulus + 1 - p) % modulus],
                2 => {
                    let v = modulus + 1 - next_p(next_s(p, 0));
                    &[v / charset_size, v % charset_size]
                }
                _ => unreachable!(),
            };
            assert_eq!(&cc, cc_expected);

            let mut clone = acc.clone();
            for value in cc {
                clone.accumulate(value);
            }
            assert!(clone.verify())
        }
    }
}

fn random_inner_pure<const N_CC: usize, Acc>(modulus: u32, radix: u32, charset_size: u32)
where
    Acc: Accumulator<N_CC> + Default + Clone,
{
    let next_s = |p, a| p + a;
    let next_p = move |s| s * radix % modulus;
    random_inner::<N_CC, Acc>(modulus, charset_size, 0, next_s, next_p);
}

fn random_inner_hybrid<Acc>(m: u32)
where
    Acc: Accumulator<1> + Default + Clone,
{
    let next_s = |p, a| p + a;
    let next_p = move |s| match s % m {
        0 => m * 2 % (m + 1),
        r => r * 2 % (m + 1),
    };
    random_inner::<1, Acc>(m, m, m, next_s, next_p);
}

#[test]
fn random_mod11_2() {
    random_inner_pure::<1, Mod11_2>(11, 2, 10);
}

#[test]
fn random_mod37_2() {
    random_inner_pure::<1, Mod37_2>(37, 2, 36);
}

#[test]
fn random_mod29_2() {
    random_inner_pure::<1, PureSingle<29, 2, 29>>(29, 2, 29);
}

#[test]
fn random_mod97_10() {
    random_inner_pure::<2, Mod97_10>(97, 10, 10);
}

#[test]
fn random_mod661_26() {
    random_inner_pure::<2, Mod661_26>(661, 26, 26);
}

#[test]
fn random_mod1271_36() {
    random_inner_pure::<2, Mod1271_36>(1271, 36, 36);
}

#[test]
fn random_mod11_10() {
    random_inner_hybrid::<Mod11_10>(10);
}

#[test]
fn random_mod27_26() {
    random_inner_hybrid::<Mod27_26>(26);
}

#[test]
fn random_mod37_36() {
    random_inner_hybrid::<Mod37_36>(36);
}

#[test]
fn exact_carry_pure() {
    let mut acc = Mod11_2::default();
    assert_eq!(acc.accumulate(1), AccumulateResult::Processed);
    assert_eq!(acc.carry(), 1);
    assert_eq!(acc.accumulate(2), AccumulateResult::Processed);
    assert_eq!(acc.carry(), 4);
    assert_eq!(acc.accumulate(10), AccumulateResult::SupplFound);
    assert_eq!(acc.carry(), 4);
    assert_eq!(acc.suppl(), Some(10));
    assert_eq!(acc.accumulate(11), AccumulateResult::NotInCharset);
    assert_eq!(acc.carry(), 4);
    assert_eq!(acc.suppl(), Some(10));
    assert_eq!(acc.accumulate(3), AccumulateResult::Processed);
    assert_eq!(acc.carry(), 11);
    assert_eq!(acc.suppl(), None);

    let mut acc = Mod97_10::default();
    accumulate_values(&mut acc, [7, 9]);
    assert_eq!(acc.carry(), 79);
    assert_eq!(acc.accumulate(10), AccumulateResult::NotInCharset);
    assert_eq!(acc.carry(), 79);
}

#[test]
fn reduced_carry_pure() {
    let mut acc = Mod11_2::default();
    for _ in 0..40 {
        assert_eq!(acc.accumulate(1), AccumulateResult::Processed);
    }
    // past (u32::MAX - 11) / 2 the carry is reduced modulo 11, then it grows again
    assert_eq!(acc.carry(), 1023);
    assert_eq!(acc.carry() as u64 % 11, ((1u64 << 40) - 1) % 11);
}
