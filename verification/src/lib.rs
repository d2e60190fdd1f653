//! Check character systems of ISO/IEC 7064:2003, with the IBAN variant of MOD 97-10,
//! the Luhn algorithm and the GS1 check digit algorithm.

use vstd::prelude::*;

pub mod accumulator;
pub mod charset;
pub mod extra;
pub mod iban;
pub mod system;

verus! {

/// The ISO/IEC 7064, MOD 11-2 pure system with a single check character.
///
/// See the [`System`](system::System) type for provided methods.
pub const MOD11_2: system::Mod11_2 = system::Mod11_2;

/// The ISO/IEC 7064, MOD 37-2 pure system with a single check character.
///
/// See the [`System`](system::System) type for provided methods.
pub const MOD37_2: system::Mod37_2 = system::Mod37_2;

/// The ISO/IEC 7064, MOD 97-10 pure system with two check characters.
///
/// See the [`System`](system::System) type for provided methods.
pub const MOD97_10: system::Mod97_10 = system::Mod97_10;

/// The ISO/IEC 7064, MOD 661-26 pure system with two check characters.
///
/// See the [`System`](system::System) type for provided methods.
pub const MOD661_26: system::Mod661_26 = system::Mod661_26;

/// The ISO/IEC 7064, MOD 1271-36 pure system with two check characters.
///
/// See the [`System`](system::System) type for provided methods.
pub const MOD1271_36: system::Mod1271_36 = system::Mod1271_36;

/// The ISO/IEC 7064, MOD 11,10 hybrid system.
///
/// See the [`System`](system::System) type for provided methods.
pub const MOD11_10: system::Mod11_10 = system::Mod11_10;

/// The ISO/IEC 7064, MOD 27,26 hybrid system.
///
/// See the [`System`](system::System) type for provided methods.
pub const MOD27_26: system::Mod27_26 = system::Mod27_26;

/// The ISO/IEC 7064, MOD 37,36 hybrid system.
///
/// See the [`System`](system::System) type for provided methods.
pub const MOD37_36: system::Mod37_36 = system::Mod37_36;

/// The remainder of `lhs` divided by `rhs`, for `lhs` below twice `rhs`.
pub(crate) fn spec_rem(lhs: u32, rhs: u32) -> (r: u32)
    requires
        0 < rhs,
        lhs < 2 * rhs,
    ensures
        r as int == lhs as int % rhs as int,
{
    proof {
        if lhs < rhs {
            vstd::arithmetic::div_mod::lemma_small_mod(lhs as nat, rhs as nat);
        } else {
            vstd::arithmetic::div_mod::lemma_fundamental_div_mod_converse_mod(
                lhs as int,
                rhs as int,
                1,
                lhs - rhs,
            );
        }
    }
    if lhs < rhs {
        lhs
    } else {
        lhs - rhs
    }
}

/// The remainder of `x` divided by `m`, with `m` in place of `0`.
pub open spec fn nz_mod(x: int, m: int) -> int {
    if x % m == 0 {
        m
    } else {
        x % m
    }
}

/// The remainder of `lhs` divided by `rhs`, with `rhs` in place of `0`, for `lhs` in
/// `1..2 * rhs`.
pub(crate) fn non_zero_spec_rem(lhs: u32, rhs: u32) -> (r: u32)
    requires
        0 < lhs < 2 * rhs,
    ensures
        r as int == nz_mod(lhs as int, rhs as int),
        1 <= r <= rhs,
{
    proof {
        if lhs < rhs {
            vstd::arithmetic::div_mod::lemma_small_mod(lhs as nat, rhs as nat);
        } else {
            vstd::arithmetic::div_mod::lemma_fundamental_div_mod_converse_mod(
                lhs as int,
                rhs as int,
                1,
                lhs - rhs,
            );
        }
    }
    if lhs <= rhs {
        lhs
    } else {
        lhs - rhs
    }
}

/// The remainder of `carry` divided by `modulus`, on a path that is rarely taken.
pub(crate) fn cold_rem(carry: u32, modulus: u32) -> (r: u32)
    requires
        0 < modulus,
    ensures
        r == carry % modulus,
{
    carry % modulus
}

} // verus!
