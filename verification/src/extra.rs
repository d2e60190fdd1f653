//! Check character algorithms other than ISO/IEC 7064.
//!
//! - The Luhn algorithm (also known as the MOD 10 algorithm), widely used in credit card
//!   numbers, IMEI numbers, and National Provider Identifiers.
//! - The standard check digit algorithm for GS1 data structures (including GTIN-8,
//!   GTIN-12 / UPC, GTIN-13 / EAN-13, GTIN-14, and SSCC).

pub mod gs1;
pub mod luhn;

pub use luhn::{LUHN, LuhnAcc};

use vstd::prelude::*;

verus! {

/// An accumulator for the check digit algorithm for GS1 data structures (including GTIN).
pub type GtinAcc = gs1::Gs1Acc;

/// The Luhn algorithm.
pub type Luhn = luhn::LuhnSys;

/// The standard check digit algorithm for GS1 data structures (including GTIN).
pub type Gtin = gs1::Gs1Sys;

/// The standard check digit algorithm for GS1 data structures (including GTIN).
///
/// See the [`System`](crate::system::System) type for provided methods.
pub const GTIN: Gtin = gs1::Gs1Sys;

} // verus!
