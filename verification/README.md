# iso-7064

Check character systems of ISO/IEC 7064:2003, verified with Verus.

| System                    | Type   | Input string            | Check character(s)                    |
| ------------------------- | ------ | ----------------------- | ------------------------------------- |
| ISO/IEC 7064, MOD 11-2    | Pure   | Numeric (`0-9`)         | 1 digit or `'X'` (`0-9X`)             |
| ISO/IEC 7064, MOD 37-2    | Pure   | Alphanumeric (`0-9A-Z`) | 1 digit, letter, or `'*'` (`0-9A-Z*`) |
| ISO/IEC 7064, MOD 97-10   | Pure   | Numeric (`0-9`)         | 2 digits (`0-9`)                      |
| ISO/IEC 7064, MOD 661-26  | Pure   | Alphabetic (`A-Z`)      | 2 letters (`A-Z`)                     |
| ISO/IEC 7064, MOD 1271-36 | Pure   | Alphanumeric (`0-9A-Z`) | 2 digits or letters (`0-9A-Z`)        |
| ISO/IEC 7064, MOD 11,10   | Hybrid | Numeric (`0-9`)         | 1 digit (`0-9`)                       |
| ISO/IEC 7064, MOD 27,26   | Hybrid | Alphabetic (`A-Z`)      | 1 letter (`A-Z`)                      |
| ISO/IEC 7064, MOD 37,36   | Hybrid | Alphanumeric (`0-9A-Z`) | 1 digit or letter (`0-9A-Z`)          |

The IBAN variant of MOD 97-10, the Luhn algorithm and the GS1 check digit algorithm are
provided as well.

Layout:

- `src/accumulator.rs`: the accumulators, their mathematical model (the value of the digits in
  the radix of a pure system, the partial sums of a hybrid system) and the proofs that appending
  the computed check characters makes the input verify.
- `src/charset.rs`: the character sets and their encoders and decoders.
- `src/system.rs`: the `System` facade (strict and lax computation and verification over
  strings, characters and values) and the proofs that relate its operations.
- `src/iban.rs`: the IBAN variant of MOD 97-10.
- `src/extra/`: the Luhn and GS1 algorithms.
- `app/lib.rs`: error types with `Display` and `std::error::Error`.
