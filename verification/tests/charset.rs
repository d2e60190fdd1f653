use iso_7064::charset::{
    Alphabetic, Alphanumeric, AlphanumericAst, Decoder, Encoder, Numeric, NumericX,
};

type DynDecoder = dyn Decoder<Decoded = [u32; 1]>;
const CHARSETS: &[(&dyn Encoder, &DynDecoder, &str)] = &[
    (&Numeric, &Numeric, "0123456789"),
    (&NumericX, &NumericX, "0123456789X"),
    (&Alphabetic, &Alphabetic, "ABCDEFGHIJKLMNOPQRSTUVWXYZ"),
    (
        &Alphanumeric,
        &Alphanumeric,
        "0123456789ABCDEFGHIJKLMNOPQRSTUVWXYZ",
    ),
    (
        &AlphanumericAst,
        &AlphanumericAst,
        "0123456789ABCDEFGHIJKLMNOPQRSTUVWXYZ*",
    ),
];

#[test]
fn encode_decode_ok() {
    for (enc, dec, charset) in CHARSETS {
        for (n, c) in charset.chars().enumerate() {
            assert_eq!(enc.encode(n as u32).unwrap(), c);
            assert_eq!(dec.decode(c).unwrap(), [n as u32]);
        }
    }
}

#[test]
fn encode_err() {
    for (enc, _, charset) in CHARSETS {
        for n in (charset.chars().count()..).take(1024) {
            assert!(enc.encode(n as u32).is_none());
        }
    }
}

#[test]
fn decode_err() {
    for (_, dec, charset) in CHARSETS {
        for c in (char::MIN..).take(1024) {
            if !charset.contains(c) {
                assert!(dec.decode(c).is_none());
            }
        }
    }
}

#[test]
fn case_sensitive_letters() {
    assert!(Alphabetic.decode('a').is_none());
    assert!(Alphanumeric.decode('z').is_none());
    assert!(NumericX.decode('x').is_none());
    assert_eq!(Alphanumeric.decode('Z').unwrap(), [35]);
    assert_eq!(AlphanumericAst.encode(36), Some('*'));
    assert_eq!(AlphanumericAst.encode(37), None);
}
