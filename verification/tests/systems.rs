use iso_7064::accumulator::Accumulator;
use iso_7064::charset::{Decoder, Encoder};
use iso_7064::system::{Mod11_2, Mod1271_36, System, VerifyErrorKind};
use iso_7064::{
    MOD11_2, MOD11_10, MOD1271_36, MOD27_26, MOD37_2, MOD37_36, MOD661_26, MOD97_10,
};

fn prepared_inner<const N_CC: usize, Acc, Enc, Dec>(
    sys: &System<N_CC, Acc, Enc, Dec>,
    valid: &[&str],
    invalid: &[&str],
) where
    Acc: Accumulator<N_CC>,
    Enc: Encoder,
    Dec: Decoder,
{
    for &s in valid {
        assert!(sys.verify(s).unwrap());
        assert!(sys.verify_lax(s));
        let chars: Vec<char> = s.chars().collect();
        assert!(sys.verify_from_chars(&chars).unwrap());

        let (u, cc) = s.split_at(s.len() - N_CC);
        let u_chars: Vec<char> = u.chars().collect();
        assert!(cc.chars().eq(sys.compute(u).unwrap()));
        assert!(cc.chars().eq(sys.compute_lax(u)));
        assert!(cc.chars().eq(sys.compute_from_chars(&u_chars).unwrap()));
    }

    for &s in invalid {
        assert!(!sys.verify(s).unwrap());
        assert!(!sys.verify_lax(s));
        let chars: Vec<char> = s.chars().collect();
        assert!(!sys.verify_from_chars(&chars).unwrap());

        let (u, cc) = s.split_at(s.len() - N_CC);
        let u_chars: Vec<char> = u.chars().collect();
        assert!(!cc.chars().eq(sys.compute(u).unwrap()));
        assert!(!cc.chars().eq(sys.compute_lax(u)));
        assert!(!cc.chars().eq(sys.compute_from_chars(&u_chars).unwrap()));
    }
}

#[test]
fn examples_mod11_2() {
    assert_eq!(MOD11_2.compute("0794").unwrap(), ['0']);
    assert_eq!(MOD11_2.compute_lax("0794"), ['0']);
    assert_eq!(MOD11_2.compute_lax("{0-7-9-4}"), ['0']);

    assert!(MOD11_2.verify("07940").unwrap());
    assert!(MOD11_2.verify_lax("07940"));
    assert!(MOD11_2.verify_lax("{0-7-9-4}[0]"));

    assert_eq!(MOD11_2.compute("079").unwrap(), ['X']);
    assert_eq!(MOD11_2.compute_lax("079"), ['X']);
    assert_eq!(MOD11_2.compute_lax("{0-7-9}"), ['X']);

    assert!(MOD11_2.verify("079X").unwrap());
    assert!(MOD11_2.verify_lax("079X"));
    assert!(MOD11_2.verify_lax("{0-7-9}[X]"));
}

#[test]
fn examples_mod97_10() {
    assert_eq!(MOD97_10.compute("794").unwrap(), ['4', '4']);
    assert_eq!(MOD97_10.compute_lax("794"), ['4', '4']);
    assert_eq!(MOD97_10.compute_lax("{7-9-4}"), ['4', '4']);

    assert!(MOD97_10.verify("79444").unwrap());
    assert!(MOD97_10.verify_lax("79444"));
    assert!(MOD97_10.verify_lax("{7-9-4}[4, 4]"));
}

#[test]
fn examples_mod1271_36() {
    assert_eq!(MOD1271_36.compute("ISO79").unwrap(), ['3', 'W']);
    assert_eq!(MOD1271_36.compute_lax("ISO79"), ['3', 'W']);
    assert_eq!(MOD1271_36.compute_lax("ISO 79"), ['3', 'W']);
    assert_eq!(MOD1271_36.compute_lax("{I-S-O 7-9}"), ['3', 'W']);

    assert!(MOD1271_36.verify("ISO793W").unwrap());
    assert!(MOD1271_36.verify_lax("ISO793W"));
    assert!(MOD1271_36.verify_lax("ISO 793W"));
    assert!(MOD1271_36.verify_lax("{I-S-O 7-9}[3, W]"));
}

#[test]
fn examples_mod11_10() {
    assert_eq!(MOD11_10.compute("0794").unwrap(), ['5']);
    assert_eq!(MOD11_10.compute_lax("0794"), ['5']);
    assert_eq!(MOD11_10.compute_lax("{0-7-9-4}"), ['5']);

    assert!(MOD11_10.verify("07945").unwrap());
    assert!(MOD11_10.verify_lax("07945"));
    assert!(MOD11_10.verify_lax("{0-7-9-4}[5]"));
}

#[test]
fn prepared_mod11_2() {
    let valid = &[
        "5236022646915810116849",
        "845064805931988",
        "85304841090903666744",
        "337688112X",
        "92004002654",
        "21030484337645X",
        "41818941714",
        "30465694",
        "91184666177593810018",
        "17541621184078843",
        "43494101",
        "11195647730159049192304",
    ];

    let invalid = &[
        "1687459121",
        "31888679450464",
        "9188124336537439",
        "42079822636786",
        "771154512981690148767X",
        "66246345130",
        "671757580705",
        "2387040463142667",
        "44369839572905",
        "527981147467713",
        "81511264248755711569723",
        "91229388880062347394",
    ];

    prepared_inner(&*MOD11_2, valid, invalid);
}

#[test]
fn prepared_mod37_2() {
    let valid = &[
        "PX4Z7MWY2YJ0LUGL29CUO",
        "3B99E8TMZLCX77R7YIEX",
        "TVBAUKJOL34ZZ4",
        "L52HZG049GKPMXOQ9",
        "E4EV3G1AEY1ISEAEQY",
        "9C9AU99B19GBB7KD2U3V*",
        "5AJQE3G82BEUD7Q41",
        "5EV36MX8ZFI4",
        "7G511LDGP53RN3QVDNB",
        "V4RL7V4E7OMW",
        "WV4XMAFC",
        "JH5LGP0C",
    ];

    let invalid = &[
        "KQATAYZTVO1LGYC7J",
        "0G8F99YCK*",
        "WN76K4IM16V",
        "U80YBMPJF3L71BDXWM9G7Q",
        "A36C7IR7FX9DA0FXU",
        "P64AFP7S7W61I8Y2OZ*",
        "XLME2YI2LB95QEMW9HV",
        "8FNA95QY0NON8O5G8SZD7B8",
        "H862IMPF6C5QT",
        "16826SC2CUM",
        "6LMBNSX15JL0",
        "1RH1UQOSY5OQSJU28MUP0U*",
    ];

    prepared_inner(&*MOD37_2, valid, invalid);
}

#[test]
fn prepared_mod97_10() {
    let valid = &[
        "4331246445963138455002",
        "2911233259",
        "4764789672",
        "43554844",
        "05917435345034747416569",
        "9366261837206291",
        "262338921851557782765",
        "922783905474546408679",
        "93719954279014181",
        "23516238132346714043",
        "40563587767431",
        "7752266839610",
    ];

    let invalid = &[
        "09827197304756",
        "4684723585",
        "5490749315043",
        "32956005",
        "42985358018829090107143",
        "2583231639143482",
        "10057126",
        "81005043673147533591",
        "600389186253702",
        "844911938825",
        "4611232777673301",
        "653007253600637706",
    ];

    prepared_inner(&*MOD97_10, valid, invalid);
}

#[test]
fn prepared_mod661_26() {
    let valid = &[
        "FSBULOLEILVNJ",
        "SICFPGUUV",
        "IRMQSMWHFDSXDXQPO",
        "TIPHZXSSMPUZARRFTE",
        "VNMVULKG",
        "BQZPCJYDUCF",
        "NCYUUZBBTAUNUL",
        "BWJVHGTKIC",
        "TFFJYFKEEGBWPEADDEA",
        "SCYMCUKLL",
        "PRBUNOAUIP",
        "JJPSKEDMBKJZ",
    ];

    let invalid = &[
        "QLMLVMME",
        "JCCPQKYDCYCMGGKUDO",
        "HZXWMOWXPAMLVGB",
        "LQPRRTHTB",
        "ZHFQHVETSNZLKQHGRWB",
        "EOOKYXQARTHWUTSJJMOZT",
        "ZWUWDYEPZNTSLQI",
        "DKYEHWOZTHTGMBECYPV",
        "BPJPJMZGASHRSNLZTWWRLZ",
        "PIKGQNCQLEAYMTUVQULQQVC",
        "SIIOQOBFIJMECNCMQBV",
        "HGXBYJGF",
    ];

    prepared_inner(&*MOD661_26, valid, invalid);
}

#[test]
fn prepared_mod1271_36() {
    let valid = &[
        "7DJO6YKPZVNMZUCMY",
        "2RAG0WGS40GUTZ0PZ",
        "ZALU8MTOAARFAI",
        "28ZGRKLKQ0I5NEXYRUYLCH4",
        "YZY2BIE08YJ",
        "M2K96UOWU8CUI9GL0",
        "X7SPAGS8GTQULHV66CF2",
        "IYOMJKMY2AVRQUC2Y8YDG",
        "UY1QB886O1OI51YO",
        "IAASX6SF4O7",
        "XLBNR9KOETXV6SYTPJ1W",
        "HHYOH4Y8L6W",
    ];

    let invalid = &[
        "EOMS5TJROR7EAD823QS8ZC",
        "HR0LI5NSSULBLI",
        "HQB7BQP4CMKPSTGAV5VJA",
        "39QYCR54",
        "GQWTGSA4ED",
        "96M4PEEYTONCB1N99O",
        "3MAL1WQFYJXQ3N",
        "9ZT8POIU26",
        "C7OG52Y3MAI3ZFJ0BM87Y0",
        "LS3Y9NFXCUUPSM06RVW06FQ",
        "5XSPZWCPYHTEJK3A4I8O72Q",
        "3M1ZN4WOJ8",
    ];

    prepared_inner(&*MOD1271_36, valid, invalid);
}

#[test]
fn prepared_mod11_10() {
    let valid = &[
        "72120953571944888637",
        "630956234645",
        "19090053234",
        "6089258076",
        "14436084789",
        "439932244435432",
        "35786443",
        "8171133511285059261",
        "13612873",
        "76819644",
        "6584712648951475",
        "18273960618480754278247",
    ];

    let invalid = &[
        "623644773245095632456",
        "954353828",
        "10097633924659319735",
        "3439643114562420",
        "324267175",
        "569965205768369754942",
        "26813819575426447116",
        "320201360",
        "996439490488298937425",
        "2109782058833871",
        "76377504913003",
        "543551782",
    ];

    prepared_inner(&*MOD11_10, valid, invalid);
}

#[test]
fn prepared_mod27_26() {
    let valid = &[
        "DNWCSEWBUSMXUHMNVEC",
        "FKNJRXARTPHMFSP",
        "JLWVIPKDZKMRENSERY",
        "ZRFJGLJRQLVOHJCCWKF",
        "GHCIBFCYI",
        "DMMWTSESBKAVQYFA",
        "ZDMTSOWIXITFONEV",
        "WXZNFPLKFAOPTSVMZBYXIXU",
        "LXMBTJOXBJPL",
        "JBVNWCIZRKRWPUGNFT",
        "LHRXBWIVW",
        "YZBROGVCIBDNNOFAB",
    ];

    let invalid = &[
        "GFBZWRJEKNLGEIJIOWFEA",
        "WQCJRWJVWIKIIKUBPNMEYD",
        "PGWQIBTKRUUHDITSINFWWK",
        "OROZGAHCJKJAKTV",
        "NJHTTTHVEAHGSXFCHEW",
        "PVKKNFOIRIECA",
        "SESQRHGOFIQMWKNHGK",
        "MRPLXNZN",
        "YSLZRNMDHWPT",
        "ESXAAHYPRHQBDQ",
        "UCGXCPIZWCRJCIKIMSJVZK",
        "QYFMMQPXIMLOAP",
    ];

    prepared_inner(&*MOD27_26, valid, invalid);
}

#[test]
fn prepared_mod37_36() {
    let valid = &[
        "6GBVUSQIFXCNTK41WO",
        "D1VOWY4VV42I2",
        "FQJA83FUO2Q2AOZ4NST0G2X",
        "74EO6Z4EJL5IMNAQJPOVEYI",
        "MSG9S4YXQ",
        "SROAMRVX991KV",
        "QH53EF8CSMHIZ69TS1HK",
        "EN5EAXIRLW1DHR42YOR",
        "UPFRXRSFEWR",
        "A97XG2LJ4JLU9LLAJEMN",
        "T4KGMICAHB08ZTPR",
        "QEVA9ODUCO",
    ];

    let invalid = &[
        "AP9A8MNRTZC59GLSXR",
        "XX59GK1HUKTFZP5B",
        "R8WYEAKDVJ4FMH",
        "PR9LJ8DJE0L",
        "5B8JO87TBSMMR1XN",
        "KS27KRVNHG4NMQU3ON5",
        "HEN88FTBS0GZBFMFXO",
        "MV9VR3QH",
        "ZWSFEZ8XFQ1XPGS18AWORFW",
        "Y51MR7862PK",
        "DWEG7LA6FMJ2CJGXMM",
        "FU8SP3V1JOTICTZ",
    ];

    prepared_inner(&*MOD37_36, valid, invalid);
}

#[test]
fn do_not_mutate_on_error() {
    let mod1271_36 = Mod1271_36::default();
    let mut buf = String::from("0 1 2 3");
    assert!(mod1271_36.protect(&mut buf).is_err());
    assert_eq!(buf, "0 1 2 3");
}

#[test]
fn reject_unexpected_suppl() {
    let mod11_2 = Mod11_2::default();
    assert!(mod11_2.compute("012X34").is_err());
    assert!(mod11_2.compute("01234X").is_err());
    assert!(mod11_2.verify("012X34").is_err());
    assert!(mod11_2.verify("01234X").is_ok());
}

#[test]
fn ignore_unexpected_suppl() {
    let mod11_2 = Mod11_2::default();
    assert_eq!(mod11_2.compute_lax("32X37"), ['X']);
    assert_eq!(mod11_2.compute_lax("3237X"), ['X']);
    assert!(mod11_2.verify_lax("32X37X"));
    assert!(mod11_2.verify_lax("3237XX"));
    assert!(mod11_2.verify_lax("3237X"));
}


#[test]
fn docs_examples() {
    assert_eq!(MOD11_2.compute("079").unwrap(), ['X']);
    assert_eq!(MOD11_2.compute_lax("{0-7-9}"), ['X']);
    assert!(MOD11_2.verify("079X").unwrap());
    assert!(MOD11_2.verify_lax("{0-7-9}[X]"));
    assert!(MOD11_2.verify_from_values(&[0, 7, 9, 10]).unwrap());
    let chars: Vec<char> = "0790".chars().collect();
    assert!(!MOD11_2.verify_from_chars(&chars).unwrap());

    let mut buf = String::from("ISO 79");
    MOD1271_36.protect_lax(&mut buf);
    assert_eq!(buf, "ISO 793W");

    let mut buf = String::from("327");
    MOD11_2.protect(&mut buf).unwrap();
    assert_eq!(buf, "327X");

    let mut buf = String::from("3.2.7.");
    MOD11_2.protect_lax(&mut buf);
    assert_eq!(buf, "3.2.7.X");

    assert_eq!(MOD37_2.compute("5S7U").unwrap(), ['G']);
    assert_eq!(MOD37_2.compute_lax("5S=7U"), ['G']);
    let chars = ['2', '0', '6', '5', '1'];
    assert_eq!(MOD11_10.compute_from_chars(&chars).unwrap(), ['8']);
    assert!(MOD661_26.verify("MVEISJV").unwrap());
    assert!(MOD661_26.verify_lax("MV-EIS:JV"));
    let chars: Vec<char> = "379368".chars().collect();
    assert!(MOD97_10.verify_from_chars(&chars).unwrap());
    assert_eq!(MOD37_36.compute_from_values(&[21, 14, 5, 34]).unwrap(), [17]);
    assert!(MOD27_26.verify_from_values(&[2, 13, 17, 11, 15]).unwrap());
}

#[test]
fn compute_error_position() {
    let err = MOD11_2.compute("01A3").unwrap_err();
    assert_eq!(err.val, 'A');
    assert_eq!(err.pos, 2);
    let err = MOD37_36.compute_from_values(&[1, 2, 36, 40]).unwrap_err();
    assert_eq!(err.val, 36);
    assert_eq!(err.pos, 2);
}

#[test]
fn verify_error_kinds() {
    let err = MOD11_2.verify("012X34").unwrap_err();
    assert_eq!(err.kind, VerifyErrorKind::UnexpectedSuppl);
    assert_eq!(err.pos, 3);
    assert_eq!(err.val, 'X');
    assert_eq!(err.kind.as_str(), "suppl check char not at end");
    let err = MOD11_2.verify("01-34").unwrap_err();
    assert_eq!(err.kind, VerifyErrorKind::NotInCharset);
    assert_eq!(err.pos, 2);
    assert_eq!(err.kind.as_str(), "char not in charset");
    let err = MOD11_2.verify_from_values(&[1, 10, 2]).unwrap_err();
    assert_eq!(err.kind, VerifyErrorKind::UnexpectedSuppl);
    assert_eq!(err.pos, 1);
}

#[test]
fn empty_input() {
    assert!(!MOD11_2.verify("").unwrap());
    assert!(!MOD11_10.verify("").unwrap());
    assert_eq!(MOD11_2.compute("").unwrap(), ['1']);
    assert_eq!(MOD11_10.compute("").unwrap(), ['1']);
    assert_eq!(MOD97_10.compute("").unwrap(), ['9', '8']);
}

#[test]
fn round_trip_all_systems() {
    fn run<const N_CC: usize, Acc: Accumulator<N_CC>, Enc: Encoder, Dec: Decoder>(
        sys: &System<N_CC, Acc, Enc, Dec>,
        inputs: &[&str],
    ) {
        for &s in inputs {
            let mut buf = String::from(s);
            sys.protect(&mut buf).unwrap();
            assert!(sys.verify(&buf).unwrap(), "{}", buf);
            let mut lax = format!("-{}-", s);
            sys.protect_lax(&mut lax);
            assert!(sys.verify_lax(&lax), "{}", lax);
        }
    }

    run(&*MOD11_2, &["", "0", "123456789", "000"]);
    run(&*MOD37_2, &["", "A", "HELLO42"]);
    run(&*MOD97_10, &["", "0", "98", "1234567890123"]);
    run(&*MOD661_26, &["", "Z", "ABCXYZ"]);
    run(&*MOD1271_36, &["", "ISO79", "ZZZZ"]);
    run(&*MOD11_10, &["", "0794", "99999"]);
    run(&*MOD27_26, &["", "CNRL", "ZZ"]);
    run(&*MOD37_36, &["", "LE5Y", "0Z0Z"]);
}

#[test]
fn lax_ignores_invalid_chars() {
    assert_eq!(MOD1271_36.compute_lax("I-S-O-7-9"), MOD1271_36.compute("ISO79").unwrap());
    assert_eq!(MOD97_10.compute_lax("7a9b4"), ['4', '4']);
    assert!(MOD97_10.verify_lax("(79444)"));
}

#[test]
fn lax_is_strict_on_processed_chars() {
    let s = "07-9X4 ab";
    assert_eq!(MOD11_2.compute_lax(s), MOD11_2.compute("0794").unwrap());
    assert_eq!(MOD11_2.verify_lax(s), MOD11_2.verify("0794").unwrap());
    let s = "0X7-9X";
    assert_eq!(MOD11_2.compute_lax(s), MOD11_2.compute("079").unwrap());
    assert_eq!(MOD11_2.verify_lax(s), MOD11_2.verify("079X").unwrap());
    assert!(MOD11_2.verify_lax(s));
    let s = "079X-";
    assert_eq!(MOD11_2.verify_lax(s), MOD11_2.verify("079X").unwrap());
    let s = "3*7U*A";
    assert_eq!(MOD37_2.compute_lax(s), MOD37_2.compute("37UA").unwrap());
    assert_eq!(MOD37_2.verify_lax(s), MOD37_2.verify("37UA").unwrap());
}

#[test]
fn single_check_char_is_unique() {
    fn run<Acc: Accumulator<1>, Enc: Encoder, Dec: Decoder>(
        sys: &System<1, Acc, Enc, Dec>,
        u: &str,
        charset: &str,
    ) {
        let cc = sys.compute(u).unwrap();
        for c in charset.chars() {
            let s = format!("{}{}", u, c);
            assert_eq!(sys.verify(&s).unwrap(), [c] == cc, "{}", s);
        }
    }

    run(&*MOD11_2, "0794", "0123456789X");
    run(&*MOD11_2, "", "0123456789X");
    run(&*MOD37_2, "5S7U", "0123456789ABCDEFGHIJKLMNOPQRSTUVWXYZ*");
    run(&*MOD11_10, "2065", "0123456789");
    run(&*MOD27_26, "CNRL", "ABCDEFGHIJKLMNOPQRSTUVWXYZ");
    run(&*MOD37_36, "LE5Y", "0123456789ABCDEFGHIJKLMNOPQRSTUVWXYZ");
}
