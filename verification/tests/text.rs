use broforce::text::{
    chars_of, dec, dec_i32, eq_ignore_ascii_case, hex, hex_fixed, join_lines, maybe_i32, maybe_u64,
    parse_i32, trim, white,
};

#[test]
fn formats_numbers() {
    for v in [0u64, 9, 10, 15, 16, 255, 256, 0xABCDEF, u32::MAX as u64, u64::MAX] {
        assert_eq!(hex(v), format!("{v:X}"));
        assert_eq!(dec(v), format!("{v}"));
        assert_eq!(maybe_u64(Some(v)), format!("{:?}", Some(v)));
    }
    assert_eq!(hex_fixed(0x38, 2), "38");
    assert_eq!(hex_fixed(0, 2), "00");
    assert_eq!(hex_fixed(0x18B1DD844E0, 16), "0000018B1DD844E0");
    for v in [0, 1, -1, 999, -999, i32::MAX, i32::MIN] {
        assert_eq!(dec_i32(v), format!("{v}"));
        assert_eq!(maybe_i32(Some(v)), format!("{:?}", Some(v)));
    }
    assert_eq!(maybe_u64(None), "None");
    assert_eq!(maybe_i32(None), "None");
}

#[test]
fn white_space_is_that_of_unicode() {
    for n in 0..=0x10FFFF {
        if let Some(c) = char::from_u32(n) {
            assert_eq!(white(c), c.is_whitespace(), "U+{n:04X}");
        }
    }
}

#[test]
fn trims_both_ends() {
    for s in ["", " ", "a", "  a b\t\n", "\u{3000}Broforce.exe\u{a0}", "\u{200b}x\u{200b}", " é "] {
        assert_eq!(trim(s), s.trim());
    }
}

#[test]
fn parses_integers_as_std_does() {
    for s in [
        "", "+", "-", "0", "-0", "+0", "007", "999", "+999", "-999", "2147483647", "2147483648",
        "-2147483648", "-2147483649", "00000000000000000001", "99999999999999999999", "1 2", "1_000",
        "0x10", "--1", "+-1", "１", "１２", "1.0", " 1",
    ] {
        assert_eq!(parse_i32(s), s.parse::<i32>().ok(), "{s:?}");
    }
}

#[test]
fn compares_up_to_ascii_case() {
    assert!(eq_ignore_ascii_case("Broforce_Beta.EXE", "broforce_beta.exe"));
    assert!(!eq_ignore_ascii_case("Broforce_beta.exe", "Broforce.exe"));
    assert!(!eq_ignore_ascii_case("É", "é"));
    assert!(!eq_ignore_ascii_case("@", "`"));
    assert!(eq_ignore_ascii_case("[É]", "[É]"));
}

#[test]
fn comparing_is_an_equivalence() {
    let (a, b, c) = ("MONO.dll", "mono.DLL", "Mono.Dll");
    assert!(eq_ignore_ascii_case(a, a));
    assert!(eq_ignore_ascii_case(a, b) && eq_ignore_ascii_case(b, a));
    assert!(eq_ignore_ascii_case(b, c) && eq_ignore_ascii_case(a, c));
}

#[test]
fn joins_lines() {
    let lines = |v: &[&str]| join_lines(&v.iter().map(|s| s.to_string()).collect());
    assert_eq!(lines(&[]), "");
    assert_eq!(lines(&["a"]), "a");
    assert_eq!(lines(&["a", "", "b"]), "a\n\nb");
}

#[test]
fn splits_into_characters() {
    assert_eq!(chars_of("a·✓"), vec!['a', '·', '✓']);
}
