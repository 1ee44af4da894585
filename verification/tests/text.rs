use lxr_core::util::text::{
    decimal_string, has_char, is_ascii, parse_signed, parse_u16, parse_unsigned, parse_usize, same,
    split, strip_prefix, words, IntError,
};

#[test]
fn splitting_agrees_with_std() {
    for s in ["", ",", "a", "a,b", ",a,,b,", "\u{e4},\u{1f600},x"] {
        assert_eq!(split(s, ','), s.split(',').collect::<Vec<_>>());
    }
}

#[test]
fn words_agree_with_std() {
    for s in ["", " ", "a", " a,b\tc\n", "a\x0cb\rc", ",,a,\u{a0}b,"] {
        let replaced = s.replace(",", " ");
        assert_eq!(words(s), replaced.split_ascii_whitespace().collect::<Vec<_>>());
    }
}

#[test]
fn numbers_agree_with_std() {
    let texts = [
        "", "+", "-", "0", "-0", "+7", "007", "255", "65535", "65536", "-1", "--1", "1a", "a",
        "2147483647", "2147483648", "-2147483648", "-2147483649", "18446744073709551615",
        "18446744073709551616", "99999999999999999999x", "1x99999999999999999999", " 1", "\u{663}",
        "-99999999999x", "+-1",
    ];
    for s in texts {
        let ours = parse_unsigned(s, u64::MAX).map_err(|e| e.message());
        assert_eq!(ours, s.parse::<u64>().map_err(|e| e.to_string()), "{:?}", s);
        let ours = parse_usize(s).map_err(|e| e.message());
        assert_eq!(ours, s.parse::<usize>().map_err(|e| e.to_string()), "{:?}", s);
        let ours = parse_u16(s).map_err(|e| e.message());
        assert_eq!(ours, s.parse::<u16>().map_err(|e| e.to_string()), "{:?}", s);
        let ours = parse_signed(s).map_err(|e| e.message());
        assert_eq!(ours, s.parse::<i32>().map_err(|e| e.to_string()), "{:?}", s);
    }
    assert_eq!(parse_unsigned("9", 8), Err(IntError::PosOverflow));
    assert_eq!(parse_signed("-2147483649"), Err(IntError::NegOverflow));
}

#[test]
fn decimals_agree_with_std() {
    for n in [0, 9, 10, 101, 65536, u64::MAX] {
        assert_eq!(decimal_string(n), n.to_string());
        assert_eq!(parse_unsigned(&decimal_string(n), u64::MAX), Ok(n));
    }
}

#[test]
fn comparisons_agree_with_std() {
    for a in ["", "a", "ab", "MMTK_X", "\u{e4}"] {
        for b in ["", "a", "b", "ab", "MMTK_", "\u{e4}x"] {
            assert_eq!(same(a, b), a == b);
            assert_eq!(strip_prefix(a, b), a.strip_prefix(b));
        }
        assert_eq!(has_char(a, 'b'), a.contains('b'));
        assert_eq!(is_ascii(a), a.is_ascii());
    }
}
