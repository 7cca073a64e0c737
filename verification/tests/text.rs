use ollama_shepherd::text::{
    ascii_capitalize, capitalize, chars_of, less, nth_part, parse_number, same, split_once,
    to_decimal, trim, white,
};

#[test]
fn white_space_is_that_of_std() {
    for u in 0..0x11_0000u32 {
        if let Some(c) = char::from_u32(u) {
            assert_eq!(white(c), c.is_whitespace(), "{u:x}");
        }
    }
}

#[test]
fn trim_takes_white_space_off_both_ends() {
    for s in ["", " ", "a", "  a b\t", "\u{3000}x\u{a0}", " \n ", "é ", "\u{200b}y"] {
        assert_eq!(trim(s), s.trim());
        assert_eq!(trim(trim(s)), trim(s));
    }
}

#[test]
fn characters_in_order() {
    assert_eq!(chars_of("aé…"), vec!['a', 'é', '…']);
    assert!(chars_of("").is_empty());
}

#[test]
fn capitals() {
    assert_eq!(capitalize("weekly"), "Weekly");
    assert_eq!(capitalize(""), "");
    assert_eq!(capitalize("éa"), "Éa");
    assert_eq!(capitalize("ßa"), "SSa");
    assert_eq!(ascii_capitalize("weekly"), "Weekly");
    assert_eq!(ascii_capitalize("Weekly"), "Weekly");
    assert_eq!(ascii_capitalize("4h"), "4h");
    assert_eq!(ascii_capitalize("éa"), "éa");
    assert_eq!(ascii_capitalize(""), "");
}

#[test]
fn equality_of_texts() {
    assert!(same("abc", "abc"));
    assert!(same("", ""));
    assert!(!same("abc", "abd"));
    assert!(!same("abc", "ab"));
}

#[test]
fn order_of_texts_is_that_of_std() {
    let all = ["", "a", "ab", "b", "Z", "é", "\u{ffff}", "\u{10000}", "aé", "a\u{10000}"];
    for a in all {
        for b in all {
            assert_eq!(less(a, b), a < b);
        }
    }
}

#[test]
fn halves_at_the_first_comma() {
    assert_eq!(split_once("a,b,c", ','), Some(("a", "b,c")));
    assert_eq!(split_once(",", ','), Some(("", "")));
    assert_eq!(split_once("abc", ','), None);
    assert_eq!(split_once("é,ü", ','), Some(("é", "ü")));
}

#[test]
fn parts_between_dots() {
    assert_eq!(nth_part("1.2.3", '.', 0), Some("1"));
    assert_eq!(nth_part("1.2.3", '.', 2), Some("3"));
    assert_eq!(nth_part("1.2.3", '.', 3), None);
    assert_eq!(nth_part("", '.', 0), Some(""));
    assert_eq!(nth_part("a.", '.', 1), Some(""));
}

#[test]
fn numbers_are_those_of_std() {
    for s in [
        "0", "7", "007", "+5", "+", "-1", "", "1a", " 1", "18446744073709551615",
        "18446744073709551616", "99999999999999999999999", "00000000000000000000001", "++1", "١",
    ] {
        assert_eq!(parse_number(s), s.parse::<u64>().ok(), "{s}");
    }
}

#[test]
fn decimals_are_those_of_std() {
    for n in [0u128, 9, 10, 401, 1_000_000, u64::MAX as u128, u128::MAX] {
        assert_eq!(to_decimal(n), n.to_string());
    }
    assert_eq!(parse_number(&to_decimal(u64::MAX as u128)), Some(u64::MAX));
}

#[test]
fn capitals_stay_capitals() {
    for s in ["", "weekly", "Weekly", "4h", "ßa", "éa", "ŉ", "ΐx"] {
        assert_eq!(capitalize(&capitalize(s)), capitalize(s));
    }
}
