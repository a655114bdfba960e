use orexis::text::{
    decimal_string, parse_u32, replace_char, str_eq, str_lt, strip_suffix_char,
    trim_start_char, trim_white_space,
};

#[test]
fn decimal_renders_numbers() {
    assert_eq!(decimal_string(0), "0");
    assert_eq!(decimal_string(7), "7");
    assert_eq!(decimal_string(1203), "1203");
    assert_eq!(decimal_string(u32::MAX), "4294967295");
}

#[test]
fn decimal_reads_back() {
    for n in [0u32, 9, 10, 99, 100, 65535, 123456789, u32::MAX] {
        assert_eq!(parse_u32(&decimal_string(n)), Some(n));
    }
}

#[test]
fn replace_turns_every_match() {
    assert_eq!(replace_char("CRIT Rate%", '%', '_'), "CRIT Rate_");
    assert_eq!(replace_char("%a%%", '%', '_'), "_a__");
    assert_eq!(replace_char("", '%', '_'), "");
    assert_eq!(replace_char("Ätk%", '%', '_'), "Ätk_");
}

#[test]
fn strip_suffix_removes_one_char() {
    assert_eq!(strip_suffix_char("HP%", '%'), Some("HP".to_string()));
    assert_eq!(strip_suffix_char("HP%%", '%'), Some("HP%".to_string()));
    assert_eq!(strip_suffix_char("HP", '%'), None);
    assert_eq!(strip_suffix_char("", '%'), None);
}

#[test]
fn trim_start_removes_every_leading_char() {
    assert_eq!(trim_start_char("v1.2.3", 'v'), "1.2.3");
    assert_eq!(trim_start_char("vv1", 'v'), "1");
    assert_eq!(trim_start_char("1v", 'v'), "1v");
    assert_eq!(trim_start_char("vvv", 'v'), "");
}

#[test]
fn str_lt_orders_like_std() {
    let words = ["", "a", "ab", "b", "B", "0.9.1", "0.10.0", "é", "z"];
    for a in words {
        for b in words {
            assert_eq!(str_lt(a, b), a < b, "{a:?} < {b:?}");
            assert_eq!(str_eq(a, b), a == b);
        }
    }
}

#[test]
fn trim_white_space_matches_std() {
    for s in ["  12 ", "\t\n7\r", "\u{3000}5\u{2029}", "x y", "", "   "] {
        assert_eq!(trim_white_space(s), s.trim());
    }
}

#[test]
fn parse_u32_matches_std() {
    for s in ["0", "+5", "42", "4294967295", "4294967296", "-1", "", "+", "1a", "007", "99999999999"] {
        assert_eq!(parse_u32(s), s.parse::<u32>().ok(), "{s:?}");
    }
}
