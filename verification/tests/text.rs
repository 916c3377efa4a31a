use procdog::text::{chars_of, decimal_string, is_whitespace, parse_i32, string_of, trim, trim_bounds};

fn parsed(s: &str) -> Option<i32> {
    let chars: Vec<char> = s.chars().collect();
    parse_i32(&chars)
}

#[test]
fn white_space_is_the_unicode_property() {
    for u in 0..=0x10FFFFu32 {
        if let Some(c) = char::from_u32(u) {
            assert_eq!(is_whitespace(c), c.is_whitespace(), "U+{:04X}", u);
        }
    }
}

#[test]
fn trim_agrees_with_std() {
    let samples = [
        "",
        " ",
        "bash",
        "bash\n",
        "  bash  ",
        "\t a b \r\n",
        "\u{a0}x\u{3000}",
        "\u{2003}\u{2003}",
        "a\u{85}",
        "kworker/0:1-events",
    ];
    for s in samples {
        assert_eq!(trim(s), s.trim(), "{:?}", s);
    }
    assert_eq!(trim("  two words \n"), "two words");
}

#[test]
fn trim_bounds_cut_both_ends() {
    let chars: Vec<char> = "  ab c \n".chars().collect();
    assert_eq!(trim_bounds(&chars), (2, 6));
    let blank: Vec<char> = " \t ".chars().collect();
    let (a, b) = trim_bounds(&blank);
    assert_eq!(a, b);
    assert_eq!(trim_bounds(&[]), (0, 0));
}

#[test]
fn decimals_agree_with_std() {
    let samples = [
        "",
        "+",
        "-",
        "0",
        "-0",
        "+0",
        "+5",
        "007",
        "42",
        "-42",
        "2147483647",
        "2147483648",
        "+2147483647",
        "-2147483648",
        "-2147483649",
        "4294967296",
        "99999999999999999999999999",
        "-99999999999999999999999999",
        "12a",
        "a12",
        " 12",
        "12 ",
        "1_000",
        "--1",
        "+-1",
        "1.5",
        "１２",
        "self",
        "thread-self",
    ];
    for s in samples {
        assert_eq!(parsed(s), s.parse::<i32>().ok(), "{:?}", s);
    }
    assert_eq!(parsed("2147483647"), Some(i32::MAX));
    assert_eq!(parsed("-2147483648"), Some(i32::MIN));
    assert_eq!(parsed("2147483648"), None);
}

#[test]
fn decimal_strings_agree_with_std() {
    for v in [0, 1, 9, 10, 11, 99, 100, 12345, -1, -10, -999, i32::MAX, i32::MIN, i32::MIN + 1] {
        assert_eq!(decimal_string(v), v.to_string());
        assert_eq!(parsed(&decimal_string(v)), Some(v));
    }
}

#[test]
fn chars_and_strings_round_trip() {
    for s in ["", "a", "héllo wörld", "日本語", "a\u{fffd}b"] {
        let chars = chars_of(s);
        assert_eq!(chars, s.chars().collect::<Vec<char>>());
        assert_eq!(string_of(&chars), s);
    }
}
