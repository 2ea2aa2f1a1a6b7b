use noir_analyzer::text::{
    char_is_whitespace, chars_of, push_decimal, push_spaces, split_lines, str_equal, trim,
};

#[test]
fn equal_strings_are_told_from_different_ones() {
    assert!(str_equal("", ""));
    assert!(str_equal("foo", "foo"));
    assert!(str_equal("héllo€", "héllo€"));
    assert!(!str_equal("foo", "fo"));
    assert!(!str_equal("fo", "foo"));
    assert!(!str_equal("foo", "fob"));
    assert!(!str_equal("foo", "Foo"));
    assert!(!str_equal("", "a"));
}

#[test]
fn chars_of_a_text() {
    assert_eq!(chars_of(""), Vec::<char>::new());
    assert_eq!(chars_of("aé€"), vec!['a', 'é', '€']);
}

#[test]
fn white_space_is_what_std_says() {
    for code in 0..=0x11_0000u32 {
        if let Some(c) = char::from_u32(code) {
            assert_eq!(char_is_whitespace(c), c.is_whitespace(), "U+{:04X}", code);
        }
    }
}

#[test]
fn trim_is_what_std_does() {
    for text in [
        "",
        " ",
        "a",
        "  a  ",
        "\t\n a b \r\n",
        "\u{a0}x\u{3000}",
        " \u{2028} ",
        "x y",
        "\u{feff}x",
        "  é€  ",
    ] {
        assert_eq!(trim(text), text.trim(), "{:?}", text);
    }
}

#[test]
fn lines_are_what_std_gives() {
    for text in [
        "",
        "\n",
        "\r\n",
        "\r",
        "a",
        "a\n",
        "a\r\n",
        "a\r",
        "a\nb",
        "a\n\nb\n",
        "a\r\n\r\nb",
        "a\n\rb",
        "a\r\rb\r\n",
        "\n\n\n",
        "é€\nx",
        "  fn foo() {}\n  ",
    ] {
        let expected: Vec<&str> = text.lines().collect();
        assert_eq!(split_lines(text), expected, "{:?}", text);
    }
}

#[test]
fn lines_of_a_text_with_three_lines() {
    assert_eq!(split_lines("one\r\ntwo\n\nfour"), vec!["one", "two", "", "four"]);
}

#[test]
fn decimal_of_numbers() {
    for (value, expected) in [
        (0u64, "0"),
        (7, "7"),
        (9, "9"),
        (10, "10"),
        (42, "42"),
        (100, "100"),
        (4294967296, "4294967296"),
        (u64::MAX, "18446744073709551615"),
    ] {
        let mut out = String::from("n=");
        push_decimal(&mut out, value);
        assert_eq!(out, format!("n={}", expected));
    }
}

#[test]
fn spaces_are_written_at_the_end() {
    let mut out = String::from("|");
    push_spaces(&mut out, 0);
    assert_eq!(out, "|");
    push_spaces(&mut out, 3);
    assert_eq!(out, "|   ");
    push_spaces(&mut out, 1);
    assert_eq!(out, "|    ");
}
