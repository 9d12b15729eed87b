use ephpm_middleware_modules::text;

const SAMPLES: [&str; 12] = [
    "",
    " ",
    "a",
    "  Hello, World \t\n",
    "\u{a0}\u{3000}x y\u{2003}",
    "a,b,,c,",
    ",",
    "ABC-xyz-ÄÖÜ",
    "aaaa",
    "<key>:<key>",
    "no match",
    "\u{200b}zero width",
];

#[test]
fn white_space_is_unicode_white_space() {
    for code in 0..=0x10FFFFu32 {
        if let Some(c) = char::from_u32(code) {
            assert_eq!(text::white_space(c), c.is_whitespace(), "{code:#x}");
            assert_eq!(text::to_lower_char(c), c.to_ascii_lowercase(), "{code:#x}");
        }
    }
}

#[test]
fn text_operations_agree_with_str() {
    for s in SAMPLES {
        assert_eq!(text::to_lower(s), s.to_ascii_lowercase());
        assert_eq!(text::trim(s), s.trim());
        assert_eq!(text::trim_start(s), s.trim_start());
        assert_eq!(text::split(s, ','), s.split(',').collect::<Vec<_>>());
        assert_eq!(text::contains_char(s, 'l'), s.contains('l'));
        for t in SAMPLES {
            assert_eq!(text::same(s, t), s == t);
            assert_eq!(text::eq_ignore_case(s, t), s.eq_ignore_ascii_case(t));
            assert_eq!(text::starts_with(s, t), s.starts_with(t));
            assert_eq!(text::contains(s, t), s.contains(t));
            if !t.is_empty() {
                assert_eq!(text::replace(s, t, "<>"), s.replace(t, "<>"));
            }
        }
    }
    assert_eq!(text::replace("aaaaa", "aa", "b"), "bba");
    assert_eq!(text::replace("x<key>y<key>", "<key>", "<key><key>"), "x<key><key>y<key><key>");
}

#[test]
fn numbers_are_decimal() {
    for n in [0, 7, 9, 10, 99, 100, 1234567890, u64::MAX] {
        assert_eq!(text::number(n), n.to_string());
    }
}

#[test]
fn small_numbers_are_read_as_str_parse_does() {
    for s in [
        "", "+", "-", "0", "7", "+7", "-7", "-0", "255", "256", "007", "+000255", "+0256", "1000",
        "99999999999999999999", "1a", "a1", " 1", "1 ", "٣", "++1",
    ] {
        assert_eq!(text::parse_u8(s), s.parse::<u8>().ok(), "{s:?}");
    }
}
