use newbbs::text::{
    cat, cat3, cat4, chars_of, contains_char, contains_space, contains_text, eq_nocase, join, le,
    lines, repeat, same, slice_of, space, split, split_once_space, starts_with, string_of,
    strip_leading, trim, trim_end, trim_start, words,
};

#[test]
fn white_space_is_what_unicode_says() {
    for n in 0..=0x10ffff_u32 {
        if let Some(c) = char::from_u32(n) {
            assert_eq!(space(c), c.is_whitespace(), "{n:#x}");
        }
    }
}

const SAMPLES: [&str; 12] = [
    "",
    " ",
    "a",
    " a b ",
    "one\ntwo\r\nthree",
    "\n\n",
    "tail\n",
    "#chan",
    "##x",
    "\u{a0}padded\u{2003}",
    "héllo wörld",
    "a\r\nb\r",
];

#[test]
fn trimming_and_splitting_agree_with_the_standard_library() {
    for s in SAMPLES {
        assert_eq!(trim(s), s.trim());
        assert_eq!(trim_start(s), s.trim_start());
        assert_eq!(trim_end(s), s.trim_end());
        assert_eq!(words(s), s.split_whitespace().collect::<Vec<_>>());
        assert_eq!(lines(s), s.lines().collect::<Vec<_>>());
        assert_eq!(split(s, '\n'), s.split('\n').collect::<Vec<_>>());
        assert_eq!(strip_leading(s, '#'), s.trim_start_matches('#'));
        assert_eq!(contains_space(s), s.contains(char::is_whitespace));
        assert_eq!(
            split_once_space(s),
            s.split_once(char::is_whitespace).map(|(a, b)| (a.to_string(), b.to_string()))
        );
        assert_eq!(chars_of(s), s.chars().collect::<Vec<_>>());
        assert_eq!(string_of(&chars_of(s)), s);
        for t in SAMPLES {
            assert_eq!(contains_text(s, t), s.contains(t), "{s:?} {t:?}");
            assert_eq!(starts_with(s, t), s.starts_with(t));
            assert_eq!(same(s, t), s == t);
            assert_eq!(le(s, t), s <= t);
            assert_eq!(eq_nocase(s, t), s.eq_ignore_ascii_case(t));
        }
    }
}

#[test]
fn putting_texts_together() {
    assert_eq!(cat("a", "b"), "ab");
    assert_eq!(cat3("a", "", "c"), "ac");
    assert_eq!(cat4("a", "b", "c", "d"), "abcd");
    assert_eq!(repeat('─', 3), "───");
    assert_eq!(join(&vec!["a".to_string(), "b".to_string()], ", "), "a, b");
    assert_eq!(join(&vec![], ", "), "");
    assert!(contains_char("héllo", 'é'));
    assert_eq!(slice_of(&chars_of("héllo"), 1, 3), "él");
}

#[test]
fn only_ascii_letters_are_folded() {
    assert!(eq_nocase("Admin", "aDMIN"));
    assert!(!eq_nocase("É", "é"));
}
