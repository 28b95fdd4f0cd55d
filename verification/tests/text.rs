use coach::fields::find_comma;
use coach::text::{
    eq_ignore_case, eq_ignore_case_chars, is_white_space, lower, to_chars, trim, trim_bounds,
};

#[test]
fn white_space_is_what_unicode_says() {
    let mut code: u32 = 0;
    while code <= 0x10ffff {
        if let Some(c) = char::from_u32(code) {
            assert_eq!(is_white_space(c), c.is_whitespace(), "U+{:04X}", code);
        }
        code += 1;
    }
}

#[test]
fn white_space_examples() {
    assert!(is_white_space(' '));
    assert!(is_white_space('\t'));
    assert!(is_white_space('\n'));
    assert!(is_white_space('\r'));
    assert!(is_white_space('\u{a0}'));
    assert!(is_white_space('\u{3000}'));
    assert!(!is_white_space(','));
    assert!(!is_white_space('a'));
    assert!(!is_white_space('\u{200b}'));
    assert!(!is_white_space('\u{1c}'));
}

#[test]
fn lower_folds_ascii_capitals_only() {
    let mut code: u32 = 0;
    while code <= 0x10ffff {
        if let Some(c) = char::from_u32(code) {
            assert_eq!(lower(c), c.to_ascii_lowercase(), "U+{:04X}", code);
        }
        code += 1;
    }
    assert_eq!(lower('A'), 'a');
    assert_eq!(lower('Z'), 'z');
    assert_eq!(lower('m'), 'm');
    assert_eq!(lower('@'), '@');
    assert_eq!(lower('['), '[');
    assert_eq!(lower('\u{c9}'), '\u{c9}');
}

#[test]
fn to_chars_lists_the_characters() {
    assert_eq!(to_chars("a\u{f1}b"), vec!['a', '\u{f1}', 'b']);
    assert_eq!(to_chars(""), Vec::<char>::new());
}

#[test]
fn trim_removes_white_space_at_both_ends() {
    assert_eq!(trim("  cat  "), "cat");
    assert_eq!(trim("cat"), "cat");
    assert_eq!(trim("\t a b \r\n"), "a b");
    assert_eq!(trim(""), "");
    assert_eq!(trim(" \t\n"), "");
    assert_eq!(trim("\u{a0}\u{e9}t\u{e9}\u{2003}"), "\u{e9}t\u{e9}");
    assert_eq!(trim("\u{200b} x"), "\u{200b} x");
}

#[test]
fn trim_agrees_with_the_standard_library() {
    let samples = [
        "",
        " ",
        "a",
        " a",
        "a ",
        "  a  b  ",
        "\n\n",
        "yes\n",
        "\u{85}x\u{85}",
        "\u{2028}\u{2029}word\u{1680}",
        "\u{3000}\u{65e5}\u{672c}\u{8a9e}\u{3000}",
        "no\r\n",
    ];
    for s in samples.iter() {
        assert_eq!(trim(s), s.trim());
    }
}

#[test]
fn trim_bounds_of_a_part() {
    let chars = to_chars("ab,  cd ,e");
    assert_eq!(trim_bounds(&chars, 3, 8), (5, 7));
    assert_eq!(trim_bounds(&chars, 0, 2), (0, 2));
    assert_eq!(trim_bounds(&chars, 3, 5), (5, 5));
    assert_eq!(trim_bounds(&chars, 4, 4), (4, 4));
}

#[test]
fn find_comma_stops_at_the_next_comma() {
    let chars = to_chars("ab,,cd");
    assert_eq!(find_comma(&chars, 0), 2);
    assert_eq!(find_comma(&chars, 2), 2);
    assert_eq!(find_comma(&chars, 3), 3);
    assert_eq!(find_comma(&chars, 4), 6);
    assert_eq!(find_comma(&chars, 6), 6);
}

#[test]
fn eq_ignore_case_examples() {
    assert!(eq_ignore_case("Paris", "PARIS"));
    assert!(eq_ignore_case("", ""));
    assert!(!eq_ignore_case("Paris", "Pari"));
    assert!(!eq_ignore_case("Pari", "Paris"));
    assert!(!eq_ignore_case("a", "b"));
    assert!(!eq_ignore_case("@", "`"));
    assert!(!eq_ignore_case("[", "{"));
    assert!(eq_ignore_case_chars("GaTo", &vec!['g', 'A', 't', 'O']));
    assert!(!eq_ignore_case_chars("gato", &vec!['g', 'a', 't']));
}

#[test]
fn eq_ignore_case_agrees_with_the_standard_library() {
    let samples = [
        "", "a", "A", "b", "ab", "AB", "aB", "abc", "\u{e9}", "\u{c9}", "k", "\u{212a}", "ma\u{f1}ana",
        "MA\u{f1}ANA", "MA\u{d1}ANA", "z", "Z", "{", "[", "@", "`", "stra\u{df}e", "STRASSE",
    ];
    for a in samples.iter() {
        for b in samples.iter() {
            assert_eq!(eq_ignore_case(a, b), a.eq_ignore_ascii_case(b), "{:?} {:?}", a, b);
        }
    }
}
