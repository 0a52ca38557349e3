use transcribe_cli::text::{
    decimal_text, is_before, normalize_word, parse_usize, replace_text, signed_decimal_text,
    split_lines, split_words, to_ascii_lower,
};

#[test]
fn words_are_parted_by_every_kind_of_white_space() {
    for code in 0..=0x10FFFFu32 {
        if let Some(c) = char::from_u32(code) {
            if c.is_whitespace() {
                assert_eq!(split_words(&format!("a{c}b")), vec!["a", "b"]);
            }
        }
    }
    let text = " one\u{a0}two\tthree\u{200b}x \n";
    assert_eq!(split_words(text), text.split_whitespace().collect::<Vec<_>>());
    assert!(split_words(" \n").is_empty());
}

#[test]
fn words_are_normalized_by_letters_and_digits() {
    let expected = |word: &str| -> String {
        word.chars().filter(|c| c.is_alphanumeric()).flat_map(char::to_lowercase).collect()
    };
    for word in ["Hello,", "ПРИВЕТ!", "İx", "ǅ", "١٢a", "--", "Straße", "ΑΣ"] {
        assert_eq!(normalize_word(word), expected(word));
    }
}

#[test]
fn lowering_touches_ascii_only() {
    assert_eq!(to_ascii_lower("AbZ[Ы"), "abz[Ы");
}

#[test]
fn replacing_goes_from_left_to_right() {
    for (text, pattern, with) in [
        ("aaa", "aa", "b"),
        ("▁a▁", "▁", " "),
        ("abc", "", "-"),
        ("", "", "-"),
        ("abc", "x", "y"),
        ("a\nb\n", "\n", " "),
    ] {
        assert_eq!(replace_text(text, pattern, with), text.replace(pattern, with));
    }
}

#[test]
fn lines_end_at_line_feeds() {
    assert_eq!(split_lines("a\n\nb"), vec!["a", "", "b"]);
    assert_eq!(split_lines("a\n"), vec!["a"]);
    assert!(split_lines("").is_empty());
}

#[test]
fn numbers_read_as_they_are_written() {
    for n in [0u64, 7, 10, 99, 100, u64::MAX] {
        assert_eq!(decimal_text(n), n.to_string());
    }
    for n in [0i64, -1, 42, i64::MIN, i64::MAX] {
        assert_eq!(signed_decimal_text(n), n.to_string());
    }
    let too_large = format!("{}0", usize::MAX);
    let greatest = usize::MAX.to_string();
    let large_first = format!("{too_large}x");
    let faulty_first = format!("x{too_large}");
    let faulty_at_the_limit = format!("{greatest}x");
    for text in [
        "0",
        "007",
        "+5",
        "",
        "+",
        "-",
        "-1",
        "++1",
        "1 ",
        "1_0",
        "٣",
        &too_large,
        &greatest,
        &large_first,
        &faulty_first,
        &faulty_at_the_limit,
    ] {
        let expected = text.parse::<usize>().map_err(|error| error.to_string());
        assert_eq!(parse_usize(text).map_err(|error| error.message().to_string()), expected);
    }
}

#[test]
fn texts_are_ordered_as_strings_are() {
    let texts = ["", "a", "ab", "b", "B", "é", "z", "日本", "a.b", "a-b"];
    for left in texts {
        for right in texts {
            assert_eq!(is_before(left, right), left < right);
        }
    }
}
