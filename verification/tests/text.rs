use cognitive_memory::text::{
    comes_before, decimal_text, insert_name, join, parse_unsigned, text_between,
    NumberFault,
};

#[test]
fn numbers_are_written_in_decimal() {
    for n in [0u64, 7, 10, 99, 100, 65535, u64::MAX] {
        assert_eq!(decimal_text(n), n.to_string());
    }
}

#[test]
fn numbers_are_read_as_the_standard_library_does() {
    for s in ["0", "007", "+5", "65535", "65536", "", "+", "-", "-0", "1a", "99999999999", "999999x", "++1", " 1"] {
        match (parse_unsigned(s, 65535), s.parse::<u16>()) {
            (Ok(a), Ok(b)) => assert_eq!(a, b as u32),
            (Err(a), Err(b)) => assert_eq!(a.message(), b.to_string()),
            (a, b) => panic!("{s}: {a:?} {b:?}"),
        }
    }
}

#[test]
fn written_numbers_are_read_back() {
    for n in [0u32, 9, 10, 12345, u32::MAX] {
        assert_eq!(parse_unsigned(&decimal_text(n as u64), u32::MAX), Ok(n));
    }
}

#[test]
fn number_faults_have_words() {
    assert_eq!(NumberFault::Empty.message(), "cannot parse integer from empty string");
    assert_eq!(NumberFault::InvalidDigit.message(), "invalid digit found in string");
    assert_eq!(NumberFault::TooLarge.message(), "number too large to fit in target type");
}

#[test]
fn names_are_kept_in_order() {
    let mut names: Vec<String> = Vec::new();
    for n in ["b", "a", "b", "", "ab", "\u{e9}", "Z"] {
        insert_name(&mut names, &n.to_string());
    }
    assert_eq!(names, vec!["", "Z", "a", "ab", "b", "\u{e9}"]);
}

#[test]
fn texts_compare_as_the_standard_library_does() {
    let list = ["", "a", "ab", "b", "B", "\u{e9}", "\u{10ffff}", "\u{ffff}"];
    for a in list {
        for b in list {
            assert_eq!(comes_before(a, b), a < b);
        }
    }
}

#[test]
fn lists_are_joined() {
    let list = |l: &[&str]| l.iter().map(|s| s.to_string()).collect::<Vec<String>>();
    assert_eq!(join(&list(&[]), ", "), "");
    assert_eq!(join(&list(&["a"]), ", "), "a");
    assert_eq!(join(&list(&["a", "", "c"]), ", "), "a, , c");
}

#[test]
fn parts_of_texts_are_taken_by_character() {
    let chars: Vec<char> = "h\u{e9}llo".chars().collect();
    assert_eq!(text_between(&chars, 1, 3), "\u{e9}l");
    assert_eq!(text_between(&chars, 2, 2), "");
}
