use warp_ssh::text::{
    chars_of, is_whitespace, join_from, push_decimal, push_signed_decimal, replace_char,
    same_text, split_lines, split_words, starts_with, take_before, text_of, trimmed,
    without_trailing,
};

const SAMPLES: [&str; 16] = [
    "",
    "\n",
    "\r\n",
    "a",
    "a\n",
    "a\r",
    "a\r\nb",
    "a\n\nb\n",
    "a\rb\n\r\n",
    " a  b ",
    "\t\u{3000}x\u{a0}y\u{2003}",
    "x -> y -> z",
    " -> x",
    "x ->",
    "h\u{e9}llo \u{4e16}\u{754c}\u{1f600} \u{85}",
    "///",
];

fn strings(parts: Vec<Vec<char>>) -> Vec<String> {
    parts.iter().map(|part| text_of(part)).collect()
}

#[test]
fn whitespace_is_that_of_std() {
    for c in '\0'..=char::MAX {
        assert_eq!(is_whitespace(c), c.is_whitespace(), "{:?}", c);
    }
}

#[test]
fn lines_are_those_of_std() {
    for sample in SAMPLES {
        let expected: Vec<&str> = sample.lines().collect();
        assert_eq!(strings(split_lines(&chars_of(sample))), expected, "{:?}", sample);
    }
    assert_eq!(strings(split_lines(&chars_of("one\r\ntwo\nthree\r"))), ["one", "two", "three\r"]);
}

#[test]
fn words_and_trimming_are_those_of_std() {
    for sample in SAMPLES {
        let expected: Vec<&str> = sample.split_whitespace().collect();
        let words = split_words(&chars_of(sample));
        assert_eq!(text_of(&join_from(&words, 0)), expected.join(" "));
        assert_eq!(strings(words), expected);
        assert_eq!(text_of(&trimmed(&chars_of(sample))), sample.trim());
        assert_eq!(
            text_of(&without_trailing(&chars_of(sample), '/')),
            sample.trim_end_matches('/')
        );
    }
    let words = split_words(&chars_of("a b c"));
    assert_eq!(text_of(&join_from(&words, 1)), "b c");
    assert_eq!(text_of(&join_from(&words, 3)), "");
}

#[test]
fn searching_and_replacing_are_those_of_std() {
    for sample in SAMPLES {
        let chars = chars_of(sample);
        assert_eq!(text_of(&take_before(&chars, " -> ")), sample.split(" -> ").next().unwrap());
        assert_eq!(text_of(&replace_char(&chars, 'a', "<>")), sample.replace('a', "<>"));
        assert_eq!(starts_with(&chars, "a\r"), sample.starts_with("a\r"));
        assert!(same_text(sample, sample));
        assert!(!same_text(sample, &format!("{}!", sample)));
    }
}

#[test]
fn numbers_are_written_as_std_writes_them() {
    for n in [0u64, 1, 9, 10, 22, 30, 99, 100, 65535, 4294967296, u64::MAX] {
        let mut text = String::from("=");
        push_decimal(&mut text, n);
        assert_eq!(text, format!("={}", n));
    }
    for i in [0i32, 7, -1, -10, 255, i32::MAX, i32::MIN] {
        let mut text = String::new();
        push_signed_decimal(&mut text, i);
        assert_eq!(text, i.to_string());
    }
}
