use texlab::strings::{str_contains, str_eq, str_starts_with};

const SAMPLES: [&str; 12] =
    ["", "a", "ab", "abc", "b", "bc", "é", "aé", "éa", "😀", "a😀é", "😀é"];

#[test]
fn equality_agrees_with_the_standard_library() {
    for left in SAMPLES {
        for right in SAMPLES {
            assert_eq!(str_eq(left, right), left == right, "{:?} {:?}", left, right);
        }
    }
}

#[test]
fn prefix_test_agrees_with_the_standard_library() {
    for text in SAMPLES {
        for prefix in SAMPLES {
            assert_eq!(
                str_starts_with(text, prefix),
                text.starts_with(prefix),
                "{:?} {:?}",
                text,
                prefix
            );
        }
    }
}

#[test]
fn substring_test_agrees_with_the_standard_library() {
    for text in SAMPLES {
        for needle in SAMPLES {
            assert_eq!(
                str_contains(text, needle),
                text.contains(needle),
                "{:?} {:?}",
                text,
                needle
            );
        }
    }
    assert!(str_contains("x\u{1F600}\u{e9}y", "\u{e9}y"));
    assert!(!str_contains("x\u{1F600}\u{e9}y", "\u{e8}"));
}
