use task_switcher::text::{chars_of, contains, le, matches_at, same_text, starts_with};

fn chars(s: &str) -> Vec<char> {
    s.chars().collect()
}

#[test]
fn chars_of_gives_the_characters_in_order() {
    assert_eq!(chars_of("héllo"), vec!['h', 'é', 'l', 'l', 'o']);
    assert_eq!(chars_of(""), Vec::<char>::new());
    assert_eq!(chars_of("文档"), vec!['文', '档']);
}

#[test]
fn matches_at_checks_one_position() {
    assert!(matches_at(&chars("hello"), &chars("ell"), 1));
    assert!(!matches_at(&chars("hello"), &chars("ell"), 0));
    assert!(!matches_at(&chars("hello"), &chars("ell"), 2));
    assert!(matches_at(&chars("hello"), &chars(""), 5));
    assert!(!matches_at(&chars("hello"), &chars(""), 6));
    assert!(!matches_at(&chars("hello"), &chars("lo"), 4));
    assert!(!matches_at(&chars("hi"), &chars("high"), 0));
    assert!(!matches_at(&chars("hello"), &chars("lo"), usize::MAX));
}

#[test]
fn starts_with_compares_the_beginning() {
    assert!(starts_with(&chars("MSCTFIME UI"), &chars("MSCTFIME")));
    assert!(starts_with(&chars("abc"), &chars("")));
    assert!(starts_with(&chars("abc"), &chars("abc")));
    assert!(!starts_with(&chars("abc"), &chars("abcd")));
    assert!(!starts_with(&chars("abc"), &chars("bc")));
}

#[test]
fn same_text_compares_everything() {
    assert!(same_text(&chars("abc"), &chars("abc")));
    assert!(same_text(&chars(""), &chars("")));
    assert!(!same_text(&chars("abc"), &chars("abd")));
    assert!(!same_text(&chars("abc"), &chars("ab")));
    assert!(!same_text(&chars("ab"), &chars("abc")));
}

#[test]
fn contains_finds_a_part_anywhere() {
    assert!(contains(&chars("explorer.exe"), &chars("explorer")));
    assert!(contains(&chars("my explorer"), &chars("explorer")));
    assert!(contains(&chars("an explorer here"), &chars("explorer")));
    assert!(contains(&chars("abc"), &chars("")));
    assert!(contains(&chars(""), &chars("")));
    assert!(!contains(&chars(""), &chars("a")));
    assert!(!contains(&chars("explore"), &chars("explorer")));
    assert!(!contains(&chars("Explorer"), &chars("explorer")));
    assert!(contains(&chars("aab"), &chars("ab")));
}

#[test]
fn le_is_the_lexicographic_order() {
    assert!(le(&chars(""), &chars("")));
    assert!(le(&chars(""), &chars("a")));
    assert!(!le(&chars("a"), &chars("")));
    assert!(le(&chars("a"), &chars("a")));
    assert!(le(&chars("a"), &chars("b")));
    assert!(!le(&chars("b"), &chars("a")));
    assert!(le(&chars("ab"), &chars("abc")));
    assert!(!le(&chars("abc"), &chars("ab")));
    assert!(le(&chars("abc"), &chars("abd")));
    assert!(le(&chars("Z"), &chars("a")));
    assert!(le(&chars("z"), &chars("é")));
    assert!(!le(&chars("é"), &chars("z")));
}

#[test]
fn le_agrees_with_the_order_of_strings() {
    let samples = [
        "", "a", "A", "ab", "abc", "b", "é", "zz", "文档", "alpha", "Alpha", "beta", "\u{7f}",
        "\u{80}", "\u{7ff}", "\u{800}", "\u{ffff}", "\u{10000}", "\u{10ffff}", "a\u{10000}", "a\u{ffff}",
    ];
    for a in samples {
        for b in samples {
            assert_eq!(le(&chars(a), &chars(b)), a <= b);
        }
    }
}
