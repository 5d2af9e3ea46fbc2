use dl_releases::text::{chars_of, contains, starts_at};

fn chars(s: &str) -> Vec<char> {
    s.chars().collect()
}

#[test]
fn characters_come_in_order() {
    assert_eq!(chars_of(""), Vec::<char>::new());
    assert_eq!(chars_of("abc"), vec!['a', 'b', 'c']);
    assert_eq!(chars_of("é→✓"), vec!['é', '→', '✓']);
}

#[test]
fn text_stands_in_text() {
    let cases = [
        ("", "", true),
        ("abc", "", true),
        ("", "a", false),
        ("abc", "abc", true),
        ("abc", "abcd", false),
        ("abc", "a", true),
        ("abc", "c", true),
        ("abc", "bc", true),
        ("abc", "ac", false),
        ("aab", "ab", true),
        ("ababac", "abac", true),
        ("ababab", "abac", false),
        ("lazygit_0.54.1_linux_x86_64.tar.gz", "linux_x86_64", true),
        ("lazygit_0.54.1_linux_x86_64.tar.gz", "linux_arm64", false),
        ("grüße", "üß", true),
    ];
    for (hay, needle, expected) in cases {
        assert_eq!(contains(&chars(hay), &chars(needle)), expected, "{hay:?} {needle:?}");
        assert_eq!(contains(&chars(hay), &chars(needle)), hay.contains(needle), "{hay:?} {needle:?}");
    }
}

#[test]
fn text_stands_at_a_place() {
    assert!(starts_at(&chars("hello"), &chars("ell"), 1));
    assert!(!starts_at(&chars("hello"), &chars("ell"), 0));
    assert!(starts_at(&chars("hello"), &chars(""), 5));
    assert!(starts_at(&chars("hello"), &chars("hello"), 0));
}
