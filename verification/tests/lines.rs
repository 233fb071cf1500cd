use minigrep::lines::lines;
use minigrep::text::{bytes_contain, contains};

#[test]
fn lines_of_empty_text() {
    assert_eq!(Vec::<&str>::new(), lines(""));
}

#[test]
fn line_feed_ends_a_line() {
    assert_eq!(vec!["a", "b", "c"], lines("a\nb\nc"));
    assert_eq!(vec!["a", "b", "c"], lines("a\nb\nc\n"));
}

#[test]
fn no_empty_line_after_the_last_line_feed() {
    assert_eq!(vec![""], lines("\n"));
    assert_eq!(vec!["", ""], lines("\n\n"));
    assert_eq!(vec!["a", ""], lines("a\n\n"));
}

#[test]
fn empty_lines_inside_are_kept() {
    assert_eq!(vec!["a", "", "", "b"], lines("a\n\n\nb"));
}

#[test]
fn carriage_return_before_line_feed_is_dropped() {
    assert_eq!(vec!["a", "b"], lines("a\r\nb\r\n"));
    assert_eq!(vec![""], lines("\r\n"));
}

#[test]
fn only_one_carriage_return_is_dropped() {
    assert_eq!(vec!["a\r", "b"], lines("a\r\r\nb"));
}

#[test]
fn carriage_return_elsewhere_is_kept() {
    assert_eq!(vec!["a\rb", "c\r"], lines("a\rb\nc\r"));
    assert_eq!(vec!["\r"], lines("\r"));
}

#[test]
fn text_without_line_feed_is_one_line() {
    assert_eq!(vec!["no line feed here"], lines("no line feed here"));
}

#[test]
fn lines_with_characters_of_several_bytes() {
    assert_eq!(
        vec!["gr\u{fc}n", "\u{1f980}", "\u{65e5}\u{672c}"],
        lines("gr\u{fc}n\r\n\u{1f980}\n\u{65e5}\u{672c}\n")
    );
}

#[test]
fn lines_agree_with_the_standard_library() {
    let texts = [
        "",
        "\n",
        "\r",
        "\r\n",
        "\n\r",
        "a",
        "a\n",
        "a\r",
        "a\r\n",
        "a\r\r\n",
        "a\n\rb",
        "a\r\n\r\nb\r",
        "\n\n\n",
        "x\u{e9}\r\ny\u{1f980}\nz",
        "\u{85}\u{2028}\n\u{b}\u{c}",
    ];
    for text in texts {
        let expected: Vec<&str> = text.lines().collect();
        assert_eq!(expected, lines(text));
    }
}

#[test]
fn contains_finds_a_part_anywhere() {
    assert!(contains("safe, fast, productive.", "safe"));
    assert!(contains("safe, fast, productive.", "fast"));
    assert!(contains("safe, fast, productive.", "ive."));
    assert!(contains("safe, fast, productive.", "safe, fast, productive."));
}

#[test]
fn contains_rejects_what_is_not_a_part() {
    assert!(!contains("safe, fast, productive.", "Safe"));
    assert!(!contains("safe, fast, productive.", "safe,fast"));
    assert!(!contains("safe", "safer"));
    assert!(!contains("", "a"));
    assert!(!contains("aab", "aba"));
}

#[test]
fn contains_the_empty_text_always() {
    assert!(contains("", ""));
    assert!(contains("abc", ""));
}

#[test]
fn contains_after_a_false_start() {
    assert!(contains("aaab", "aab"));
    assert!(contains("abababc", "ababc"));
}

#[test]
fn contains_compares_whole_characters() {
    assert!(contains("caf\u{e9}", "\u{e9}"));
    assert!(!contains("caf\u{e9}", "\u{e8}"));
    assert!(!contains("\u{c3}", "\u{e9}"));
    assert!(contains("\u{1f980}\u{1f99e}", "\u{1f99e}"));
}

#[test]
fn contains_agrees_with_the_standard_library() {
    let texts = ["", "a", "ab", "aab", "abab", "b\u{e9}b", "\u{e9}", "\u{1f980}a", "Rust:", "rust"];
    for hay in texts {
        for needle in texts {
            assert_eq!(hay.contains(needle), contains(hay, needle));
        }
    }
}

#[test]
fn bytes_contain_a_run_of_bytes() {
    assert!(bytes_contain(&[1, 2, 3, 4], &[2, 3]));
    assert!(bytes_contain(&[1, 2, 3, 4], &[4]));
    assert!(bytes_contain(&[1, 2, 3, 4], &[]));
    assert!(bytes_contain(&[], &[]));
    assert!(!bytes_contain(&[1, 2, 3, 4], &[3, 2]));
    assert!(!bytes_contain(&[1, 2, 3, 4], &[1, 2, 3, 4, 5]));
    assert!(!bytes_contain(&[], &[0]));
}
