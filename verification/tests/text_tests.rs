use hecto::text::chars_of;
use hecto::text::find_first;
use hecto::text::find_last;
use hecto::text::split_lines;
use hecto::text::stands_at;

fn chars(text: &str) -> Vec<char> {
    text.chars().collect()
}

#[test]
fn chars_of_gives_the_characters() {
    assert_eq!(chars_of("h\u{e9}\u{1F44D}"), vec!['h', '\u{e9}', '\u{1F44D}']);
    assert_eq!(chars_of(""), Vec::<char>::new());
}

#[test]
fn stands_at_compares_in_place() {
    assert!(stands_at(&chars("abcabc"), &chars("bc"), 1));
    assert!(stands_at(&chars("abcabc"), &chars("bc"), 4));
    assert!(!stands_at(&chars("abcabc"), &chars("bc"), 2));
    assert!(!stands_at(&chars("abcabc"), &chars("bc"), 5));
    assert!(!stands_at(&chars("abcabc"), &chars("bc"), 9));
    assert!(stands_at(&chars("abc"), &chars(""), 3));
    assert!(!stands_at(&chars("abc"), &chars(""), 4));
}

#[test]
fn find_first_gives_the_least_offset() {
    assert_eq!(find_first(&chars("abcabc"), &chars("bc")), Some(1));
    assert_eq!(find_first(&chars("abcabc"), &chars("abcabc")), Some(0));
    assert_eq!(find_first(&chars("abcabc"), &chars("cb")), None);
    assert_eq!(find_first(&chars("ab"), &chars("abc")), None);
    assert_eq!(find_first(&chars("\u{e9}\u{e9}x"), &chars("x")), Some(2));
    assert_eq!(find_first(&chars("aaa"), &chars("aa")), Some(0));
}

#[test]
fn find_last_gives_the_greatest_offset() {
    assert_eq!(find_last(&chars("abcabc"), &chars("bc")), Some(4));
    assert_eq!(find_last(&chars("abcabc"), &chars("abcabc")), Some(0));
    assert_eq!(find_last(&chars("abcabc"), &chars("cb")), None);
    assert_eq!(find_last(&chars("ab"), &chars("abc")), None);
    assert_eq!(find_last(&chars("aaa"), &chars("aa")), Some(1));
}

#[test]
fn split_lines_cuts_at_line_feeds() {
    assert_eq!(split_lines("a\nb"), vec!["a", "b"]);
    assert_eq!(split_lines("a\nb\n"), vec!["a", "b"]);
    assert_eq!(split_lines("a\n\nb"), vec!["a", "", "b"]);
    assert_eq!(split_lines("\n"), vec![""]);
    assert_eq!(split_lines(""), Vec::<String>::new());
    assert_eq!(split_lines("abc"), vec!["abc"]);
}

#[test]
fn split_lines_takes_a_carriage_return_with_its_line_feed() {
    assert_eq!(split_lines("a\r\nb\r\n"), vec!["a", "b"]);
    assert_eq!(split_lines("\r\n"), vec![""]);
    assert_eq!(split_lines("a\r\r\nb"), vec!["a\r", "b"]);
    assert_eq!(split_lines("a\rb"), vec!["a\rb"]);
    assert_eq!(split_lines("a\r"), vec!["a\r"]);
}

#[test]
fn split_lines_agrees_with_the_standard_library() {
    for content in ["", "\n", "a", "a\n", "a\r\n", "a\r", "\r", "\r\n\r\n", "a\n\nb\r\n\rc\n\r", "x\r\r\n"] {
        let expected: Vec<String> = content.lines().map(String::from).collect();
        assert_eq!(split_lines(content), expected);
    }
}
