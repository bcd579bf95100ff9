use hecto::HighlightingOptions;
use hecto::Row;
use hecto::SearchDirection;
use hecto::Type;

fn rules(numbers: bool, strings: bool, characters: bool, comments: bool) -> HighlightingOptions {
    HighlightingOptions { numbers, strings, characters, comments }
}

fn all_rules() -> HighlightingOptions {
    rules(true, true, true, true)
}

fn no_rules() -> HighlightingOptions {
    rules(false, false, false, false)
}

#[test]
fn from_counts_grapheme_clusters() {
    let row = Row::from("a\u{310}e\u{301}o\u{308}\u{332}\r\n");
    assert_eq!(row.len(), 4);
    assert!(!row.is_empty());
    assert_eq!(row.text(), "a\u{310}e\u{301}o\u{308}\u{332}\r\n");
    assert!(row.highlighting().is_empty());
}

#[test]
fn from_counts_an_emoji_with_a_modifier_once() {
    let row = Row::from("a\u{1F44D}\u{1F3FD}b");
    assert_eq!(row.len(), 3);
}

#[test]
fn from_empty_text_is_empty() {
    let row = Row::from("");
    assert_eq!(row.len(), 0);
    assert!(row.is_empty());
}

#[test]
fn default_row_is_empty() {
    let row = Row::default();
    assert_eq!(row.len(), 0);
    assert!(row.is_empty());
    assert_eq!(row.text(), "");
}

#[test]
fn insert_in_the_middle() {
    let mut row = Row::from("abc");
    row.insert('x', 1);
    assert_eq!(row.text(), "axbc");
    assert_eq!(row.len(), 4);
}

#[test]
fn insert_at_the_start() {
    let mut row = Row::from("abc");
    row.insert('x', 0);
    assert_eq!(row.text(), "xabc");
    assert_eq!(row.len(), 4);
}

#[test]
fn insert_at_the_length_appends() {
    let mut row = Row::from("abc");
    row.insert('x', 3);
    assert_eq!(row.text(), "abcx");
    assert_eq!(row.len(), 4);
}

#[test]
fn insert_beyond_the_length_appends() {
    let mut row = Row::from("abc");
    row.insert('x', 100);
    assert_eq!(row.text(), "abcx");
    assert_eq!(row.len(), 4);
}

#[test]
fn insert_goes_before_a_whole_cluster() {
    let mut row = Row::from("e\u{301}x");
    row.insert('y', 1);
    assert_eq!(row.text(), "e\u{301}yx");
    assert_eq!(row.len(), 3);
}

#[test]
fn insert_into_a_line_with_an_emoji_adds_one() {
    for at in 0..=3 {
        let mut row = Row::from("a\u{1F44D}\u{1F3FD}b");
        row.insert('x', at);
        assert_eq!(row.len(), 4);
    }
    let mut row = Row::from("a\u{1F44D}\u{1F3FD}b");
    row.insert('x', 2);
    assert_eq!(row.text(), "a\u{1F44D}\u{1F3FD}xb");
}

#[test]
fn insert_keeps_the_categories() {
    let mut row = Row::from("12");
    row.highlight(&all_rules(), None);
    row.insert('x', 0);
    assert_eq!(row.highlighting(), &vec![Type::Number, Type::Number]);
}

#[test]
fn insert_where_the_count_runs_ahead_counts_anew() {
    let mut row = Row::from("e");
    row.insert('\u{301}', 1);
    assert_eq!(row.len(), 2);
    row.insert('x', 1);
    assert_eq!(row.text(), "e\u{301}");
    assert_eq!(row.len(), 1);
}

#[test]
fn delete_takes_out_a_cluster() {
    let mut row = Row::from("ae\u{301}b");
    row.delete(1);
    assert_eq!(row.text(), "ab");
    assert_eq!(row.len(), 2);
}

#[test]
fn delete_beyond_the_length_does_nothing() {
    let mut row = Row::from("abc");
    row.delete(3);
    assert_eq!(row.text(), "abc");
    assert_eq!(row.len(), 3);
    row.delete(usize::MAX);
    assert_eq!(row.text(), "abc");
    assert_eq!(row.len(), 3);
}

#[test]
fn delete_the_last_cluster() {
    let mut row = Row::from("abc");
    row.delete(2);
    assert_eq!(row.text(), "ab");
    assert_eq!(row.len(), 2);
}

#[test]
fn append_joins_texts_and_lengths() {
    let mut row = Row::from("foo");
    let other = Row::from("e\u{301}!");
    row.append(&other);
    assert_eq!(row.text(), "fooe\u{301}!");
    assert_eq!(row.len(), 5);
}

#[test]
fn split_cuts_before_a_cluster() {
    let mut row = Row::from("ae\u{301}bc");
    row.highlight(&all_rules(), None);
    let rest = row.split(2);
    assert_eq!(row.text(), "ae\u{301}");
    assert_eq!(row.len(), 2);
    assert_eq!(rest.text(), "bc");
    assert_eq!(rest.len(), 2);
    assert!(row.highlighting().is_empty());
    assert!(rest.highlighting().is_empty());
}

#[test]
fn split_at_the_start_and_beyond_the_end() {
    let mut row = Row::from("abc");
    let rest = row.split(0);
    assert_eq!(row.text(), "");
    assert_eq!(row.len(), 0);
    assert_eq!(rest.text(), "abc");
    assert_eq!(rest.len(), 3);
    let mut row = Row::from("abc");
    let rest = row.split(10);
    assert_eq!(row.text(), "abc");
    assert_eq!(row.len(), 3);
    assert_eq!(rest.text(), "");
    assert_eq!(rest.len(), 0);
}

#[test]
fn search_forward_finds_the_first_occurrence_from_the_start() {
    let row = Row::from("abcabc");
    assert_eq!(row.search("bc", 0, SearchDirection::Forward), Some(1));
    assert_eq!(row.search("bc", 1, SearchDirection::Forward), Some(1));
    assert_eq!(row.search("bc", 2, SearchDirection::Forward), Some(4));
    assert_eq!(row.search("bc", 5, SearchDirection::Forward), None);
}

#[test]
fn search_backward_finds_the_last_occurrence_before_the_start() {
    let row = Row::from("abcabc");
    assert_eq!(row.search("bc", 6, SearchDirection::Backward), Some(4));
    assert_eq!(row.search("bc", 5, SearchDirection::Backward), Some(1));
    assert_eq!(row.search("bc", 3, SearchDirection::Backward), Some(1));
    assert_eq!(row.search("bc", 2, SearchDirection::Backward), None);
    assert_eq!(row.search("bc", 0, SearchDirection::Backward), None);
}

#[test]
fn search_reports_clusters_not_bytes() {
    let row = Row::from("\u{e4}\u{1F44D}\u{1F3FD}e\u{301}c");
    assert_eq!(row.search("c", 0, SearchDirection::Forward), Some(3));
    assert_eq!(row.search("c", 4, SearchDirection::Backward), Some(3));
    assert_eq!(row.search("e\u{301}", 1, SearchDirection::Forward), Some(2));
}

#[test]
fn search_for_nothing_finds_nothing() {
    let row = Row::from("abc");
    assert_eq!(row.search("", 0, SearchDirection::Forward), None);
    assert_eq!(row.search("", 3, SearchDirection::Backward), None);
}

#[test]
fn search_from_beyond_the_length_finds_nothing() {
    let row = Row::from("abc");
    assert_eq!(row.search("a", 4, SearchDirection::Forward), None);
    assert_eq!(row.search("a", 4, SearchDirection::Backward), None);
    assert_eq!(row.search("a", 3, SearchDirection::Backward), Some(0));
    assert_eq!(row.search("a", 3, SearchDirection::Forward), None);
}

#[test]
fn search_inside_a_cluster_finds_nothing() {
    let row = Row::from("ae\u{301}");
    assert_eq!(row.search("\u{301}", 0, SearchDirection::Forward), None);
}

#[test]
fn search_finds_a_pattern_from_both_sides() {
    let row = Row::from("say hello twice");
    assert_eq!(row.search("hello", 4, SearchDirection::Forward), Some(4));
    for from in 9..=15 {
        assert_eq!(row.search("hello", from, SearchDirection::Backward), Some(4));
    }
    assert_eq!(row.search("hello", 8, SearchDirection::Backward), None);
}

#[test]
fn highlight_marks_a_number_after_a_space() {
    let mut row = Row::from("foo 123");
    row.highlight(&all_rules(), None);
    assert_eq!(
        row.highlighting(),
        &vec![
            Type::Plain,
            Type::Plain,
            Type::Plain,
            Type::Plain,
            Type::Number,
            Type::Number,
            Type::Number
        ]
    );
}

#[test]
fn highlight_marks_every_occurrence_of_the_word() {
    let mut row = Row::from("foo");
    row.highlight(&all_rules(), Some("o"));
    assert_eq!(row.highlighting(), &vec![Type::Plain, Type::Match, Type::Match]);
}

#[test]
fn highlight_does_not_mark_overlapping_occurrences() {
    let mut row = Row::from("aaa");
    row.highlight(&no_rules(), Some("aa"));
    assert_eq!(row.highlighting(), &vec![Type::Match, Type::Match, Type::Plain]);
    let mut row = Row::from("aaaa");
    row.highlight(&no_rules(), Some("aa"));
    assert_eq!(row.highlighting(), &vec![Type::Match; 4]);
}

#[test]
fn highlight_match_overwrites_the_category() {
    let mut row = Row::from("x 123 y");
    row.highlight(&all_rules(), Some("23 "));
    assert_eq!(
        row.highlighting(),
        &vec![
            Type::Plain,
            Type::Plain,
            Type::Number,
            Type::Match,
            Type::Match,
            Type::Match,
            Type::Plain
        ]
    );
}

#[test]
fn highlight_with_an_empty_word_marks_nothing() {
    let mut row = Row::from("foo");
    row.highlight(&all_rules(), Some(""));
    assert_eq!(row.highlighting(), &vec![Type::Plain; 3]);
}

#[test]
fn highlight_twice_gives_the_same_categories() {
    let mut row = Row::from("let x = \"a\\\"b\" + 'c' + 12.5; // done 7");
    row.highlight(&all_rules(), Some("+"));
    let first = row.highlighting().clone();
    row.highlight(&all_rules(), Some("+"));
    assert_eq!(row.highlighting(), &first);
    assert_eq!(first.len(), row.text().chars().count());
}

#[test]
fn highlight_drops_what_an_earlier_highlight_marked() {
    let mut row = Row::from("foo");
    row.highlight(&all_rules(), Some("o"));
    row.highlight(&all_rules(), None);
    assert_eq!(row.highlighting(), &vec![Type::Plain; 3]);
}

#[test]
fn highlight_match_on_a_line_that_was_not_highlighted_marks_nothing() {
    let mut row = Row::from("foo");
    row.highlight_match(Some("o"));
    assert!(row.highlighting().is_empty());
    row.highlight_match(None);
    assert!(row.highlighting().is_empty());
}

#[test]
fn highlight_match_adds_to_the_categories() {
    let mut row = Row::from("a1 b1");
    row.highlight(&all_rules(), None);
    row.highlight_match(Some("1"));
    assert_eq!(
        row.highlighting(),
        &vec![Type::Plain, Type::Match, Type::Plain, Type::Plain, Type::Match]
    );
}

#[test]
fn highlight_gives_each_character_a_category() {
    let mut row = Row::from("e\u{301}\"x");
    row.highlight(&all_rules(), None);
    assert_eq!(
        row.highlighting(),
        &vec![Type::Plain, Type::Plain, Type::String, Type::String]
    );
    assert_eq!(row.len(), 3);
}

#[test]
fn render_plain_text() {
    let row = Row::from("abc");
    assert_eq!(row.render(0, 3), "\x1b[38;2;230;230;230mabc\x1b[39m");
}

#[test]
fn render_shows_a_tab_as_a_space() {
    let row = Row::from("a\tb");
    assert_eq!(row.render(0, 3), "\x1b[38;2;230;230;230ma b\x1b[39m");
}

#[test]
fn render_switches_the_colour_where_the_category_changes() {
    let mut row = Row::from("x 12 // c");
    row.highlight(&all_rules(), None);
    assert_eq!(
        row.render(0, 9),
        "\x1b[38;2;230;230;230mx \x1b[38;2;220;163;163m12\x1b[38;2;230;230;230m \x1b[38;2;133;153;0m// c\x1b[39m"
    );
}

#[test]
fn render_colours_of_strings_characters_and_matches() {
    let mut row = Row::from("\"s\"'c'm");
    row.highlight(&all_rules(), Some("m"));
    assert_eq!(
        row.render(0, 7),
        "\x1b[38;2;230;230;230m\x1b[38;2;211;54;130m\"s\"\x1b[38;2;108;113;196m'c'\x1b[38;2;38;139;210mm\x1b[39m"
    );
}

#[test]
fn render_clamps_the_range() {
    let row = Row::from("abc");
    assert_eq!(row.render(1, 100), "\x1b[38;2;230;230;230mbc\x1b[39m");
    assert_eq!(row.render(2, 1), "\x1b[38;2;230;230;230m\x1b[39m");
    assert_eq!(row.render(5, 9), "\x1b[38;2;230;230;230m\x1b[39m");
    assert_eq!(row.render(1, 2), "\x1b[38;2;230;230;230mb\x1b[39m");
}

#[test]
fn render_starts_plain_inside_a_highlighted_run() {
    let mut row = Row::from("123");
    row.highlight(&all_rules(), None);
    assert_eq!(
        row.render(1, 3),
        "\x1b[38;2;230;230;230m\x1b[38;2;220;163;163m23\x1b[39m"
    );
}

#[test]
fn render_shows_the_first_character_of_a_cluster() {
    let row = Row::from("e\u{301}x");
    assert_eq!(row.render(0, 2), "\x1b[38;2;230;230;230mex\x1b[39m");
}

#[test]
fn as_bytes_is_the_text_in_utf8() {
    let row = Row::from("h\u{e9}");
    assert_eq!(row.as_bytes(), "h\u{e9}".as_bytes());
    assert_eq!(row.as_bytes(), &[0x68, 0xc3, 0xa9]);
}
