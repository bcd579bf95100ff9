use hecto::Document;
use hecto::Position;
use hecto::SearchDirection;
use hecto::Type;

fn texts(document: &Document) -> Vec<String> {
    let mut out = Vec::new();
    for index in 0..document.len() {
        out.push(document.row(index).unwrap().text());
    }
    out
}

fn at(x: usize, y: usize) -> Position {
    Position { x, y }
}

#[test]
fn default_document_is_empty() {
    let document = Document::default();
    assert!(document.is_empty());
    assert_eq!(document.len(), 0);
    assert!(!document.is_dirty());
    assert!(document.file_name.is_none());
    assert_eq!(document.file_type(), "No filetype");
    assert!(document.row(0).is_none());
    assert_eq!(document.text(), "");
}

#[test]
fn load_splits_the_content_into_lines() {
    let document = Document::load("notes.txt", "foo 123\nbar\n");
    assert_eq!(texts(&document), vec!["foo 123", "bar"]);
    assert_eq!(document.len(), 2);
    assert!(!document.is_empty());
    assert!(!document.is_dirty());
    assert_eq!(document.file_name, Some("notes.txt".to_string()));
    assert_eq!(document.file_type(), "No filetype");
    assert!(document.row(2).is_none());
}

#[test]
fn load_takes_a_carriage_return_with_its_line_feed() {
    let document = Document::load("a.txt", "one\r\ntwo\r\n\r\nlast");
    assert_eq!(texts(&document), vec!["one", "two", "", "last"]);
}

#[test]
fn load_keeps_a_carriage_return_that_ends_no_line() {
    let document = Document::load("a.txt", "a\rb\nc\r");
    assert_eq!(texts(&document), vec!["a\rb", "c\r"]);
}

#[test]
fn load_of_nothing_has_no_lines() {
    let document = Document::load("a.txt", "");
    assert!(document.is_empty());
    let document = Document::load("a.txt", "\n");
    assert_eq!(texts(&document), vec![""]);
    let document = Document::load("a.txt", "\n\n");
    assert_eq!(texts(&document), vec!["", ""]);
}

#[test]
fn load_highlights_rust_source() {
    let document = Document::load("main.rs", "x 1\n// c");
    assert_eq!(document.file_type(), "Rust");
    assert_eq!(
        document.row(0).unwrap().highlighting(),
        &vec![Type::Plain, Type::Plain, Type::Number]
    );
    assert_eq!(document.row(1).unwrap().highlighting(), &vec![Type::Comment; 4]);
}

#[test]
fn load_leaves_other_files_plain() {
    let document = Document::load("main.txt", "x 1");
    assert_eq!(document.row(0).unwrap().highlighting(), &vec![Type::Plain; 3]);
}

#[test]
fn delete_at_the_end_of_a_line_joins_the_next() {
    let mut document = Document::load("a.txt", "foo 123\nbar");
    document.delete(&at(7, 0));
    assert_eq!(document.len(), 1);
    assert_eq!(texts(&document), vec!["foo 123bar"]);
    assert_eq!(document.row(0).unwrap().len(), 10);
    assert!(document.is_dirty());
}

#[test]
fn delete_joins_and_highlights_the_joined_line() {
    let mut document = Document::load("a.rs", "x \n12\nz");
    document.delete(&at(2, 0));
    assert_eq!(texts(&document), vec!["x 12", "z"]);
    assert_eq!(
        document.row(0).unwrap().highlighting(),
        &vec![Type::Plain, Type::Plain, Type::Number, Type::Number]
    );
}

#[test]
fn delete_at_the_end_of_the_last_line_changes_no_text() {
    let mut document = Document::load("a.txt", "foo\nbar");
    document.delete(&at(3, 1));
    assert_eq!(texts(&document), vec!["foo", "bar"]);
    assert!(document.is_dirty());
}

#[test]
fn delete_takes_a_cluster_out_of_its_line() {
    let mut document = Document::load("a.txt", "foo\nbe\u{301}r");
    document.delete(&at(1, 1));
    assert_eq!(texts(&document), vec!["foo", "br"]);
    assert!(document.is_dirty());
}

#[test]
fn delete_beyond_the_last_line_is_ignored() {
    let mut document = Document::load("a.txt", "foo\nbar");
    document.delete(&at(0, 2));
    document.delete(&at(0, usize::MAX));
    assert_eq!(texts(&document), vec!["foo", "bar"]);
    assert!(!document.is_dirty());
}

#[test]
fn insert_on_the_line_after_the_last_appends_a_line() {
    let mut document = Document::load("a.txt", "foo\nbar");
    document.insert('x', &at(0, 2));
    assert_eq!(texts(&document), vec!["foo", "bar", "x"]);
    assert_eq!(document.row(2).unwrap().len(), 1);
    assert!(document.is_dirty());
}

#[test]
fn insert_into_an_empty_document() {
    let mut document = Document::default();
    document.insert('7', &at(5, 0));
    assert_eq!(texts(&document), vec!["7"]);
    assert_eq!(document.row(0).unwrap().highlighting(), &vec![Type::Plain]);
    assert!(document.is_dirty());
}

#[test]
fn insert_beyond_the_line_after_the_last_is_ignored() {
    let mut document = Document::load("a.txt", "foo\nbar");
    document.insert('x', &at(0, 3));
    document.insert('\n', &at(0, 3));
    assert_eq!(texts(&document), vec!["foo", "bar"]);
    assert!(!document.is_dirty());
}

#[test]
fn insert_into_a_line() {
    let mut document = Document::load("a.rs", "x 1\nbar");
    document.insert('2', &at(3, 0));
    assert_eq!(texts(&document), vec!["x 12", "bar"]);
    assert_eq!(
        document.row(0).unwrap().highlighting(),
        &vec![Type::Plain, Type::Plain, Type::Number, Type::Number]
    );
    document.insert('a', &at(0, 1));
    assert_eq!(texts(&document), vec!["x 12", "abar"]);
    assert!(document.is_dirty());
}

#[test]
fn insert_a_line_feed_splits_the_line() {
    let mut document = Document::load("a.rs", "ab 12\nz");
    document.insert('\n', &at(3, 0));
    assert_eq!(texts(&document), vec!["ab ", "12", "z"]);
    assert_eq!(document.row(0).unwrap().len(), 3);
    assert_eq!(document.row(1).unwrap().len(), 2);
    assert_eq!(document.row(0).unwrap().highlighting(), &vec![Type::Plain; 3]);
    assert_eq!(document.row(1).unwrap().highlighting(), &vec![Type::Number; 2]);
    assert!(document.is_dirty());
}

#[test]
fn insert_a_line_feed_at_the_start_and_at_the_end_of_a_line() {
    let mut document = Document::load("a.txt", "ab");
    document.insert('\n', &at(0, 0));
    assert_eq!(texts(&document), vec!["", "ab"]);
    document.insert('\n', &at(2, 1));
    assert_eq!(texts(&document), vec!["", "ab", ""]);
    document.insert('\n', &at(9, 1));
    assert_eq!(texts(&document), vec!["", "ab", "", ""]);
}

#[test]
fn insert_a_line_feed_on_the_line_after_the_last_appends_an_empty_line() {
    let mut document = Document::load("a.txt", "ab");
    document.insert('\n', &at(0, 1));
    assert_eq!(texts(&document), vec!["ab", ""]);
    assert_eq!(document.row(1).unwrap().len(), 0);
    assert!(document.is_dirty());
}

#[test]
fn text_ends_every_line_with_a_line_feed() {
    let document = Document::load("a.txt", "foo\n\nbar");
    assert_eq!(document.text(), "foo\n\nbar\n");
}

#[test]
fn saving_and_loading_again_keeps_the_lines() {
    for content in ["foo 123\nbar", "foo\r\nbar\r\n", "", "\n\nx", "e\u{301}\n\u{1F44D}\u{1F3FD}\n"] {
        let mut document = Document::load("a.rs", content);
        let before = texts(&document);
        let written = document.text();
        document.mark_saved();
        assert_eq!(texts(&document), before);
        let again = Document::load("a.rs", &written);
        assert_eq!(texts(&again), before);
        assert_eq!(again.text(), written);
    }
}

#[test]
fn a_carriage_return_at_the_end_of_a_line_is_lost_on_the_way() {
    let document = Document::load("a.txt", "a\r");
    let again = Document::load("a.txt", &document.text());
    assert_eq!(texts(&document), vec!["a\r"]);
    assert_eq!(texts(&again), vec!["a"]);
}

#[test]
fn mark_saved_clears_dirty_and_tells_the_kind_anew() {
    let mut document = Document::load("a.txt", "x 1");
    document.insert('2', &at(3, 0));
    assert!(document.is_dirty());
    document.file_name = Some("a.rs".to_string());
    document.mark_saved();
    assert!(!document.is_dirty());
    assert_eq!(document.file_type(), "Rust");
    assert_eq!(
        document.row(0).unwrap().highlighting(),
        &vec![Type::Plain, Type::Plain, Type::Number, Type::Number]
    );
}

#[test]
fn mark_saved_without_a_file_changes_nothing() {
    let mut document = Document::default();
    document.insert('x', &at(0, 0));
    document.mark_saved();
    assert!(document.is_dirty());
    assert_eq!(document.file_type(), "No filetype");
}

#[test]
fn mark_saved_drops_the_marked_matches() {
    let mut document = Document::load("a.rs", "foo");
    document.highlight(Some("o"));
    document.mark_saved();
    assert_eq!(document.row(0).unwrap().highlighting(), &vec![Type::Plain; 3]);
}

#[test]
fn highlight_marks_the_word_in_every_line() {
    let mut document = Document::load("a.rs", "foo\nbar 1\nzoo");
    document.highlight(Some("o"));
    assert_eq!(
        document.row(0).unwrap().highlighting(),
        &vec![Type::Plain, Type::Match, Type::Match]
    );
    assert_eq!(
        document.row(1).unwrap().highlighting(),
        &vec![Type::Plain, Type::Plain, Type::Plain, Type::Plain, Type::Number]
    );
    assert_eq!(
        document.row(2).unwrap().highlighting(),
        &vec![Type::Plain, Type::Match, Type::Match]
    );
    assert!(!document.is_dirty());
    document.highlight(None);
    assert_eq!(document.row(0).unwrap().highlighting(), &vec![Type::Plain; 3]);
}

#[test]
fn highlight_twice_gives_the_same_in_every_line() {
    let mut document = Document::load("a.rs", "foo \"o\" 'o' 10\n// o");
    document.highlight(Some("o"));
    let first: Vec<Vec<Type>> =
        (0..2).map(|i| document.row(i).unwrap().highlighting().clone()).collect();
    document.highlight(Some("o"));
    let second: Vec<Vec<Type>> =
        (0..2).map(|i| document.row(i).unwrap().highlighting().clone()).collect();
    assert_eq!(first, second);
}

#[test]
fn search_forward_walks_down_the_lines() {
    let document = Document::load("a.txt", "one two\nthree\ntwo one");
    assert_eq!(
        document.search("two", &at(0, 0), SearchDirection::Forward),
        Some(at(4, 0))
    );
    assert_eq!(
        document.search("two", &at(5, 0), SearchDirection::Forward),
        Some(at(0, 2))
    );
    assert_eq!(
        document.search("one", &at(1, 0), SearchDirection::Forward),
        Some(at(4, 2))
    );
    assert_eq!(document.search("one", &at(5, 2), SearchDirection::Forward), None);
    assert_eq!(document.search("four", &at(0, 0), SearchDirection::Forward), None);
}

#[test]
fn search_backward_walks_up_the_lines() {
    let document = Document::load("a.txt", "one two\nthree\ntwo one");
    assert_eq!(
        document.search("one", &at(7, 2), SearchDirection::Backward),
        Some(at(4, 2))
    );
    assert_eq!(
        document.search("one", &at(6, 2), SearchDirection::Backward),
        Some(at(0, 0))
    );
    assert_eq!(
        document.search("two", &at(2, 2), SearchDirection::Backward),
        Some(at(4, 0))
    );
    assert_eq!(document.search("two", &at(6, 0), SearchDirection::Backward), None);
    assert_eq!(document.search("three", &at(0, 0), SearchDirection::Backward), None);
}

#[test]
fn search_from_beyond_the_lines_finds_nothing() {
    let document = Document::load("a.txt", "one\ntwo");
    assert_eq!(document.search("one", &at(0, 2), SearchDirection::Forward), None);
    assert_eq!(document.search("one", &at(0, 2), SearchDirection::Backward), None);
    assert_eq!(document.search("one", &at(0, 3), SearchDirection::Forward), None);
    assert_eq!(document.search("one", &at(0, 3), SearchDirection::Backward), None);
}

#[test]
fn search_from_beyond_the_end_of_a_line_goes_on_with_the_next() {
    let document = Document::load("a.txt", "one\ntwo");
    assert_eq!(
        document.search("two", &at(9, 0), SearchDirection::Forward),
        Some(at(0, 1))
    );
    assert_eq!(
        document.search("one", &at(9, 1), SearchDirection::Backward),
        Some(at(0, 0))
    );
}

#[test]
fn search_for_nothing_finds_nothing_in_any_line() {
    let document = Document::load("a.txt", "one\ntwo");
    assert_eq!(document.search("", &at(0, 0), SearchDirection::Forward), None);
    assert_eq!(document.search("", &at(3, 1), SearchDirection::Backward), None);
}

#[test]
fn search_in_a_single_line_finds_the_pattern_from_both_sides() {
    let document = Document::load("a.txt", "say hello twice");
    assert_eq!(
        document.search("hello", &at(4, 0), SearchDirection::Forward),
        Some(at(4, 0))
    );
    for from in 9..=15 {
        assert_eq!(
            document.search("hello", &at(from, 0), SearchDirection::Backward),
            Some(at(4, 0))
        );
    }
}

#[test]
fn search_backward_finds_a_later_occurrence_first() {
    let document = Document::load("a.txt", "aXa");
    assert_eq!(
        document.search("a", &at(3, 0), SearchDirection::Backward),
        Some(at(2, 0))
    );
}
