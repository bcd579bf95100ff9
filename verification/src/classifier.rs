//! The classifier: one pass over the characters of a line, left to right,
//! that gives every character a highlighting category.
//!
//! At each position the recognizers are tried in a fixed order: character
//! literal, string literal, line comment, number. The first that matches
//! consumes one or more characters; where none matches, one character is
//! left plain.

use crate::filetype::HighlightingOptions;
use crate::highlight::Type;
use crate::text::as_int;
use crate::text::occurs_at;
use crate::text::stands_at;
use vstd::prelude::*;

verus! {

/// `c` is one of `0` to `9`.
pub open spec fn is_digit(c: char) -> bool {
    '0' <= c <= '9'
}

/// `c` is an ASCII punctuation character.
pub open spec fn is_punctuation(c: char) -> bool {
    ||| '!' <= c <= '/'
    ||| ':' <= c <= '@'
    ||| '[' <= c <= '`'
    ||| '{' <= c <= '~'
}

/// `c` is a space, a tab, a line feed, a form feed or a carriage return.
pub open spec fn is_whitespace(c: char) -> bool {
    c == ' ' || c == '\t' || c == '\n' || c == '\x0C' || c == '\r'
}

/// A number may start after `c`.
pub open spec fn is_separator(c: char) -> bool {
    is_punctuation(c) || is_whitespace(c)
}

/// `c` may stand inside a number.
pub open spec fn continues_number(c: char) -> bool {
    is_digit(c) || c == '.'
}

/// The length of the character literal that starts at `at`, if one does: a
/// quote, one character or a backslash and one character, and a quote.
pub open spec fn char_literal_at(chars: Seq<char>, at: int) -> Option<int> {
    if 0 <= at && at + 1 < chars.len() && chars[at] == '\'' {
        let closing = if chars[at + 1] == '\\' {
            at + 3
        } else {
            at + 2
        };
        if closing < chars.len() && chars[closing] == '\'' {
            Some(closing - at + 1)
        } else {
            None
        }
    } else {
        None
    }
}

/// Where a string literal ends whose inside is scanned from `from` on: after
/// the first quote that no backslash escapes, or at the end of the line.
pub open spec fn string_end(chars: Seq<char>, from: int) -> int
    decreases chars.len() + 2 - from,
{
    if from < 0 || from >= chars.len() {
        chars.len() as int
    } else if chars[from] == '\\' {
        string_end(chars, from + 2)
    } else if chars[from] == '"' {
        from + 1
    } else {
        string_end(chars, from + 1)
    }
}

/// The length of the string literal that starts at `at`, if one does.
pub open spec fn string_literal_at(chars: Seq<char>, at: int) -> Option<int> {
    if 0 <= at < chars.len() && chars[at] == '"' {
        Some(string_end(chars, at + 1) - at)
    } else {
        None
    }
}

/// The length of the line comment that starts at `at`, if one does: from two
/// slashes to the end of the line.
pub open spec fn comment_at(chars: Seq<char>, at: int) -> Option<int> {
    if 0 <= at && at + 1 < chars.len() && chars[at] == '/' && chars[at + 1] == '/' {
        Some(chars.len() - at)
    } else {
        None
    }
}

/// Where the run of digits and dots ends that holds `from - 1`.
pub open spec fn number_end(chars: Seq<char>, from: int) -> int
    decreases chars.len() - from,
{
    if 0 <= from < chars.len() && continues_number(chars[from]) {
        number_end(chars, from + 1)
    } else {
        from
    }
}

/// The length of the number that starts at `at`, if one does: a digit at the
/// start of the line or after a separator, and the digits and dots after it.
pub open spec fn number_at(chars: Seq<char>, at: int) -> Option<int> {
    if 0 <= at < chars.len() && is_digit(chars[at]) && (at == 0 || is_separator(chars[at - 1])) {
        Some(number_end(chars, at + 1) - at)
    } else {
        None
    }
}

/// The length of `word` where it stands at `at`.
pub open spec fn word_at(chars: Seq<char>, at: int, word: Seq<char>) -> Option<int> {
    if word.len() > 0 && occurs_at(chars, word, at) {
        Some(word.len() as int)
    } else {
        None
    }
}

/// The category and length of the token that starts at `at`.
pub open spec fn token_at(chars: Seq<char>, opts: HighlightingOptions, at: int) -> (Type, int) {
    if opts.characters && char_literal_at(chars, at).is_some() {
        (Type::Char, char_literal_at(chars, at).unwrap())
    } else if opts.strings && string_literal_at(chars, at).is_some() {
        (Type::String, string_literal_at(chars, at).unwrap())
    } else if opts.comments && comment_at(chars, at).is_some() {
        (Type::Comment, comment_at(chars, at).unwrap())
    } else if opts.numbers && number_at(chars, at).is_some() {
        (Type::Number, number_at(chars, at).unwrap())
    } else {
        (Type::Plain, 1)
    }
}

/// `count` times `category`.
pub open spec fn run(category: Type, count: int) -> Seq<Type> {
    Seq::new(count as nat, |i: int| category)
}

/// The categories of the characters from `at` on.
pub open spec fn classify_from(chars: Seq<char>, opts: HighlightingOptions, at: int) -> Seq<Type>
    decreases chars.len() - at,
{
    if 0 <= at < chars.len() {
        let (category, count) = token_at(chars, opts, at);
        if 1 <= count <= chars.len() - at {
            run(category, count) + classify_from(chars, opts, at + count)
        } else {
            Seq::empty()
        }
    } else {
        Seq::empty()
    }
}

/// The category of every character of a line.
pub open spec fn classification(chars: Seq<char>, opts: HighlightingOptions) -> Seq<Type> {
    classify_from(chars, opts, 0)
}

/// `categories` with `Match` at each offset from `from` up to `to` that it has.
pub open spec fn marked(categories: Seq<Type>, from: int, to: int) -> Seq<Type> {
    Seq::new(
        categories.len(),
        |i: int|
            if from <= i < to {
                Type::Match
            } else {
                categories[i]
            },
    )
}

/// A string literal ends after its opening quote and within the line.
pub proof fn lemma_string_end_bounds(chars: Seq<char>, from: int)
    requires
        0 <= from <= chars.len(),
    ensures
        from <= string_end(chars, from) <= chars.len(),
    decreases chars.len() + 2 - from,
{
    if from < chars.len() {
        if chars[from] == '\\' {
            if from + 2 <= chars.len() {
                lemma_string_end_bounds(chars, from + 2);
            }
        } else if chars[from] != '"' {
            lemma_string_end_bounds(chars, from + 1);
        }
    }
}

/// A number ends where the run of digits and dots ends that starts at
/// `from`: within the line, after nothing but digits and dots, and before a
/// character that is neither, or at the end of the line.
pub proof fn lemma_number_end_bounds(chars: Seq<char>, from: int)
    requires
        0 <= from <= chars.len(),
    ensures
        from <= number_end(chars, from) <= chars.len(),
        forall|i: int| from <= i < number_end(chars, from) ==> continues_number(chars[i]),
        number_end(chars, from) < chars.len() ==> !continues_number(chars[number_end(chars, from)]),
    decreases chars.len() - from,
{
    if from < chars.len() && continues_number(chars[from]) {
        lemma_number_end_bounds(chars, from + 1);
    }
}

/// Every token holds at least one character and ends within the line.
pub proof fn lemma_token_bounds(chars: Seq<char>, opts: HighlightingOptions, at: int)
    requires
        0 <= at < chars.len(),
    ensures
        1 <= token_at(chars, opts, at).1 <= chars.len() - at,
{
    lemma_string_end_bounds(chars, at + 1);
    lemma_number_end_bounds(chars, at + 1);
}

/// The classifier gives one category to each character from `at` on.
pub proof fn lemma_classify_from_len(chars: Seq<char>, opts: HighlightingOptions, at: int)
    requires
        0 <= at <= chars.len(),
    ensures
        classify_from(chars, opts, at).len() == chars.len() - at,
    decreases chars.len() - at,
{
    if at < chars.len() {
        lemma_token_bounds(chars, opts, at);
        lemma_classify_from_len(chars, opts, at + token_at(chars, opts, at).1);
    }
}

/// The classifier gives one category to each character.
pub proof fn lemma_classification_len(chars: Seq<char>, opts: HighlightingOptions)
    ensures
        classification(chars, opts).len() == chars.len(),
{
    lemma_classify_from_len(chars, opts, 0);
}

fn is_ascii_digit(c: char) -> (r: bool)
    ensures
        r == is_digit(c),
{
    '0' <= c && c <= '9'
}

fn is_ascii_punctuation(c: char) -> (r: bool)
    ensures
        r == is_punctuation(c),
{
    ('!' <= c && c <= '/') || (':' <= c && c <= '@') || ('[' <= c && c <= '`') || ('{' <= c && c
        <= '~')
}

fn is_ascii_whitespace(c: char) -> (r: bool)
    ensures
        r == is_whitespace(c),
{
    c == ' ' || c == '\t' || c == '\n' || c == '\x0C' || c == '\r'
}

/// Recognizes a character literal at `index`.
pub fn highlight_char(chars: &[char], index: usize, opts: HighlightingOptions) -> (consumed: Option<usize>)
    ensures
        as_int(consumed) == (if opts.characters {
            char_literal_at(chars@, index as int)
        } else {
            None
        }),
{
    if index >= chars.len() {
        return None;
    }
    let remaining: usize = chars.len() - index;
    if opts.chars() && chars[index] == '\'' && remaining >= 2 {
        let closing: usize = if chars[index + 1] == '\\' {
            3
        } else {
            2
        };
        if closing < remaining && chars[index + closing] == '\'' {
            return Some(closing + 1);
        }
    }
    None
}

/// Recognizes a string literal at `index`.
pub fn highlight_string(chars: &[char], index: usize, opts: HighlightingOptions) -> (consumed: Option<usize>)
    ensures
        as_int(consumed) == (if opts.strings {
            string_literal_at(chars@, index as int)
        } else {
            None
        }),
{
    if index >= chars.len() || !(opts.strings() && chars[index] == '"') {
        return None;
    }
    let n: usize = chars.len();
    let mut next: usize = index + 1;
    loop
        invariant_except_break
            index < next <= n,
            n == chars@.len(),
            string_end(chars@, next as int) == string_end(chars@, index + 1),
        ensures
            index < next <= n,
            next as int == string_end(chars@, index + 1),
        decreases n - next,
    {
        if next >= n {
            break;
        }
        if chars[next] == '\\' {
            if n - next < 2 {
                assert(string_end(chars@, next + 2) == n);
                next = n;
                break;
            }
            next += 2;
        } else if chars[next] == '"' {
            next += 1;
            break;
        } else {
            next += 1;
        }
    }
    Some(next - index)
}

/// Recognizes a line comment at `index`.
pub fn highlight_comment(chars: &[char], index: usize, opts: HighlightingOptions) -> (consumed: Option<usize>)
    ensures
        as_int(consumed) == (if opts.comments {
            comment_at(chars@, index as int)
        } else {
            None
        }),
{
    if index >= chars.len() {
        return None;
    }
    let remaining: usize = chars.len() - index;
    if opts.comments() && chars[index] == '/' && remaining >= 2 && chars[index + 1] == '/' {
        Some(remaining)
    } else {
        None
    }
}

/// Recognizes a number at `index`.
pub fn highlight_number(chars: &[char], index: usize, opts: HighlightingOptions) -> (consumed: Option<usize>)
    ensures
        as_int(consumed) == (if opts.numbers {
            number_at(chars@, index as int)
        } else {
            None
        }),
{
    if index >= chars.len() || !(opts.numbers() && is_ascii_digit(chars[index])) {
        return None;
    }
    if index > 0 {
        let prev_char: char = chars[index - 1];
        if !is_ascii_punctuation(prev_char) && !is_ascii_whitespace(prev_char) {
            return None;
        }
    }
    let n: usize = chars.len();
    let mut next: usize = index + 1;
    while next < n && (is_ascii_digit(chars[next]) || chars[next] == '.')
        invariant
            index < next <= n,
            n == chars@.len(),
            number_end(chars@, next as int) == number_end(chars@, index + 1),
        decreases n - next,
    {
        next += 1;
    }
    Some(next - index)
}

/// Recognizes `substring` at `index`: the test that a keyword rule makes.
/// No rule set carries keywords, so the classifier does not run it.
pub fn highlight_str(chars: &[char], index: usize, substring: &[char]) -> (consumed: Option<usize>)
    ensures
        as_int(consumed) == word_at(chars@, index as int, substring@),
{
    let m: usize = substring.len();
    if m > 0 && stands_at(chars, substring, index) {
        Some(m)
    } else {
        None
    }
}

/// Sets the categories from `from` up to `to` to `Match`, as far as there
/// are such categories.
pub fn mark(categories: &mut Vec<Type>, from: usize, to: usize)
    ensures
        final(categories)@ == marked(old(categories)@, from as int, to as int),
{
    let mut i: usize = from;
    while i < to && i < categories.len()
        invariant
            from <= i,
            i <= to || i == from,
            categories@ == marked(old(categories)@, from as int, i as int),
        decreases categories@.len() - i,
    {
        categories[i] = Type::Match;
        i += 1;
        assert(categories@ =~= marked(old(categories)@, from as int, i as int));
    }
    assert(categories@ =~= marked(old(categories)@, from as int, to as int));
}

/// Gives every character of a line its category.
pub fn classify(chars: &[char], opts: HighlightingOptions) -> (categories: Vec<Type>)
    ensures
        categories@ == classification(chars@, opts),
        categories@.len() == chars@.len(),
{
    let n: usize = chars.len();
    let mut categories: Vec<Type> = Vec::new();
    let mut index: usize = 0;
    while index < n
        invariant
            index <= n,
            n == chars@.len(),
            categories@.len() == index,
            categories@ + classify_from(chars@, opts, index as int) == classification(chars@, opts),
        decreases n - index,
    {
        let (category, count) = if let Some(count) = highlight_char(chars, index, opts) {
            (Type::Char, count)
        } else if let Some(count) = highlight_string(chars, index, opts) {
            (Type::String, count)
        } else if let Some(count) = highlight_comment(chars, index, opts) {
            (Type::Comment, count)
        } else if let Some(count) = highlight_number(chars, index, opts) {
            (Type::Number, count)
        } else {
            (Type::Plain, 1)
        };
        proof {
            lemma_token_bounds(chars@, opts, index as int);
            assert((category, count as int) == token_at(chars@, opts, index as int));
        }
        let ghost before = categories@;
        let mut pushed: usize = 0;
        while pushed < count
            invariant
                pushed <= count,
                categories@ == before + run(category, pushed as int),
            decreases count - pushed,
        {
            categories.push(category);
            pushed += 1;
            assert(run(category, pushed as int) =~= run(category, pushed - 1).push(category));
        }
        proof {
            assert(before + run(category, count as int) + classify_from(chars@, opts, index + count)
                =~= before + (run(category, count as int) + classify_from(
                chars@,
                opts,
                index + count,
            )));
        }
        index += count;
    }
    assert(classify_from(chars@, opts, n as int) =~= Seq::<Type>::empty());
    assert(categories@ =~= classification(chars@, opts));
    categories
}

} // verus!
