//! Character sequences: reading a string's characters and finding one
//! sequence inside another.

use vstd::prelude::*;
use vstd::utf8::encode_utf8;

verus! {

/// `String::push`: the string afterwards is the string before with `c` at its end.
pub assume_specification[ std::string::String::push ](s: &mut std::string::String, c: char)
    ensures
        final(s)@ == old(s)@.push(c),
;

/// Every character takes at least one byte in UTF-8.
pub proof fn lemma_chars_fit_in_bytes(chars: Seq<char>)
    ensures
        chars.len() <= encode_utf8(chars).len(),
    decreases chars.len(),
{
    if chars.len() > 0 {
        lemma_chars_fit_in_bytes(chars.drop_first());
    }
}

/// Learns that the number of characters of a string that exists fits in `usize`.
pub(crate) fn char_count_fits(s: &str)
    ensures
        s@.len() <= usize::MAX,
{
    let bytes = s.as_bytes();
    let _byte_count: usize = bytes.len();
    proof {
        lemma_chars_fit_in_bytes(s@);
    }
}

/// The characters of `s`, in order.
pub fn chars_of(s: &str) -> (out: Vec<char>)
    ensures
        out@ == s@,
{
    let mut out: Vec<char> = Vec::new();
    for c in it: s.chars()
        invariant
            it.seq() == s@,
            out@ == it.seq().take(it.index()),
    {
        out.push(c);
        assert(it.seq().take(it.index() + 1) =~= it.seq().take(it.index()).push(c));
    }
    assert(out@ =~= s@);
    out
}

/// `needle` stands in `hay` at offset `k`.
pub open spec fn occurs_at(hay: Seq<char>, needle: Seq<char>, k: int) -> bool {
    &&& 0 <= k
    &&& k + needle.len() <= hay.len()
    &&& hay.subrange(k, k + needle.len()) == needle
}

/// `k` is the least offset at which `needle` stands in `hay`.
pub open spec fn is_first_occurrence(hay: Seq<char>, needle: Seq<char>, k: int) -> bool {
    &&& occurs_at(hay, needle, k)
    &&& forall|j: int| j < k ==> !occurs_at(hay, needle, j)
}

/// `k` is the greatest offset at which `needle` stands in `hay`.
pub open spec fn is_last_occurrence(hay: Seq<char>, needle: Seq<char>, k: int) -> bool {
    &&& occurs_at(hay, needle, k)
    &&& forall|j: int| k < j ==> !occurs_at(hay, needle, j)
}

/// The least offset at which `needle` stands in `hay`, if it stands in it.
pub open spec fn first_occurrence(hay: Seq<char>, needle: Seq<char>) -> Option<int> {
    if exists|k: int| occurs_at(hay, needle, k) {
        Some(choose|k: int| is_first_occurrence(hay, needle, k))
    } else {
        None
    }
}

/// The greatest offset at which `needle` stands in `hay`, if it stands in it.
pub open spec fn last_occurrence(hay: Seq<char>, needle: Seq<char>) -> Option<int> {
    if exists|k: int| occurs_at(hay, needle, k) {
        Some(choose|k: int| is_last_occurrence(hay, needle, k))
    } else {
        None
    }
}

/// The number that was found, if one was, as an integer.
pub open spec fn as_int(found: Option<usize>) -> Option<int> {
    match found {
        Some(k) => Some(k as int),
        None => None,
    }
}

/// There is one least occurrence at most, and `first_occurrence` is it.
pub proof fn lemma_first_occurrence(hay: Seq<char>, needle: Seq<char>, k: int)
    requires
        is_first_occurrence(hay, needle, k),
    ensures
        first_occurrence(hay, needle) == Some(k),
{
    let chosen = choose|k: int| is_first_occurrence(hay, needle, k);
    assert(is_first_occurrence(hay, needle, chosen));
    assert(!(chosen < k) && !(k < chosen));
}

/// There is one greatest occurrence at most, and `last_occurrence` is it.
pub proof fn lemma_last_occurrence(hay: Seq<char>, needle: Seq<char>, k: int)
    requires
        is_last_occurrence(hay, needle, k),
    ensures
        last_occurrence(hay, needle) == Some(k),
{
    let chosen = choose|k: int| is_last_occurrence(hay, needle, k);
    assert(is_last_occurrence(hay, needle, chosen));
    assert(!(chosen < k) && !(k < chosen));
}

/// Where `needle` stands in `hay` at `k`, it stands at a least offset.
proof fn lemma_first_occurrence_exists(hay: Seq<char>, needle: Seq<char>, k: int)
    requires
        occurs_at(hay, needle, k),
    ensures
        exists|first: int| is_first_occurrence(hay, needle, first),
    decreases k,
{
    if exists|j: int| j < k && occurs_at(hay, needle, j) {
        let j = choose|j: int| j < k && occurs_at(hay, needle, j);
        lemma_first_occurrence_exists(hay, needle, j);
    } else {
        assert(is_first_occurrence(hay, needle, k));
    }
}

/// Where `needle` stands in `hay` at `k`, it stands at a greatest offset.
proof fn lemma_last_occurrence_exists(hay: Seq<char>, needle: Seq<char>, k: int)
    requires
        occurs_at(hay, needle, k),
    ensures
        exists|last: int| is_last_occurrence(hay, needle, last),
    decreases hay.len() - k,
{
    if exists|j: int| k < j && occurs_at(hay, needle, j) {
        let j = choose|j: int| k < j && occurs_at(hay, needle, j);
        lemma_last_occurrence_exists(hay, needle, j);
    } else {
        assert(is_last_occurrence(hay, needle, k));
    }
}

/// What `first_occurrence` and `last_occurrence` give are the least and
/// the greatest offset at which `needle` stands in `hay`; they give nothing
/// only where it stands nowhere.
pub proof fn lemma_occurrences(hay: Seq<char>, needle: Seq<char>)
    ensures
        match first_occurrence(hay, needle) {
            Some(k) => is_first_occurrence(hay, needle, k),
            None => forall|j: int| !occurs_at(hay, needle, j),
        },
        match last_occurrence(hay, needle) {
            Some(k) => is_last_occurrence(hay, needle, k),
            None => forall|j: int| !occurs_at(hay, needle, j),
        },
{
    if exists|k: int| occurs_at(hay, needle, k) {
        let k = choose|k: int| occurs_at(hay, needle, k);
        lemma_first_occurrence_exists(hay, needle, k);
        lemma_last_occurrence_exists(hay, needle, k);
    }
}

/// Does `needle` stand in `hay` at offset `k`?
pub fn stands_at(hay: &[char], needle: &[char], k: usize) -> (r: bool)
    ensures
        r == occurs_at(hay@, needle@, k as int),
{
    if k > hay.len() || needle.len() > hay.len() - k {
        return false;
    }
    let mut j: usize = 0;
    while j < needle.len()
        invariant
            j <= needle@.len(),
            k + needle@.len() <= hay@.len() <= usize::MAX,
            forall|i: int| 0 <= i < j ==> hay@[k + i] == needle@[i],
        decreases needle@.len() - j,
    {
        if hay[k + j] != needle[j] {
            assert(hay@.subrange(k as int, k + needle@.len())[j as int] == hay@[k + j]);
            return false;
        }
        j += 1;
    }
    assert(hay@.subrange(k as int, k + needle@.len()) =~= needle@);
    true
}

/// The offset of the first place in `hay` where `needle` stands.
pub fn find_first(hay: &[char], needle: &[char]) -> (found: Option<usize>)
    ensures
        as_int(found) == first_occurrence(hay@, needle@),
        match found {
            Some(k) => is_first_occurrence(hay@, needle@, k as int),
            None => forall|j: int| !occurs_at(hay@, needle@, j),
        },
{
    if needle.len() > hay.len() {
        return None;
    }
    let last: usize = hay.len() - needle.len();
    let mut k: usize = 0;
    loop
        invariant
            last == hay@.len() - needle@.len(),
            k <= last,
            forall|j: int| j < k ==> !occurs_at(hay@, needle@, j),
        decreases last - k,
    {
        if stands_at(hay, needle, k) {
            proof {
                lemma_first_occurrence(hay@, needle@, k as int);
            }
            return Some(k);
        }
        if k == last {
            return None;
        }
        k += 1;
    }
}

/// The offset of the last place in `hay` where `needle` stands.
pub fn find_last(hay: &[char], needle: &[char]) -> (found: Option<usize>)
    ensures
        as_int(found) == last_occurrence(hay@, needle@),
        match found {
            Some(k) => is_last_occurrence(hay@, needle@, k as int),
            None => forall|j: int| !occurs_at(hay@, needle@, j),
        },
{
    if needle.len() > hay.len() {
        return None;
    }
    let mut k: usize = hay.len() - needle.len();
    loop
        invariant
            k + needle@.len() <= hay@.len(),
            forall|j: int| k < j ==> !occurs_at(hay@, needle@, j),
        decreases k,
    {
        if stands_at(hay, needle, k) {
            proof {
                lemma_last_occurrence(hay@, needle@, k as int);
            }
            return Some(k);
        }
        if k == 0 {
            return None;
        }
        k -= 1;
    }
}

/// The number of characters before the first line feed of `text`, or in the
/// whole of it where it holds none.
pub open spec fn line_len(text: Seq<char>) -> int
    decreases text.len(),
{
    if text.len() == 0 || text[0] == '\n' {
        0
    } else {
        1 + line_len(text.drop_first())
    }
}

/// `line` without the carriage return at its end, if it has one.
pub open spec fn without_carriage_return(line: Seq<char>) -> Seq<char> {
    if line.len() > 0 && line.last() == '\r' {
        line.drop_last()
    } else {
        line
    }
}

/// The lines of `text`. A line ends at a line feed, or at a carriage return
/// and the line feed after it; neither is part of the line. What follows the
/// last line feed is a line of its own unless it is empty.
pub open spec fn lines_of(text: Seq<char>) -> Seq<Seq<char>>
    decreases text.len(),
{
    let end = line_len(text);
    if text.len() == 0 {
        Seq::empty()
    } else if 0 <= end < text.len() {
        seq![without_carriage_return(text.take(end))] + lines_of(text.skip(end + 1))
    } else {
        seq![text]
    }
}

/// The text that holds each of `lines` with a line feed after it.
pub open spec fn join_lines(lines: Seq<Seq<char>>) -> Seq<char>
    decreases lines.len(),
{
    if lines.len() == 0 {
        Seq::empty()
    } else {
        lines.first() + seq!['\n'] + join_lines(lines.drop_first())
    }
}

/// `line` holds no line feed.
pub open spec fn has_no_line_feed(line: Seq<char>) -> bool {
    forall|i: int| 0 <= i < line.len() ==> line[i] != '\n'
}

/// `line` does not end in a carriage return.
pub open spec fn ends_clean(line: Seq<char>) -> bool {
    line.len() == 0 || line.last() != '\r'
}

/// The first line of a text ends within the text, at its first line feed.
pub proof fn lemma_line_len(text: Seq<char>)
    ensures
        0 <= line_len(text) <= text.len(),
        line_len(text) < text.len() ==> text[line_len(text)] == '\n',
        has_no_line_feed(text.take(line_len(text))),
    decreases text.len(),
{
    if text.len() > 0 && text[0] != '\n' {
        let rest = text.drop_first();
        lemma_line_len(rest);
        let n = line_len(rest);
        assert forall|i: int| 0 <= i < line_len(text) implies text.take(line_len(text))[i] != '\n' by {
            if i > 0 {
                assert(rest.take(n)[i - 1] == text[i]);
            }
        }
    }
}

/// A text that starts with a line without line feeds, and a line feed after
/// it, has that line as its first.
pub proof fn lemma_line_len_of_joined(line: Seq<char>, rest: Seq<char>)
    requires
        has_no_line_feed(line),
    ensures
        line_len(line + seq!['\n'] + rest) == line.len(),
    decreases line.len(),
{
    let text = line + seq!['\n'] + rest;
    if line.len() > 0 {
        assert(text[0] == line[0]);
        assert(text.drop_first() =~= line.drop_first() + seq!['\n'] + rest);
        lemma_line_len_of_joined(line.drop_first(), rest);
    } else {
        assert(text[0] == '\n');
    }
}

/// One line more is joined by putting it, and a line feed, at the end.
pub proof fn lemma_join_lines_push(lines: Seq<Seq<char>>, line: Seq<char>)
    ensures
        join_lines(lines.push(line)) == join_lines(lines) + line + seq!['\n'],
    decreases lines.len(),
{
    let longer = lines.push(line);
    if lines.len() == 0 {
        assert(longer.first() == line);
        assert(join_lines(longer.drop_first()) =~= Seq::<char>::empty());
        assert(join_lines(lines) =~= Seq::<char>::empty());
        assert(join_lines(longer) =~= join_lines(lines) + line + seq!['\n']);
    } else {
        assert(longer.first() == lines.first());
        assert(longer.drop_first() =~= lines.drop_first().push(line));
        lemma_join_lines_push(lines.drop_first(), line);
        assert(join_lines(longer) =~= join_lines(lines) + line + seq!['\n']);
    }
}

/// No line of a text holds a line feed.
pub proof fn lemma_lines_hold_no_line_feed(text: Seq<char>)
    ensures
        forall|i: int| 0 <= i < lines_of(text).len() ==> has_no_line_feed(#[trigger] lines_of(text)[i]),
    decreases text.len(),
{
    let end = line_len(text);
    lemma_line_len(text);
    if text.len() > 0 {
        if end < text.len() {
            lemma_lines_hold_no_line_feed(text.skip(end + 1));
            let first = without_carriage_return(text.take(end));
            assert(has_no_line_feed(first)) by {
                assert forall|i: int| 0 <= i < first.len() implies first[i] != '\n' by {
                    assert(first[i] == text.take(end)[i]);
                }
            }
            assert forall|i: int| 0 <= i < lines_of(text).len() implies has_no_line_feed(
                #[trigger] lines_of(text)[i],
            ) by {
                if i > 0 {
                    assert(lines_of(text)[i] == lines_of(text.skip(end + 1))[i - 1]);
                }
            }
        } else {
            assert(text.take(end) =~= text);
        }
    }
}

/// Lines without line feeds that do not end in a carriage return are read
/// back from the text that joins them.
pub proof fn lemma_lines_of_joined(lines: Seq<Seq<char>>)
    requires
        forall|i: int| 0 <= i < lines.len() ==> has_no_line_feed(#[trigger] lines[i]),
        forall|i: int| 0 <= i < lines.len() ==> ends_clean(#[trigger] lines[i]),
    ensures
        lines_of(join_lines(lines)) == lines,
    decreases lines.len(),
{
    if lines.len() > 0 {
        let first = lines.first();
        let rest = lines.drop_first();
        let text = join_lines(lines);
        assert(has_no_line_feed(first));
        assert(ends_clean(first));
        lemma_line_len_of_joined(first, join_lines(rest));
        assert(text.take(first.len() as int) =~= first);
        assert(text.skip(first.len() as int + 1) =~= join_lines(rest));
        assert forall|i: int| 0 <= i < rest.len() implies has_no_line_feed(#[trigger] rest[i]) by {
            assert(rest[i] == lines[i + 1]);
        }
        assert forall|i: int| 0 <= i < rest.len() implies ends_clean(#[trigger] rest[i]) by {
            assert(rest[i] == lines[i + 1]);
        }
        lemma_lines_of_joined(rest);
        assert(lines_of(text) =~= seq![first] + rest);
        assert(seq![first] + rest =~= lines);
    }
}

/// The lines of `content`, each in a string of its own.
pub fn split_lines(content: &str) -> (lines: Vec<String>)
    ensures
        lines@.map_values(|line: String| line@) == lines_of(content@),
{
    let chars = chars_of(content);
    let n: usize = chars.len();
    let mut lines: Vec<String> = Vec::new();
    let mut start: usize = 0;
    assert(chars@.skip(0) =~= chars@);
    while start < n
        invariant
            start <= n,
            n == chars@.len(),
            chars@ == content@,
            lines@.map_values(|line: String| line@) + lines_of(chars@.skip(start as int)) == lines_of(
                chars@,
            ),
        decreases n - start,
    {
        let ghost rest = chars@.skip(start as int);
        let mut end: usize = start;
        while end < n && chars[end] != '\n'
            invariant
                start <= end <= n,
                n == chars@.len(),
                rest == chars@.skip(start as int),
                line_len(rest) == (end - start) + line_len(chars@.skip(end as int)),
            decreases n - end,
        {
            assert(chars@.skip(end as int).drop_first() =~= chars@.skip(end + 1));
            end += 1;
        }
        assert(line_len(rest) == end - start) by {
            if end < n {
                assert(chars@.skip(end as int)[0] == '\n');
            }
        }
        let stop: usize = if end < n && end > start && chars[end - 1] == '\r' {
            end - 1
        } else {
            end
        };
        let mut line = String::new();
        let mut index: usize = start;
        while index < stop
            invariant
                start <= index <= stop <= n,
                n == chars@.len(),
                line@ == chars@.subrange(start as int, index as int),
            decreases stop - index,
        {
            line.push(chars[index]);
            index += 1;
            assert(line@ =~= chars@.subrange(start as int, index as int));
        }
        let ghost before = lines@.map_values(|line: String| line@);
        proof {
            assert(rest.take(end - start) =~= chars@.subrange(start as int, end as int));
            if end < n {
                assert(line@ =~= without_carriage_return(rest.take(end - start)));
                assert(rest.skip(end - start + 1) =~= chars@.skip(end + 1));
                assert(lines_of(rest) == seq![line@] + lines_of(chars@.skip(end + 1)));
            } else {
                assert(line@ =~= rest);
                assert(lines_of(rest) == seq![line@]);
                assert(lines_of(chars@.skip(n as int)) =~= Seq::<Seq<char>>::empty());
            }
        }
        lines.push(line);
        proof {
            assert(lines@.map_values(|line: String| line@) =~= before.push(line@));
            let after = if end < n {
                end + 1
            } else {
                n as int
            };
            assert(before.push(line@) + lines_of(chars@.skip(after)) =~= before + (seq![line@]
                + lines_of(chars@.skip(after))));
        }
        if end < n {
            start = end + 1;
        } else {
            start = n;
        }
    }
    assert(lines_of(chars@.skip(n as int)) =~= Seq::<Seq<char>>::empty());
    assert(lines@.map_values(|line: String| line@) =~= lines_of(content@));
    lines
}

} // verus!
