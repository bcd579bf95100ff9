//! A line of a document: its text, its length in grapheme clusters and the
//! highlighting category of each of its characters.

use crate::classifier::classification;
use crate::classifier::classify;
use crate::classifier::lemma_classification_len;
use crate::classifier::mark;
use crate::classifier::marked;
use crate::clusters::between;
use crate::clusters::delete_from;
use crate::clusters::insert_into;
use crate::clusters::join;
use crate::clusters::lemma_offsets;
use crate::clusters::lemma_piece_at;
use crate::clusters::lemma_piece_at_finds;
use crate::clusters::lemma_piece_at_is_first;
use crate::clusters::lemma_pieces_fit;
use crate::clusters::offset_of;
use crate::clusters::piece_at;
use crate::clusters::piece_starting_at;
use crate::clusters::starts_at;
use crate::clusters::with_char;
use crate::clusters::without;
use crate::filetype::HighlightingOptions;
use crate::graphemes::grapheme_clusters;
use crate::graphemes::graphemes;
use crate::graphemes::segmented;
use crate::graphemes::texts;
use crate::highlight::Type;
use crate::position::SearchDirection;
use crate::render::render_pieces;
use crate::render::rendered;
use crate::text::as_int;
use crate::text::char_count_fits;
use crate::text::chars_of;
use crate::text::find_first;
use crate::text::find_last;
use crate::text::first_occurrence;
use crate::text::last_occurrence;
use crate::text::is_first_occurrence;
use crate::text::is_last_occurrence;
use crate::text::lemma_first_occurrence;
use crate::text::lemma_last_occurrence;
use crate::text::occurs_at;
use vstd::prelude::*;
use vstd::seq_lib::lemma_flatten_concat;
use vstd::utf8::encode_utf8;

verus! {

broadcast use Seq::group_seq_flatten;

/// What a `Row` stands for.
pub struct RowView {
    /// The characters of the line.
    pub text: Seq<char>,
    /// The length of the line as the row has counted it, in grapheme clusters.
    pub len: nat,
    /// The categories of the last highlighting; empty before the first.
    pub categories: Seq<Type>,
}

impl RowView {
    /// A line without text.
    pub open spec fn empty() -> RowView {
        RowView { text: Seq::empty(), len: 0, categories: Seq::empty() }
    }

    /// A fresh line that is made of `parts`.
    pub open spec fn of_pieces(parts: Seq<Seq<char>>) -> RowView {
        RowView { text: parts.flatten(), len: parts.len(), categories: Seq::empty() }
    }

    /// A fresh line that holds `text`.
    pub open spec fn of_text(text: Seq<char>) -> RowView {
        RowView { text, len: grapheme_clusters(text).len(), categories: Seq::empty() }
    }

    /// The grapheme clusters of the line's text.
    pub open spec fn clusters(self) -> Seq<Seq<char>> {
        grapheme_clusters(self.text)
    }

    /// The row never counts more clusters than the line has characters.
    pub open spec fn wf(self) -> bool {
        self.len <= self.text.len()
    }

    /// The row's count is the number of clusters that its text has now.
    pub open spec fn counted(self) -> bool {
        self.len == self.clusters().len()
    }

    /// The line made of `parts`, with the categories that this line has.
    pub open spec fn rebuilt(self, parts: Seq<Seq<char>>) -> RowView {
        RowView { text: parts.flatten(), len: parts.len(), ..self }
    }

    /// The line after `c` went in. Where `at` is not below the row's count,
    /// `c` goes to the end and the count grows by one. Else the line is
    /// put together from its clusters, with `c` before cluster `at`, and
    /// counted anew; where the row's count ran ahead of the text and there
    /// is no cluster `at`, `c` does not go in.
    pub open spec fn insert(self, c: char, at: nat) -> RowView {
        if at >= self.len {
            RowView { text: self.text.push(c), len: self.len + 1, ..self }
        } else {
            self.rebuilt(with_char(self.clusters(), c, at))
        }
    }

    /// The line after cluster `at` went out: put together from its other
    /// clusters and counted anew. Where `at` is not below the row's count,
    /// the line stays as it is.
    pub open spec fn delete(self, at: nat) -> RowView {
        if at >= self.len {
            self
        } else {
            self.rebuilt(without(self.clusters(), at))
        }
    }

    /// The line with the text of `other` after its own.
    pub open spec fn append(self, other: RowView) -> RowView {
        RowView { text: self.text + other.text, len: self.len + other.len, ..self }
    }

    /// The clusters of the line before cluster `at`, as a fresh line.
    pub open spec fn split_head(self, at: nat) -> RowView {
        RowView::of_pieces(between(self.clusters(), 0, at))
    }

    /// The clusters of the line from cluster `at` on, as a fresh line.
    pub open spec fn split_tail(self, at: nat) -> RowView {
        RowView::of_pieces(between(self.clusters(), at, self.clusters().len()))
    }

    /// The text of the clusters `start` up to `end`, as far as the line has them.
    pub open spec fn window(self, start: nat, end: nat) -> Seq<char> {
        between(self.clusters(), start, end).flatten()
    }

    /// `pattern`, which is not empty, stands in the line where cluster `at`
    /// starts.
    pub open spec fn stands_at(self, pattern: Seq<char>, at: nat) -> bool {
        &&& at <= self.len
        &&& pattern.len() > 0
        &&& occurs_at(self.window(at, self.len), pattern, 0)
    }

    /// The cluster at which `pattern` is found: forward, its first occurrence
    /// in the clusters from `at` to the row's count; backward, its last
    /// occurrence in the clusters before `at`. The occurrence counts where
    /// it starts at a cluster of the searched text, cut on its own. Nothing
    /// is found for an empty pattern, nor from beyond the row's count.
    pub open spec fn search(self, pattern: Seq<char>, at: nat, direction: SearchDirection) -> Option<int> {
        if at > self.len || pattern.len() == 0 {
            None
        } else {
            let start = if direction == SearchDirection::Forward {
                at
            } else {
                0
            };
            let end = if direction == SearchDirection::Forward {
                self.len
            } else {
                at
            };
            let window = self.window(start, end);
            let found = if direction == SearchDirection::Forward {
                first_occurrence(window, pattern)
            } else {
                last_occurrence(window, pattern)
            };
            match found {
                Some(offset) => match piece_at(grapheme_clusters(window), offset) {
                    Some(index) => Some(start + index),
                    None => None,
                },
                None => None,
            }
        }
    }

    /// The categories after the occurrences of `word` from cluster `from` on
    /// were marked, one after the other: each is looked for from the end of
    /// the one before, so that occurrences that overlap are not both marked.
    /// An occurrence whose end is out of the machine's range ends the marking.
    pub open spec fn overlay_from(self, word: Seq<char>, from: nat, categories: Seq<Type>) -> Seq<Type>
        decreases self.len + 1 - from,
    {
        match self.search(word, from, SearchDirection::Forward) {
            Some(found) => {
                let next = found + grapheme_clusters(word).len();
                if next > usize::MAX {
                    categories
                } else {
                    let marked = marked(categories, found, next);
                    if from < next <= self.len {
                        self.overlay_from(word, next as nat, marked)
                    } else {
                        marked
                    }
                }
            },
            None => categories,
        }
    }

    /// The line with every occurrence of `word` marked as a match; the same
    /// line where there is no word or an empty one.
    pub open spec fn highlight_match(self, word: Option<Seq<char>>) -> RowView {
        match word {
            Some(word) => if word.len() > 0 {
                RowView { categories: self.overlay_from(word, 0, self.categories), ..self }
            } else {
                self
            },
            None => self,
        }
    }

    /// The line classified anew under `opts`, with the occurrences of `word`
    /// marked on top.
    pub open spec fn highlight(self, opts: HighlightingOptions, word: Option<Seq<char>>) -> RowView {
        RowView { categories: classification(self.text, opts), ..self }.highlight_match(word)
    }

    /// The clusters `start` up to `end` of the line as a terminal shows them.
    pub open spec fn render(self, start: nat, end: nat) -> Seq<char> {
        rendered(self.clusters(), self.categories, start, end)
    }
}

/// Putting a character into a line whose count is the number of its
/// clusters lengthens the line by one, whatever the character and wherever
/// it goes.
pub proof fn lemma_insert_lengthens_by_one(row: RowView, c: char, at: nat)
    requires
        row.counted(),
    ensures
        row.insert(c, at).len == row.len + 1,
{
}

/// Taking a cluster out of a line whose count is the number of its clusters
/// shortens the line by one; beyond the end nothing changes.
pub proof fn lemma_delete_shortens_by_one(row: RowView, at: nat)
    requires
        row.counted(),
    ensures
        at < row.len ==> row.delete(at).len == row.len - 1,
        at >= row.len ==> row.delete(at) == row,
{
}

/// Marking matches changes no category count.
pub proof fn lemma_overlay_len(row: RowView, word: Seq<char>, from: nat, categories: Seq<Type>)
    ensures
        row.overlay_from(word, from, categories).len() == categories.len(),
    decreases row.len + 1 - from,
{
    match row.search(word, from, SearchDirection::Forward) {
        Some(found) => {
            let next = found + grapheme_clusters(word).len();
            if next <= usize::MAX && from < next <= row.len {
                lemma_overlay_len(row, word, next as nat, marked(categories, found, next));
            }
        },
        None => {},
    }
}

/// After highlighting, a line has one category for each of its characters,
/// and its text and its length are what they were.
pub proof fn lemma_highlight_covers(row: RowView, opts: HighlightingOptions, word: Option<Seq<char>>)
    ensures
        row.highlight(opts, word).categories.len() == row.text.len(),
        row.highlight(opts, word).text == row.text,
        row.highlight(opts, word).len == row.len,
{
    lemma_classification_len(row.text, opts);
    let classified = RowView { categories: classification(row.text, opts), ..row };
    match word {
        Some(word) => {
            lemma_overlay_len(classified, word, 0, classified.categories);
        },
        None => {},
    }
}

/// Highlighting a line twice with the same rules and the same word gives
/// what highlighting it once gives.
pub proof fn lemma_highlight_twice(row: RowView, opts: HighlightingOptions, word: Option<Seq<char>>)
    ensures
        row.highlight(opts, word).highlight(opts, word) == row.highlight(opts, word),
{
    let once = row.highlight(opts, word);
    let classified = RowView { categories: classification(row.text, opts), ..row };
    assert(RowView { categories: classification(once.text, opts), ..once } == classified);
}

/// The clusters `start` up to `end` of a line hold the text between the
/// places where cluster `start` and cluster `end` start.
pub proof fn lemma_window_of_text(row: RowView, start: nat, end: nat)
    requires
        segmented(row.text),
        start <= end <= row.clusters().len(),
    ensures
        0 <= offset_of(row.clusters(), start as int) <= offset_of(row.clusters(), end as int)
            <= row.text.len(),
        row.window(start, end) == row.text.subrange(
            offset_of(row.clusters(), start as int),
            offset_of(row.clusters(), end as int),
        ),
{
    let clusters = row.clusters();
    lemma_offsets(clusters, start as int, end as int);
    lemma_offsets(clusters, 0, start as int);
    let before = clusters.take(start as int).flatten();
    let inside = clusters.subrange(start as int, end as int).flatten();
    let after = clusters.skip(end as int).flatten();
    lemma_flatten_concat(clusters.take(start as int), clusters.subrange(start as int, end as int));
    assert(clusters.take(start as int) + clusters.subrange(start as int, end as int)
        =~= clusters.take(end as int));
    lemma_flatten_concat(clusters.take(end as int), clusters.skip(end as int));
    assert(clusters.take(end as int) + clusters.skip(end as int) =~= clusters);
    assert(row.text =~= before + inside + after);
    assert(row.text.subrange(before.len() as int, (before.len() + inside.len()) as int) =~= inside);
}

/// A forward search for a pattern that stands in the line where cluster
/// `at` starts finds it at `at`.
pub proof fn lemma_search_forward_finds(row: RowView, pattern: Seq<char>, at: nat)
    requires
        row.counted(),
        segmented(row.text),
        segmented(row.window(at, row.len)),
        pattern.len() > 0,
        at <= row.len,
        occurs_at(row.text, pattern, offset_of(row.clusters(), at as int)),
    ensures
        row.search(pattern, at, SearchDirection::Forward) == Some(at as int),
{
    let window = row.window(at, row.len);
    let pieces = grapheme_clusters(window);
    let offset = offset_of(row.clusters(), at as int);
    lemma_window_of_text(row, at, row.len);
    assert(row.clusters().take(row.len as int) =~= row.clusters());
    assert(window.subrange(0, pattern.len() as int) =~= row.text.subrange(
        offset,
        offset + pattern.len(),
    ));
    assert(is_first_occurrence(window, pattern, 0));
    lemma_first_occurrence(window, pattern, 0);
    if pieces.len() == 0 {
        assert(pieces.flatten() =~= Seq::<char>::empty());
    }
    assert(pieces.take(0) =~= Seq::<Seq<char>>::empty());
    lemma_piece_at(pieces, 0, 0);
}

/// A backward search from cluster `from` finds a pattern at cluster `at`
/// where these hold: `at` lies before `from`; the pattern stands in the
/// line where cluster `at` starts, ends where cluster `from` starts or
/// before, and stands nowhere later before `from`; and the clusters before
/// `from`, taken as a text of their own, are cut as they are cut in the line.
pub proof fn lemma_search_backward_finds(row: RowView, pattern: Seq<char>, at: nat, from: nat)
    requires
        row.counted(),
        segmented(row.text),
        grapheme_clusters(row.window(0, from)) == row.clusters().take(from as int),
        pattern.len() > 0,
        at < from <= row.len,
        occurs_at(row.text, pattern, offset_of(row.clusters(), at as int)),
        offset_of(row.clusters(), at as int) + pattern.len() <= offset_of(row.clusters(), from as int),
        forall|k: int|
            offset_of(row.clusters(), at as int) < k && k + pattern.len() <= offset_of(
                row.clusters(),
                from as int,
            ) ==> !occurs_at(row.text, pattern, k),
    ensures
        row.search(pattern, from, SearchDirection::Backward) == Some(at as int),
{
    let window = row.window(0, from);
    let pieces = row.clusters().take(from as int);
    let offset = offset_of(row.clusters(), at as int);
    let end = offset_of(row.clusters(), from as int);
    assert(row.clusters().take(0) =~= Seq::<Seq<char>>::empty());
    assert(offset_of(row.clusters(), 0) == 0);
    lemma_window_of_text(row, 0, from);
    assert(window == row.text.subrange(0, end));
    assert(window.subrange(offset, offset + pattern.len()) =~= row.text.subrange(
        offset,
        offset + pattern.len(),
    ));
    assert(occurs_at(window, pattern, offset));
    assert forall|k: int| offset < k implies !occurs_at(window, pattern, k) by {
        if k + pattern.len() <= end {
            assert(window.subrange(k, k + pattern.len()) =~= row.text.subrange(
                k,
                k + pattern.len(),
            ));
            assert(!occurs_at(row.text, pattern, k));
        }
    }
    assert(is_last_occurrence(window, pattern, offset));
    lemma_last_occurrence(window, pattern, offset);
    assert(pieces.take(at as int) =~= row.clusters().take(at as int));
    lemma_piece_at_finds(pieces, at as int);
}

/// The characters of the word to look for, if there is one.
pub open spec fn word_text(word: Option<&str>) -> Option<Seq<char>> {
    match word {
        Some(word) => Some(word@),
        None => None,
    }
}

/// An editable line of text.
pub struct Row {
    string: String,
    len: usize,
    highlighting: Vec<Type>,
}

impl View for Row {
    type V = RowView;

    closed spec fn view(&self) -> RowView {
        RowView { text: self.string@, len: self.len as nat, categories: self.highlighting@ }
    }
}

impl Default for Row {
    fn default() -> (row: Row)
        ensures
            row@ == RowView::empty(),
            row.wf(),
    {
        Row { string: String::new(), len: 0, highlighting: Vec::new() }
    }
}

/// A row cannot be written down as a value in a specification, so `from`
/// states what it makes in its own contract, over the row's view.
impl vstd::std_specs::convert::FromSpecImpl<&str> for Row {
    open spec fn obeys_from_spec() -> bool {
        false
    }

    open spec fn from_spec(slice: &str) -> Row {
        arbitrary()
    }
}

impl From<&str> for Row {
    /// A fresh line that holds `slice`; its length is the number of grapheme
    /// clusters of `slice`.
    fn from(slice: &str) -> (row: Row)
        ensures
            row@ == RowView::of_text(slice@),
            row@.counted(),
            row.wf(),
    {
        let parts = graphemes(slice);
        proof {
            lemma_pieces_fit(texts(parts@));
        }
        Row { string: slice.to_owned(), len: parts.len(), highlighting: Vec::new() }
    }
}

impl Row {
    /// See `RowView::wf`.
    pub open spec fn wf(&self) -> bool {
        self@.wf()
    }

    /// The line as a terminal shows its grapheme clusters `start` up to
    /// `end`: one character for each cluster, a space for a tab, and an
    /// escape sequence wherever the category changes.
    pub fn render(&self, start: usize, end: usize) -> (result: String)
        ensures
            result@ == self@.render(start as nat, end as nat),
    {
        let parts = graphemes(self.string.as_str());
        render_pieces(&parts, &self.highlighting, start, end)
    }

    /// Marks every occurrence of `word` in the line as a match, on top of
    /// the categories that the line has. Occurrences are looked for from
    /// left to right, each from the end of the one before.
    pub fn highlight_match(&mut self, word: Option<&str>)
        requires
            old(self).wf(),
        ensures
            final(self)@ == old(self)@.highlight_match(word_text(word)),
            final(self).wf(),
    {
        if let Some(word) = word {
            if word.is_empty() {
                return ;
            }
            let word_parts = graphemes(word);
            let word_len: usize = word_parts.len();
            proof {
                if word_len == 0 {
                    assert(texts(word_parts@) =~= Seq::<Seq<char>>::empty());
                }
            }
            let ghost goal = old(self)@.overlay_from(word@, 0, old(self)@.categories);
            let mut index: usize = 0;
            loop
                invariant_except_break
                    self.wf(),
                    self@.text == old(self)@.text,
                    self@.len == old(self)@.len,
                    word_len == grapheme_clusters(word@).len(),
                    word_len >= 1,
                    goal == old(self)@.overlay_from(word@, index as nat, self@.categories),
                ensures
                    self.wf(),
                    self@.text == old(self)@.text,
                    self@.len == old(self)@.len,
                    goal == self@.categories,
                decreases
                    (if index <= self.len {
                        self.len + 1 - index
                    } else {
                        0
                    }),
            {
                let search_match = self.search(word, index, SearchDirection::Forward);
                match search_match {
                    Some(search_match) => {
                        proof {
                            lemma_piece_at_is_first(
                                grapheme_clusters(self@.window(index as nat, self@.len)),
                                first_occurrence(self@.window(index as nat, self@.len), word@).unwrap(),
                            );
                        }
                        assert(old(self)@.search(word@, index as nat, SearchDirection::Forward)
                            == Some(search_match as int));
                        match search_match.checked_add(word_len) {
                            Some(next_index) => {
                                mark(&mut self.highlighting, search_match, next_index);
                                assert(next_index > self.len ==> old(self)@.search(
                                    word@,
                                    next_index as nat,
                                    SearchDirection::Forward,
                                ).is_none());
                                index = next_index;
                            },
                            None => {
                                break ;
                            },
                        }
                    },
                    None => {
                        break ;
                    },
                }
            }
        }
    }

    /// Classifies the line anew under `opts` and marks the occurrences of
    /// `word` on top. Afterwards the line has one category for each of its
    /// characters.
    pub fn highlight(&mut self, opts: &HighlightingOptions, word: Option<&str>)
        requires
            old(self).wf(),
        ensures
            final(self)@ == old(self)@.highlight(*opts, word_text(word)),
            final(self)@.categories.len() == final(self)@.text.len(),
            final(self).wf(),
    {
        let chars = chars_of(self.string.as_str());
        self.highlighting = classify(chars.as_slice(), *opts);
        self.highlight_match(word);
        proof {
            lemma_highlight_covers(old(self)@, *opts, word_text(word));
        }
    }

    /// Puts `c` before the grapheme cluster at `at`, or at the end of the
    /// line where `at` is not below the length.
    pub fn insert(&mut self, c: char, at: usize)
        requires
            old(self).wf(),
        ensures
            final(self)@ == old(self)@.insert(c, at as nat),
            old(self)@.counted() ==> final(self)@.len == old(self)@.len + 1,
            final(self).wf(),
    {
        if at >= self.len {
            self.string.push(c);
            char_count_fits(self.string.as_str());
            self.len += 1;
            return ;
        }
        let mut parts = graphemes(self.string.as_str());
        insert_into(&mut parts, c, at);
        let (result, length) = join(&parts, 0, parts.len());
        proof {
            assert(between(texts(parts@), 0, parts@.len() as nat) =~= texts(parts@));
            lemma_pieces_fit(texts(parts@));
        }
        self.len = length;
        self.string = result;
    }

    /// Takes out the grapheme cluster at `at`; does nothing where `at` is
    /// not below the length.
    pub fn delete(&mut self, at: usize)
        requires
            old(self).wf(),
        ensures
            final(self)@ == old(self)@.delete(at as nat),
            final(self).wf(),
    {
        if at >= self.len {
            return ;
        }
        let mut parts = graphemes(self.string.as_str());
        delete_from(&mut parts, at);
        let (result, length) = join(&parts, 0, parts.len());
        proof {
            assert(between(texts(parts@), 0, parts@.len() as nat) =~= texts(parts@));
            lemma_pieces_fit(texts(parts@));
        }
        self.len = length;
        self.string = result;
    }

    /// The length of the line in grapheme clusters, as the row has counted it.
    pub fn len(&self) -> (len: usize)
        ensures
            len == self@.len,
    {
        self.len
    }

    pub fn is_empty(&self) -> (empty: bool)
        ensures
            empty == (self@.len == 0),
    {
        self.len == 0
    }

    /// Puts the text of `row` after the text of this line.
    pub fn append(&mut self, row: &Row)
        requires
            old(self).wf(),
            row.wf(),
        ensures
            final(self)@ == old(self)@.append(row@),
            final(self).wf(),
    {
        self.string.append(row.string.as_str());
        char_count_fits(self.string.as_str());
        self.len += row.len;
    }

    /// Cuts the line before the grapheme cluster at `at`: the line keeps the
    /// clusters before it and the result holds the rest. Neither is
    /// highlighted afterwards.
    pub fn split(&mut self, at: usize) -> (rest: Row)
        requires
            old(self).wf(),
        ensures
            final(self)@ == old(self)@.split_head(at as nat),
            rest@ == old(self)@.split_tail(at as nat),
            final(self).wf(),
            rest.wf(),
    {
        let parts = graphemes(self.string.as_str());
        let (row, length) = join(&parts, 0, at);
        let (splitted_row, splitted_length) = join(&parts, at, parts.len());
        proof {
            lemma_pieces_fit(between(texts(parts@), 0, at as nat));
            lemma_pieces_fit(between(texts(parts@), at as nat, parts@.len()));
        }
        self.string = row;
        self.len = length;
        self.highlighting = Vec::new();
        Row { string: splitted_row, len: splitted_length, highlighting: Vec::new() }
    }

    /// Looks for `match_string` in the line: forward from the grapheme
    /// cluster at `at`, or backward in the clusters before it.
    pub fn search(&self, match_string: &str, at: usize, direction: SearchDirection) -> (found: Option<usize>)
        requires
            self.wf(),
        ensures
            as_int(found) == self@.search(match_string@, at as nat, direction),
            direction == SearchDirection::Forward && self@.stands_at(match_string@, at as nat)
                ==> found == Some(at),
    {
        if at > self.len || match_string.is_empty() {
            return None;
        }
        let start: usize = if direction == SearchDirection::Forward {
            at
        } else {
            0
        };
        let end: usize = if direction == SearchDirection::Forward {
            self.len
        } else {
            at
        };
        let parts = graphemes(self.string.as_str());
        let (substring, _) = join(&parts, start, end);
        let hay = chars_of(substring.as_str());
        let needle = chars_of(match_string);
        let matching_index = if direction == SearchDirection::Forward {
            find_first(hay.as_slice(), needle.as_slice())
        } else {
            find_last(hay.as_slice(), needle.as_slice())
        };
        let ghost stands = direction == SearchDirection::Forward && occurs_at(
            substring@,
            match_string@,
            0,
        );
        assert(stands ==> matching_index == Some(0usize));
        if let Some(matching_index) = matching_index {
            let pieces = graphemes(substring.as_str());
            proof {
                if texts(pieces@).len() == 0 {
                    assert(texts(pieces@).flatten() =~= Seq::<char>::empty());
                }
                assert(texts(pieces@).take(0) =~= Seq::<Seq<char>>::empty());
                assert(stands ==> starts_at(texts(pieces@), 0, 0));
            }
            if let Some(index) = piece_starting_at(&pieces, matching_index) {
                assert(stands ==> index == 0);
                char_count_fits(self.string.as_str());
                proof {
                    let clusters = texts(parts@);
                    let n = clusters.len();
                    let from = if start <= n {
                        start as int
                    } else {
                        n as int
                    };
                    let to = if end <= from {
                        from
                    } else if end <= n {
                        end as int
                    } else {
                        n as int
                    };
                    lemma_pieces_fit(texts(pieces@));
                    lemma_pieces_fit(clusters.take(from));
                    lemma_offsets(clusters, from, to);
                }
                return Some(start + index);
            }
        }
        None
    }

    /// The categories of the last highlighting, one for each character.
    pub fn highlighting(&self) -> (categories: &Vec<Type>)
        ensures
            categories@ == self@.categories,
    {
        &self.highlighting
    }

    /// A copy of the text of the line.
    pub fn text(&self) -> (text: String)
        ensures
            text@ == self@.text,
    {
        self.string.clone()
    }

    /// The text of the line in UTF-8.
    pub fn as_bytes(&self) -> (bytes: &[u8])
        ensures
            bytes@ == encode_utf8(self@.text),
    {
        self.string.as_str().as_bytes()
    }
}

} // verus!
