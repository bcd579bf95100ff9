//! A document: lines in order, the name of the file they belong to, and
//! whether they were changed since they were last loaded or saved.

use crate::filetype::FileType;
use crate::filetype::FileTypeView;
use crate::filetype::HighlightingOptions;
use crate::position::Position;
use crate::position::SearchDirection;
use crate::graphemes::grapheme_clusters;
use crate::graphemes::segmented;
use crate::clusters::offset_of;
use crate::row::lemma_search_backward_finds;
use crate::row::lemma_search_forward_finds;
use crate::row::word_text;
use crate::row::Row;
use crate::row::RowView;
use crate::text::ends_clean;
use crate::text::join_lines;
use crate::text::lemma_join_lines_push;
use crate::text::lemma_lines_hold_no_line_feed;
use crate::text::lemma_lines_of_joined;
use crate::text::occurs_at;
use crate::text::lines_of;
use crate::text::split_lines;
use vstd::prelude::*;

verus! {

/// What a `Document` stands for.
pub struct DocumentView {
    /// The lines, first to last.
    pub rows: Seq<RowView>,
    /// The name of the file that the lines belong to, if there is one.
    pub file_name: Option<Seq<char>>,
    /// Whether the lines were changed since they were last loaded or saved.
    pub dirty: bool,
    /// The kind of the file, which decides how lines are highlighted.
    pub file_type: FileTypeView,
}

impl DocumentView {
    /// A document without lines that belongs to no file.
    pub open spec fn empty() -> DocumentView {
        DocumentView {
            rows: Seq::empty(),
            file_name: None,
            dirty: false,
            file_type: FileTypeView::unknown(),
        }
    }

    /// Every line is well-formed.
    pub open spec fn wf(self) -> bool {
        forall|i: int| 0 <= i < self.rows.len() ==> (#[trigger] self.rows[i]).wf()
    }

    /// The rules under which the lines are highlighted.
    pub open spec fn options(self) -> HighlightingOptions {
        self.file_type.options
    }

    /// The text of every line, first to last.
    pub open spec fn texts(self) -> Seq<Seq<char>> {
        self.rows.map_values(|row: RowView| row.text)
    }

    /// `row` as it stands in the document after a change: highlighted under
    /// the document's rules, with no match marked.
    pub open spec fn settled(self, row: RowView) -> RowView {
        row.highlight(self.options(), None)
    }

    /// The document that holds the lines of `content` under the name
    /// `file_name`, each line highlighted as the kind of the file asks.
    pub open spec fn load(file_name: Seq<char>, content: Seq<char>) -> DocumentView {
        let file_type = FileTypeView::of(file_name);
        DocumentView {
            rows: lines_of(content).map_values(
                |line: Seq<char>| RowView::of_text(line).highlight(file_type.options, None),
            ),
            file_name: Some(file_name),
            dirty: false,
            file_type,
        }
    }

    /// What is written when the document is saved: each line with a line
    /// feed after it.
    pub open spec fn text(self) -> Seq<char> {
        join_lines(self.texts())
    }

    /// The document after it was written to its file: the kind of the file
    /// is told from the name anew, every line is highlighted under it, and
    /// nothing is left to save. A document without a file stays as it is.
    pub open spec fn saved(self) -> DocumentView {
        match self.file_name {
            Some(file_name) => {
                let file_type = FileTypeView::of(file_name);
                DocumentView {
                    rows: self.rows.map_values(|row: RowView| row.highlight(file_type.options, None)),
                    dirty: false,
                    file_type,
                    ..self
                }
            },
            None => self,
        }
    }

    /// The document with every line highlighted anew and the occurrences of
    /// `word` marked.
    pub open spec fn highlight(self, word: Option<Seq<char>>) -> DocumentView {
        DocumentView {
            rows: self.rows.map_values(|row: RowView| row.highlight(self.options(), word)),
            ..self
        }
    }

    /// The lines after a line break went in at `at`: an empty line at the
    /// end where `at.y` is the number of lines; else line `at.y` is cut
    /// before cluster `at.x` and its rest becomes the line after it.
    pub open spec fn insert_newline(self, at: Position) -> DocumentView {
        if at.y as int == self.rows.len() {
            DocumentView { rows: self.rows.push(RowView::empty()), ..self }
        } else {
            let row = self.rows[at.y as int];
            DocumentView {
                rows: self.rows.update(at.y as int, self.settled(row.split_head(at.x as nat))).insert(
                    at.y + 1,
                    self.settled(row.split_tail(at.x as nat)),
                ),
                ..self
            }
        }
    }

    /// The document after `c` went in at `at`. Beyond the line after the
    /// last, nothing changes. A line feed breaks the line. On the line
    /// after the last, `c` makes a line of its own. Else `c` goes into line
    /// `at.y` before cluster `at.x`.
    pub open spec fn insert(self, c: char, at: Position) -> DocumentView {
        if at.y as int > self.rows.len() {
            self
        } else if c == '\n' {
            DocumentView { dirty: true, ..self.insert_newline(at) }
        } else if at.y as int == self.rows.len() {
            DocumentView {
                rows: self.rows.push(self.settled(RowView::empty().insert(c, 0))),
                dirty: true,
                ..self
            }
        } else {
            DocumentView {
                rows: self.rows.update(
                    at.y as int,
                    self.settled(self.rows[at.y as int].insert(c, at.x as nat)),
                ),
                dirty: true,
                ..self
            }
        }
    }

    /// `at` is at the end of a line that is not the last.
    pub open spec fn joins_lines(self, at: Position) -> bool {
        &&& at.y + 1 < self.rows.len()
        &&& at.x as nat == self.rows[at.y as int].len
    }

    /// The document after a deletion at `at`. Beyond the last line, nothing
    /// changes. At the end of a line that is not the last, the next line
    /// is joined to it. Else cluster `at.x` of line `at.y` goes out.
    pub open spec fn delete(self, at: Position) -> DocumentView {
        if at.y as int >= self.rows.len() {
            self
        } else if self.joins_lines(at) {
            DocumentView {
                rows: self.rows.remove(at.y + 1).update(
                    at.y as int,
                    self.settled(self.rows[at.y as int].append(self.rows[at.y + 1])),
                ),
                dirty: true,
                ..self
            }
        } else {
            DocumentView {
                rows: self.rows.update(
                    at.y as int,
                    self.settled(self.rows[at.y as int].delete(at.x as nat)),
                ),
                dirty: true,
                ..self
            }
        }
    }

    /// `pattern`, which is not empty, stands in line `at.y` where cluster
    /// `at.x` starts.
    pub open spec fn stands_at(self, pattern: Seq<char>, at: Position) -> bool {
        &&& at.y < self.rows.len()
        &&& self.rows[at.y as int].stands_at(pattern, at.x as nat)
    }

    /// The cluster from which line `y` is searched: `at.x` on the line where
    /// the search starts; on every other line its start, forward, and its
    /// end, backward.
    pub open spec fn probe(self, at: Position, y: int, direction: SearchDirection) -> nat {
        if y == at.y {
            at.x as nat
        } else if direction == SearchDirection::Forward {
            0
        } else {
            self.rows[y].len
        }
    }

    /// Where `pattern` is found in line `y`, if it is.
    pub open spec fn search_row(
        self,
        pattern: Seq<char>,
        at: Position,
        y: int,
        direction: SearchDirection,
    ) -> Option<int> {
        self.rows[y].search(pattern, self.probe(at, y, direction), direction)
    }

    /// The first match in the lines from `y` down to the last: its cluster
    /// and its line.
    pub open spec fn search_forward(self, pattern: Seq<char>, at: Position, y: int) -> Option<(int, int)>
        decreases self.rows.len() - y,
    {
        if y < 0 || y >= self.rows.len() {
            None
        } else {
            match self.search_row(pattern, at, y, SearchDirection::Forward) {
                Some(x) => Some((x, y)),
                None => self.search_forward(pattern, at, y + 1),
            }
        }
    }

    /// The first match in the lines from `y` up to the first: its cluster
    /// and its line.
    pub open spec fn search_backward(self, pattern: Seq<char>, at: Position, y: int) -> Option<(int, int)>
        decreases y + 1,
    {
        if y < 0 || y >= self.rows.len() {
            None
        } else {
            match self.search_row(pattern, at, y, SearchDirection::Backward) {
                Some(x) => Some((x, y)),
                None => self.search_backward(pattern, at, y - 1),
            }
        }
    }

    /// The match that a search from `at` finds: cluster and line. Forward,
    /// the lines from `at.y` to the last are searched in that order;
    /// backward, the lines from `at.y` to the first.
    pub open spec fn search(self, pattern: Seq<char>, at: Position, direction: SearchDirection) -> Option<(int, int)> {
        if direction == SearchDirection::Forward {
            self.search_forward(pattern, at, at.y as int)
        } else {
            self.search_backward(pattern, at, at.y as int)
        }
    }
}

/// A document that is saved and loaded again, with no change in between,
/// holds the lines that it held, provided that none of them ends in a
/// carriage return: such a line loses it on the way.
pub proof fn lemma_save_then_load(file_name: Seq<char>, content: Seq<char>)
    requires
        forall|i: int| 0 <= i < lines_of(content).len() ==> ends_clean(#[trigger] lines_of(content)[i]),
    ensures
        DocumentView::load(file_name, content).texts() == lines_of(content),
        DocumentView::load(file_name, content).saved().texts() == lines_of(content),
        DocumentView::load(file_name, DocumentView::load(file_name, content).saved().text()).texts()
            == lines_of(content),
{
    let loaded = DocumentView::load(file_name, content);
    let saved = loaded.saved();
    assert(loaded.texts() =~= lines_of(content));
    assert(saved.texts() =~= lines_of(content));
    lemma_lines_hold_no_line_feed(content);
    lemma_lines_of_joined(lines_of(content));
    let again = DocumentView::load(file_name, saved.text());
    assert(again.texts() =~= lines_of(saved.text()));
}

/// Highlighting a document twice with the same word gives what
/// highlighting it once gives.
pub proof fn lemma_highlight_twice(document: DocumentView, word: Option<Seq<char>>)
    ensures
        document.highlight(word).highlight(word) == document.highlight(word),
{
    let once = document.highlight(word);
    assert forall|i: int| 0 <= i < once.rows.len() implies once.highlight(word).rows[i]
        == once.rows[i] by {
        crate::row::lemma_highlight_twice(document.rows[i], document.options(), word);
    }
    assert(once.highlight(word).rows =~= once.rows);
}

/// A character other than a line feed that goes in on the line after the
/// last makes a new last line that holds it alone; the lines before stay.
pub proof fn lemma_insert_after_last(document: DocumentView, c: char, at: Position)
    requires
        at.y as int == document.rows.len(),
        c != '\n',
    ensures
        document.insert(c, at).rows.len() == document.rows.len() + 1,
        document.insert(c, at).rows.last().text == seq![c],
        document.insert(c, at).rows.last().len == 1,
        document.insert(c, at).rows.drop_last() == document.rows,
        document.insert(c, at).dirty,
{
    let row = RowView::empty().insert(c, 0);
    assert(row.text =~= seq![c]);
    assert(document.insert(c, at).rows.drop_last() =~= document.rows);
}

/// A line feed that goes in on the line after the last makes a new last
/// line that is empty.
pub proof fn lemma_insert_line_feed_after_last(document: DocumentView, at: Position)
    requires
        at.y as int == document.rows.len(),
    ensures
        document.insert('\n', at).rows == document.rows.push(RowView::empty()),
        document.insert('\n', at).dirty,
{
}

/// An insertion beyond the line after the last, or a deletion beyond the
/// last line, changes nothing.
pub proof fn lemma_out_of_range_is_ignored(document: DocumentView, c: char, at: Position)
    ensures
        at.y as int > document.rows.len() ==> document.insert(c, at) == document,
        at.y as int >= document.rows.len() ==> document.delete(at) == document,
{
}

/// A deletion at the end of a line that is not the last joins the next line
/// to it: the document has one line less, the line holds both texts, and
/// the other lines stay, those after it one place up.
pub proof fn lemma_delete_joins_lines(document: DocumentView, at: Position)
    requires
        document.joins_lines(at),
    ensures
        document.delete(at).rows.len() == document.rows.len() - 1,
        document.delete(at).rows[at.y as int].text == document.rows[at.y as int].text
            + document.rows[at.y + 1].text,
        document.delete(at).rows[at.y as int].len == document.rows[at.y as int].len
            + document.rows[at.y + 1].len,
        forall|i: int| 0 <= i < at.y ==> document.delete(at).rows[i] == document.rows[i],
        forall|i: int|
            at.y < i < document.rows.len() - 1 ==> document.delete(at).rows[i] == document.rows[i + 1],
        document.delete(at).dirty,
{
}

/// A forward search from line `y` finds the match of the first line, from
/// `y` on, in which there is one.
pub proof fn lemma_search_forward_is_first(
    document: DocumentView,
    pattern: Seq<char>,
    at: Position,
    y: int,
)
    requires
        0 <= y,
    ensures
        match document.search_forward(pattern, at, y) {
            Some((x, line)) => {
                &&& y <= line < document.rows.len()
                &&& document.search_row(pattern, at, line, SearchDirection::Forward) == Some(x)
                &&& forall|j: int|
                    y <= j < line ==> document.search_row(
                        pattern,
                        at,
                        j,
                        SearchDirection::Forward,
                    ).is_none()
            },
            None => forall|j: int|
                y <= j < document.rows.len() ==> document.search_row(
                    pattern,
                    at,
                    j,
                    SearchDirection::Forward,
                ).is_none(),
        },
    decreases document.rows.len() - y,
{
    if y < document.rows.len() && document.search_row(
        pattern,
        at,
        y,
        SearchDirection::Forward,
    ).is_none() {
        lemma_search_forward_is_first(document, pattern, at, y + 1);
    }
}

/// A backward search from line `y` finds the match of the last line, up to
/// `y`, in which there is one.
pub proof fn lemma_search_backward_is_last(
    document: DocumentView,
    pattern: Seq<char>,
    at: Position,
    y: int,
)
    requires
        y < document.rows.len(),
    ensures
        match document.search_backward(pattern, at, y) {
            Some((x, line)) => {
                &&& 0 <= line <= y
                &&& document.search_row(pattern, at, line, SearchDirection::Backward) == Some(x)
                &&& forall|j: int|
                    line < j <= y ==> document.search_row(
                        pattern,
                        at,
                        j,
                        SearchDirection::Backward,
                    ).is_none()
            },
            None => forall|j: int|
                0 <= j <= y ==> document.search_row(
                    pattern,
                    at,
                    j,
                    SearchDirection::Backward,
                ).is_none(),
        },
    decreases y + 1,
{
    if 0 <= y && document.search_row(pattern, at, y, SearchDirection::Backward).is_none() {
        lemma_search_backward_is_last(document, pattern, at, y - 1);
    }
}

/// In a document of one line, a search is the search of that line.
pub proof fn lemma_search_single_line(
    document: DocumentView,
    pattern: Seq<char>,
    x: usize,
    direction: SearchDirection,
)
    requires
        document.rows.len() == 1,
    ensures
        document.search(pattern, Position { x, y: 0 }, direction) == match document.rows[0].search(
            pattern,
            x as nat,
            direction,
        ) {
            Some(found) => Some((found, 0int)),
            None => None,
        },
{
    let at = Position { x, y: 0 };
    assert(document.search_forward(pattern, at, 1).is_none());
    assert(document.search_backward(pattern, at, -1).is_none());
}

/// In a document of one line, a pattern that stands where cluster `at`
/// starts is found at `at` by a forward search from `at`, and by a backward
/// search from a later cluster `from` where the pattern ends before `from`
/// and stands nowhere later before it, and the clusters before `from`,
/// taken as a text of their own, are cut as they are cut in the line.
pub proof fn lemma_search_finds_from_both_sides(
    document: DocumentView,
    pattern: Seq<char>,
    at: usize,
    from: usize,
)
    requires
        document.rows.len() == 1,
        document.rows[0].counted(),
        segmented(document.rows[0].text),
        segmented(document.rows[0].window(at as nat, document.rows[0].len)),
        grapheme_clusters(document.rows[0].window(0, from as nat)) == document.rows[0].clusters().take(
            from as int,
        ),
        pattern.len() > 0,
        at < from <= document.rows[0].len,
        occurs_at(document.rows[0].text, pattern, offset_of(document.rows[0].clusters(), at as int)),
        offset_of(document.rows[0].clusters(), at as int) + pattern.len() <= offset_of(
            document.rows[0].clusters(),
            from as int,
        ),
        forall|k: int|
            offset_of(document.rows[0].clusters(), at as int) < k && k + pattern.len() <= offset_of(
                document.rows[0].clusters(),
                from as int,
            ) ==> !occurs_at(document.rows[0].text, pattern, k),
    ensures
        document.search(pattern, Position { x: at, y: 0 }, SearchDirection::Forward) == Some(
            (at as int, 0int),
        ),
        document.search(pattern, Position { x: from, y: 0 }, SearchDirection::Backward) == Some(
            (at as int, 0int),
        ),
{
    lemma_search_single_line(document, pattern, at, SearchDirection::Forward);
    lemma_search_single_line(document, pattern, from, SearchDirection::Backward);
    lemma_search_forward_finds(document.rows[0], pattern, at as nat);
    lemma_search_backward_finds(document.rows[0], pattern, at as nat, from as nat);
}

/// The place that was found, if one was: cluster and line.
pub open spec fn as_place(found: Option<Position>) -> Option<(int, int)> {
    match found {
        Some(position) => Some((position.x as int, position.y as int)),
        None => None,
    }
}

/// The name of the file, if there is one.
pub open spec fn name_text(file_name: Option<String>) -> Option<Seq<char>> {
    match file_name {
        Some(file_name) => Some(file_name@),
        None => None,
    }
}

/// The lines of a text buffer and what is known of its file.
pub struct Document {
    rows: Vec<Row>,
    pub file_name: Option<String>,
    dirty: bool,
    file_type: FileType,
}

impl View for Document {
    type V = DocumentView;

    closed spec fn view(&self) -> DocumentView {
        DocumentView {
            rows: self.rows@.map_values(|row: Row| row@),
            file_name: name_text(self.file_name),
            dirty: self.dirty,
            file_type: self.file_type@,
        }
    }
}

impl Default for Document {
    fn default() -> (document: Document)
        ensures
            document@ == DocumentView::empty(),
            document.wf(),
    {
        let document = Document {
            rows: Vec::new(),
            file_name: None,
            dirty: false,
            file_type: FileType::default(),
        };
        assert(document@.rows =~= Seq::<RowView>::empty());
        document
    }
}

impl Document {
    /// See `DocumentView::wf`.
    pub open spec fn wf(&self) -> bool {
        self@.wf()
    }

    /// Every line of a well-formed document is well-formed.
    proof fn lemma_rows_wf(&self)
        requires
            self.wf(),
        ensures
            forall|i: int| 0 <= i < self.rows@.len() ==> (#[trigger] self.rows@[i]).wf(),
    {
        assert forall|i: int| 0 <= i < self.rows@.len() implies (#[trigger] self.rows@[i]).wf() by {
            assert(self@.rows[i] == self.rows@[i]@);
        }
    }

    /// The document that holds the lines of `content`, the text of the file
    /// called `file_name`.
    pub fn load(file_name: &str, content: &str) -> (document: Document)
        ensures
            document@ == DocumentView::load(file_name@, content@),
            document.wf(),
    {
        let file_type = FileType::from(file_name);
        let options = file_type.highlighting_options();
        let lines = split_lines(content);
        let mut rows: Vec<Row> = Vec::new();
        let mut index: usize = 0;
        let ghost expected = DocumentView::load(file_name@, content@).rows;
        while index < lines.len()
            invariant
                index <= lines@.len(),
                lines@.map_values(|line: String| line@) == lines_of(content@),
                expected == DocumentView::load(file_name@, content@).rows,
                options == FileTypeView::of(file_name@).options,
                rows@.len() == index,
                forall|i: int| 0 <= i < index ==> (#[trigger] rows@[i])@ == expected[i],
                forall|i: int| 0 <= i < index ==> (#[trigger] rows@[i]).wf(),
            decreases lines@.len() - index,
        {
            assert(lines@.map_values(|line: String| line@)[index as int] == lines@[index as int]@);
            let mut row = Row::from(lines[index].as_str());
            row.highlight(&options, None);
            rows.push(row);
            index += 1;
        }
        let document = Document {
            rows,
            file_name: Some(file_name.to_owned()),
            dirty: false,
            file_type,
        };
        assert(document@.rows =~= expected);
        document
    }

    /// Line `index`, if the document has it.
    pub fn row(&self, index: usize) -> (row: Option<&Row>)
        ensures
            row.is_some() == (index < self@.rows.len()),
            row.is_some() ==> row.unwrap()@ == self@.rows[index as int],
            self.wf() && row.is_some() ==> row.unwrap().wf(),
    {
        if index < self.rows.len() {
            Some(&self.rows[index])
        } else {
            None
        }
    }

    pub fn is_empty(&self) -> (empty: bool)
        ensures
            empty == (self@.rows.len() == 0),
    {
        self.rows.len() == 0
    }

    /// The number of lines.
    pub fn len(&self) -> (len: usize)
        ensures
            len == self@.rows.len(),
    {
        self.rows.len()
    }

    /// Highlights every line anew and marks the occurrences of `word`.
    pub fn highlight(&mut self, word: Option<&str>)
        requires
            old(self).wf(),
        ensures
            final(self)@ == old(self)@.highlight(word_text(word)),
            final(self).wf(),
    {
        let options = self.file_type.highlighting_options();
        let ghost expected = old(self)@.highlight(word_text(word)).rows;
        let mut index: usize = 0;
        proof {
            self.lemma_rows_wf();
        }
        while index < self.rows.len()
            invariant
                index <= self.rows@.len(),
                self.rows@.len() == old(self).rows@.len(),
                self.file_name == old(self).file_name,
                self.dirty == old(self).dirty,
                self.file_type == old(self).file_type,
                options == old(self)@.options(),
                expected == old(self)@.highlight(word_text(word)).rows,
                forall|i: int| 0 <= i < index ==> (#[trigger] self.rows@[i])@ == expected[i],
                forall|i: int| index <= i < self.rows@.len() ==> self.rows@[i] == old(self).rows@[i],
                forall|i: int| 0 <= i < self.rows@.len() ==> (#[trigger] self.rows@[i]).wf(),
            decreases self.rows@.len() - index,
        {
            assert(old(self)@.rows[index as int] == old(self).rows@[index as int]@);
            let row = &mut self.rows[index];
            row.highlight(&options, word);
            index += 1;
        }
        assert(self@.rows =~= expected);
    }

    /// Puts `c` into the document at `at`.
    pub fn insert(&mut self, c: char, at: &Position)
        requires
            old(self).wf(),
        ensures
            final(self)@ == old(self)@.insert(c, *at),
            final(self).wf(),
    {
        if at.y > self.rows.len() {
            return ;
        }
        self.dirty = true;
        if c == '\n' {
            self.insert_newline(at);
            return ;
        }
        let options = self.file_type.highlighting_options();
        if at.y == self.rows.len() {
            let mut row = Row::default();
            row.insert(c, 0);
            row.highlight(&options, None);
            self.rows.push(row);
            assert(self@.rows =~= old(self)@.insert(c, *at).rows);
        } else {
            assert(old(self)@.rows[at.y as int] == old(self).rows@[at.y as int]@);
            let row = &mut self.rows[at.y];
            row.insert(c, at.x);
            row.highlight(&options, None);
            assert(self@.rows =~= old(self)@.insert(c, *at).rows);
        }
    }

    /// Takes out what stands at `at`: a grapheme cluster, or the break
    /// between line `at.y` and the next.
    pub fn delete(&mut self, at: &Position)
        requires
            old(self).wf(),
        ensures
            final(self)@ == old(self)@.delete(*at),
            final(self).wf(),
    {
        let len: usize = self.rows.len();
        if at.y >= len {
            return ;
        }
        self.dirty = true;
        let options = self.file_type.highlighting_options();
        assert(old(self)@.rows[at.y as int] == old(self).rows@[at.y as int]@);
        if at.x == self.rows[at.y].len() && at.y < len - 1 {
            assert(old(self)@.rows[at.y + 1] == old(self).rows@[at.y + 1]@);
            let next_row = self.rows.remove(at.y + 1);
            let row = &mut self.rows[at.y];
            row.append(&next_row);
            row.highlight(&options, None);
            assert(self@.rows =~= old(self)@.delete(*at).rows);
        } else {
            let row = &mut self.rows[at.y];
            row.delete(at.x);
            row.highlight(&options, None);
            assert(self@.rows =~= old(self)@.delete(*at).rows);
        }
    }

    /// The name of the kind of file that the document holds.
    pub fn file_type(&self) -> (name: String)
        ensures
            name@ == self@.file_type.name,
    {
        self.file_type.name()
    }

    fn insert_newline(&mut self, at: &Position)
        requires
            old(self).wf(),
            at.y <= old(self)@.rows.len(),
        ensures
            final(self)@ == old(self)@.insert_newline(*at),
            final(self).wf(),
    {
        if at.y == self.rows.len() {
            self.rows.push(Row::default());
            assert(self@.rows =~= old(self)@.insert_newline(*at).rows);
            return ;
        }
        let options = self.file_type.highlighting_options();
        assert(old(self)@.rows[at.y as int] == old(self).rows@[at.y as int]@);
        let current_row = &mut self.rows[at.y];
        let mut new_row = current_row.split(at.x);
        current_row.highlight(&options, None);
        new_row.highlight(&options, None);
        self.rows.insert(at.y + 1, new_row);
        assert(self@.rows =~= old(self)@.insert_newline(*at).rows);
    }

    /// The text to write when the document is saved: every line with a line
    /// feed after it.
    pub fn text(&self) -> (text: String)
        ensures
            text@ == self@.text(),
    {
        let mut text = String::new();
        let mut index: usize = 0;
        let ghost texts = self@.texts();
        assert(texts.take(0) =~= Seq::<Seq<char>>::empty());
        while index < self.rows.len()
            invariant
                index <= self.rows@.len(),
                texts == self@.texts(),
                text@ == join_lines(texts.take(index as int)),
            decreases self.rows@.len() - index,
        {
            proof {
                assert(texts[index as int] == self.rows@[index as int]@.text);
                assert(texts.take(index + 1) =~= texts.take(index as int).push(texts[index as int]));
                lemma_join_lines_push(texts.take(index as int), texts[index as int]);
            }
            text.append(self.rows[index].text().as_str());
            text.push('\n');
            index += 1;
        }
        assert(texts.take(index as int) =~= texts);
        text
    }

    /// Settles the document after its text was written to its file: tells
    /// the kind of the file from its name anew, highlights every line under
    /// it and marks the document as unchanged. A document without a file
    /// stays as it is.
    pub fn mark_saved(&mut self)
        requires
            old(self).wf(),
        ensures
            final(self)@ == old(self)@.saved(),
            final(self).wf(),
    {
        let file_type = match &self.file_name {
            Some(file_name) => FileType::from(file_name.as_str()),
            None => {
                return ;
            },
        };
        let options = file_type.highlighting_options();
        self.file_type = file_type;
        let ghost expected = old(self)@.saved().rows;
        let mut index: usize = 0;
        proof {
            self.lemma_rows_wf();
        }
        while index < self.rows.len()
            invariant
                index <= self.rows@.len(),
                self.rows@.len() == old(self).rows@.len(),
                old(self)@.file_name.is_some(),
                options == FileTypeView::of(old(self)@.file_name.unwrap()).options,
                expected == old(self)@.saved().rows,
                forall|i: int| 0 <= i < index ==> (#[trigger] self.rows@[i])@ == expected[i],
                forall|i: int| index <= i < self.rows@.len() ==> self.rows@[i] == old(self).rows@[i],
                forall|i: int| 0 <= i < self.rows@.len() ==> (#[trigger] self.rows@[i]).wf(),
                self.file_name == old(self).file_name,
                self.file_type@ == FileTypeView::of(old(self)@.file_name.unwrap()),
            decreases self.rows@.len() - index,
        {
            assert(old(self)@.rows[index as int] == old(self).rows@[index as int]@);
            let row = &mut self.rows[index];
            row.highlight(&options, None);
            index += 1;
        }
        self.dirty = false;
        assert(self@.rows =~= expected);
    }

    /// Whether the document was changed since it was last loaded or saved.
    pub fn is_dirty(&self) -> (dirty: bool)
        ensures
            dirty == self@.dirty,
    {
        self.dirty
    }

    /// Looks for `match_string` from `at` on: forward through the lines
    /// from `at.y` to the last, or backward through the lines from `at.y`
    /// to the first.
    pub fn search(&self, match_string: &str, at: &Position, direction: SearchDirection) -> (found: Option<Position>)
        requires
            self.wf(),
        ensures
            as_place(found) == self@.search(match_string@, *at, direction),
            direction == SearchDirection::Forward && self@.stands_at(match_string@, *at) ==> found
                == Some(*at),
    {
        let len: usize = self.rows.len();
        let mut position = Position { x: at.x, y: at.y };
        loop
            invariant
                self.wf(),
                direction == SearchDirection::Forward && self@.stands_at(match_string@, *at)
                    ==> position == *at,
                len == self@.rows.len(),
                len == self.rows@.len(),
                position.x as nat == self@.probe(*at, position.y as int, direction),
                self@.search(match_string@, *at, direction) == (if direction == SearchDirection::Forward {
                    self@.search_forward(match_string@, *at, position.y as int)
                } else {
                    self@.search_backward(match_string@, *at, position.y as int)
                }),
                direction == SearchDirection::Forward ==> at.y <= position.y,
                direction == SearchDirection::Backward ==> position.y <= at.y,
            decreases
                (if direction == SearchDirection::Forward {
                    if position.y <= len {
                        len + 1 - position.y
                    } else {
                        0
                    }
                } else {
                    position.y + 1
                }),
        {
            if position.y >= len {
                return None;
            }
            assert(self@.rows[position.y as int] == self.rows@[position.y as int]@);
            if let Some(x) = self.rows[position.y].search(match_string, position.x, direction) {
                position.x = x;
                return Some(position);
            }
            if direction == SearchDirection::Forward {
                position.y = position.y + 1;
                position.x = 0;
            } else {
                if position.y == 0 {
                    assert(self@.search_backward(match_string@, *at, -1).is_none());
                    return None;
                }
                position.y = position.y - 1;
                assert(self@.rows[position.y as int] == self.rows@[position.y as int]@);
                position.x = self.rows[position.y].len();
            }
        }
    }
}

} // verus!
