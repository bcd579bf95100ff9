//! The kind of a file, told from its name, and the highlighting rules that
//! the kind switches on.

use crate::text::chars_of;
use vstd::prelude::*;

verus! {

/// Which recognizers the classifier runs.
#[derive(Clone, Copy, Debug, PartialEq, Eq, Structural)]
pub struct HighlightingOptions {
    pub numbers: bool,
    pub strings: bool,
    pub characters: bool,
    pub comments: bool,
}

impl HighlightingOptions {
    /// No recognizer runs.
    pub open spec fn none() -> HighlightingOptions {
        HighlightingOptions { numbers: false, strings: false, characters: false, comments: false }
    }

    /// Every recognizer runs.
    pub open spec fn all() -> HighlightingOptions {
        HighlightingOptions { numbers: true, strings: true, characters: true, comments: true }
    }

    pub fn numbers(self) -> (on: bool)
        ensures
            on == self.numbers,
    {
        self.numbers
    }

    pub fn strings(self) -> (on: bool)
        ensures
            on == self.strings,
    {
        self.strings
    }

    pub fn chars(self) -> (on: bool)
        ensures
            on == self.characters,
    {
        self.characters
    }

    pub fn comments(self) -> (on: bool)
        ensures
            on == self.comments,
    {
        self.comments
    }
}

impl Default for HighlightingOptions {
    fn default() -> (options: HighlightingOptions)
        ensures
            options == HighlightingOptions::none(),
    {
        HighlightingOptions { numbers: false, strings: false, characters: false, comments: false }
    }
}

/// What a `FileType` stands for: its display name and its rules.
pub struct FileTypeView {
    pub name: Seq<char>,
    pub options: HighlightingOptions,
}

impl FileTypeView {
    /// The kind of a file whose name tells nothing.
    pub open spec fn unknown() -> FileTypeView {
        FileTypeView { name: "No filetype"@, options: HighlightingOptions::none() }
    }

    /// The kind of a Rust source file.
    pub open spec fn rust() -> FileTypeView {
        FileTypeView { name: "Rust"@, options: HighlightingOptions::all() }
    }

    /// The kind of the file called `file_name`.
    pub open spec fn of(file_name: Seq<char>) -> FileTypeView {
        if is_rust_source(file_name) {
            FileTypeView::rust()
        } else {
            FileTypeView::unknown()
        }
    }
}

/// `file_name` ends in `.rs`.
pub open spec fn is_rust_source(file_name: Seq<char>) -> bool {
    &&& file_name.len() >= 3
    &&& file_name[file_name.len() - 3] == '.'
    &&& file_name[file_name.len() - 2] == 'r'
    &&& file_name[file_name.len() - 1] == 's'
}

/// The kind of a file.
pub struct FileType {
    name: String,
    hl_opts: HighlightingOptions,
}

impl View for FileType {
    type V = FileTypeView;

    closed spec fn view(&self) -> FileTypeView {
        FileTypeView { name: self.name@, options: self.hl_opts }
    }
}

impl Default for FileType {
    fn default() -> (file_type: FileType)
        ensures
            file_type@ == FileTypeView::unknown(),
    {
        FileType {
            name: "No filetype".to_owned(),
            hl_opts: HighlightingOptions { numbers: false, strings: false, characters: false, comments: false },
        }
    }
}

impl FileType {
    /// The name to show for this kind of file.
    pub fn name(&self) -> (name: String)
        ensures
            name@ == self@.name,
    {
        self.name.clone()
    }

    /// The rules that this kind of file switches on.
    pub fn highlighting_options(&self) -> (options: HighlightingOptions)
        ensures
            options == self@.options,
    {
        self.hl_opts
    }

    /// Tells the kind of a file from its name: a name that ends in `.rs` is
    /// Rust source, any other name tells nothing.
    pub fn from(file_name: &str) -> (file_type: FileType)
        ensures
            file_type@ == FileTypeView::of(file_name@),
    {
        let chars = chars_of(file_name);
        let n: usize = chars.len();
        if n >= 3 && chars[n - 3] == '.' && chars[n - 2] == 'r' && chars[n - 1] == 's' {
            FileType {
                name: "Rust".to_owned(),
                hl_opts: HighlightingOptions { numbers: true, strings: true, characters: true, comments: true },
            }
        } else {
            FileType::default()
        }
    }
}

} // verus!
