//! Grapheme clusters: the unit in which a line is measured and edited.
//!
//! Where the cluster boundaries of a text lie is decided by the
//! `unicode-segmentation` crate. The library does not restate those rules: it
//! names the crate's answer and relies on two facts about it.

use unicode_segmentation::UnicodeSegmentation;
use vstd::prelude::*;

verus! {

/// The extended grapheme clusters of `text`, first to last, as
/// `UnicodeSegmentation::graphemes(text, true)` yields them.
pub uninterp spec fn grapheme_clusters(text: Seq<char>) -> Seq<Seq<char>>;

/// None of `parts` is empty.
pub open spec fn all_filled(parts: Seq<Seq<char>>) -> bool {
    forall|i: int| 0 <= i < parts.len() ==> (#[trigger] parts[i]).len() > 0
}

/// `parts` are consecutive pieces of `text`, none of them empty.
pub open spec fn partitions(parts: Seq<Seq<char>>, text: Seq<char>) -> bool {
    &&& parts.flatten() == text
    &&& all_filled(parts)
}

/// The clusters of `text` are consecutive pieces of it, none of them empty:
/// what holds of every text that was cut into its clusters.
pub open spec fn segmented(text: Seq<char>) -> bool {
    partitions(grapheme_clusters(text), text)
}

/// The character sequences that `parts` hold.
pub open spec fn texts(parts: Seq<String>) -> Seq<Seq<char>> {
    parts.map_values(|part: String| part@)
}

/// Calls `UnicodeSegmentation::graphemes(text, true)` and copies each cluster
/// into a `String`.
///
/// Trusted: the clusters are `grapheme_clusters(text)`. The iterator hands out
/// consecutive slices `text[start..next]` with `start < next`, from the start
/// of the text to its end, so the clusters are non-empty and their
/// concatenation is the text.
#[verifier::external_body]
pub(crate) fn graphemes(text: &str) -> (parts: Vec<String>)
    ensures
        texts(parts@) == grapheme_clusters(text@),
        partitions(texts(parts@), text@),
{
    text.graphemes(true).map(String::from).collect()
}

} // verus!
