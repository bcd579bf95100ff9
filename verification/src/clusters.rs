//! A text in pieces: what is done with the grapheme clusters of a line once
//! the line is cut into them.
//!
//! Every function here takes the pieces as an argument and says what it
//! makes of them, whatever they are.

use crate::graphemes::all_filled;
use crate::graphemes::texts;
use crate::text::as_int;
use vstd::prelude::*;
use vstd::seq_lib::lemma_flatten_concat;

verus! {

broadcast use Seq::group_seq_flatten;

/// The number of characters in the first `n` pieces.
pub open spec fn offset_of(parts: Seq<Seq<char>>, n: int) -> int {
    parts.take(n).flatten().len() as int
}

/// Piece `index` starts at character `offset` of the concatenation of `parts`.
pub open spec fn starts_at(parts: Seq<Seq<char>>, offset: int, index: int) -> bool {
    &&& 0 <= index < parts.len()
    &&& offset_of(parts, index) == offset
}

/// Piece `index` is the first that starts at character `offset`.
pub open spec fn is_piece_at(parts: Seq<Seq<char>>, offset: int, index: int) -> bool {
    &&& starts_at(parts, offset, index)
    &&& forall|j: int| j < index ==> !starts_at(parts, offset, j)
}

/// The index of the piece that starts at character `offset` of the
/// concatenation of `parts`, if one does: the first, where empty pieces
/// make several start there.
pub open spec fn piece_at(parts: Seq<Seq<char>>, offset: int) -> Option<int> {
    if exists|index: int| starts_at(parts, offset, index) {
        Some(choose|index: int| is_piece_at(parts, offset, index))
    } else {
        None
    }
}

/// The pieces `start` up to `end`, as far as there are such pieces.
pub open spec fn between(parts: Seq<Seq<char>>, start: nat, end: nat) -> Seq<Seq<char>> {
    let from = if start <= parts.len() {
        start
    } else {
        parts.len()
    };
    let to = if end <= from {
        from
    } else if end <= parts.len() {
        end
    } else {
        parts.len()
    };
    parts.subrange(from as int, to as int)
}

/// The pieces with `c` as a piece of its own before piece `at`; the same
/// pieces where there is no piece `at`.
pub open spec fn with_char(parts: Seq<Seq<char>>, c: char, at: nat) -> Seq<Seq<char>> {
    if at < parts.len() {
        parts.insert(at as int, seq![c])
    } else {
        parts
    }
}

/// The pieces without piece `at`; the same pieces where there is no piece `at`.
pub open spec fn without(parts: Seq<Seq<char>>, at: nat) -> Seq<Seq<char>> {
    if at < parts.len() {
        parts.remove(at as int)
    } else {
        parts
    }
}

/// There is one first piece at `offset` at most, and `piece_at` is it.
pub proof fn lemma_piece_at(parts: Seq<Seq<char>>, offset: int, index: int)
    requires
        is_piece_at(parts, offset, index),
    ensures
        piece_at(parts, offset) == Some(index),
{
    let chosen = choose|index: int| is_piece_at(parts, offset, index);
    assert(is_piece_at(parts, offset, chosen));
    assert(!(chosen < index) && !(index < chosen));
}

/// Where a piece starts at `offset`, a first one does.
proof fn lemma_first_piece_exists(parts: Seq<Seq<char>>, offset: int, index: int)
    requires
        starts_at(parts, offset, index),
    ensures
        exists|first: int| is_piece_at(parts, offset, first),
    decreases index,
{
    if exists|j: int| j < index && starts_at(parts, offset, j) {
        let j = choose|j: int| j < index && starts_at(parts, offset, j);
        lemma_first_piece_exists(parts, offset, j);
    } else {
        assert(is_piece_at(parts, offset, index));
    }
}

/// What `piece_at` gives is the first piece that starts at `offset`.
pub proof fn lemma_piece_at_is_first(parts: Seq<Seq<char>>, offset: int)
    ensures
        match piece_at(parts, offset) {
            Some(index) => is_piece_at(parts, offset, index),
            None => forall|index: int| !starts_at(parts, offset, index),
        },
{
    if exists|index: int| starts_at(parts, offset, index) {
        let index = choose|index: int| starts_at(parts, offset, index);
        lemma_first_piece_exists(parts, offset, index);
    }
}

/// The pieces `from` up to `to` lie between the offsets of `from` and `to`.
pub proof fn lemma_offsets(parts: Seq<Seq<char>>, from: int, to: int)
    requires
        0 <= from <= to <= parts.len(),
    ensures
        offset_of(parts, to) == offset_of(parts, from) + parts.subrange(from, to).flatten().len(),
        offset_of(parts, to) <= parts.flatten().len(),
{
    lemma_flatten_concat(parts.take(from), parts.subrange(from, to));
    assert(parts.take(from) + parts.subrange(from, to) =~= parts.take(to));
    lemma_flatten_concat(parts.take(to), parts.skip(to));
    assert(parts.take(to) + parts.skip(to) =~= parts);
}

/// Pieces that are not empty are at most as many as their characters.
pub proof fn lemma_pieces_fit(parts: Seq<Seq<char>>)
    requires
        all_filled(parts),
    ensures
        parts.len() <= parts.flatten().len(),
    decreases parts.len(),
{
    if parts.len() > 0 {
        lemma_pieces_fit(parts.drop_last());
        assert(parts.drop_last().push(parts.last()) =~= parts);
    }
}

/// Pieces that are not empty start at offsets that grow.
pub proof fn lemma_offsets_grow(parts: Seq<Seq<char>>, lower: int, upper: int)
    requires
        0 <= lower < upper <= parts.len(),
        all_filled(parts),
    ensures
        offset_of(parts, lower) < offset_of(parts, upper),
{
    lemma_offsets(parts, lower, upper);
    let between = parts.subrange(lower, upper);
    assert(between[0] == parts[lower]);
    lemma_pieces_fit(between);
}

/// Among pieces that are not empty, `piece_at` finds each piece at the
/// offset at which it starts.
pub proof fn lemma_piece_at_finds(parts: Seq<Seq<char>>, piece: int)
    requires
        0 <= piece < parts.len(),
        all_filled(parts),
    ensures
        piece_at(parts, offset_of(parts, piece)) == Some(piece),
{
    assert forall|j: int| j < piece implies !starts_at(parts, offset_of(parts, piece), j) by {
        if 0 <= j {
            lemma_offsets_grow(parts, j, piece);
        }
    }
    lemma_piece_at(parts, offset_of(parts, piece), piece);
}

/// Joins the pieces `start` up to `end`, as far as there are such pieces,
/// and counts them.
pub fn join(parts: &Vec<String>, start: usize, end: usize) -> (joined: (String, usize))
    ensures
        joined.0@ == between(texts(parts@), start as nat, end as nat).flatten(),
        joined.1 == between(texts(parts@), start as nat, end as nat).len(),
{
    let n: usize = parts.len();
    let from: usize = if start <= n {
        start
    } else {
        n
    };
    let to: usize = if end <= from {
        from
    } else if end <= n {
        end
    } else {
        n
    };
    let mut out = String::new();
    let mut index: usize = from;
    assert(texts(parts@).subrange(from as int, from as int) =~= Seq::<Seq<char>>::empty());
    while index < to
        invariant
            from <= index <= to <= parts@.len(),
            out@ == texts(parts@).subrange(from as int, index as int).flatten(),
        decreases to - index,
    {
        assert(texts(parts@).subrange(from as int, index + 1) =~= texts(parts@).subrange(
            from as int,
            index as int,
        ).push(parts@[index as int]@));
        out.append(parts[index].as_str());
        index += 1;
    }
    (out, to - from)
}

/// Puts `c`, as a piece of its own, before piece `at`. Where there is no
/// piece `at`, the pieces stay as they are.
pub fn insert_into(parts: &mut Vec<String>, c: char, at: usize)
    ensures
        texts(final(parts)@) == with_char(texts(old(parts)@), c, at as nat),
{
    if at < parts.len() {
        let mut piece = String::new();
        piece.push(c);
        assert(piece@ =~= seq![c]);
        parts.insert(at, piece);
        assert(texts(parts@) =~= texts(old(parts)@).insert(at as int, seq![c]));
    }
}

/// Takes out piece `at`. Where there is no piece `at`, the pieces stay as
/// they are.
pub fn delete_from(parts: &mut Vec<String>, at: usize)
    ensures
        texts(final(parts)@) == without(texts(old(parts)@), at as nat),
{
    if at < parts.len() {
        let _piece = parts.remove(at);
        assert(texts(parts@) =~= texts(old(parts)@).remove(at as int));
    }
}

/// The index of the piece that starts at character `offset` of the
/// concatenation of `parts`: the first such piece, if there are several.
pub fn piece_starting_at(parts: &Vec<String>, offset: usize) -> (found: Option<usize>)
    ensures
        as_int(found) == piece_at(texts(parts@), offset as int),
        match found {
            Some(index) => is_piece_at(texts(parts@), offset as int, index as int),
            None => forall|index: int| !starts_at(texts(parts@), offset as int, index),
        },
{
    let ghost pieces = texts(parts@);
    let mut reached: usize = 0;
    let mut index: usize = 0;
    assert(pieces.take(0) =~= Seq::<Seq<char>>::empty());
    while index < parts.len()
        invariant
            index <= parts@.len(),
            pieces == texts(parts@),
            reached == offset_of(pieces, index as int),
            reached <= offset,
            forall|j: int| j < index ==> !starts_at(pieces, offset as int, j),
        decreases parts@.len() - index,
    {
        if reached == offset {
            proof {
                lemma_piece_at(pieces, offset as int, index as int);
            }
            return Some(index);
        }
        let piece_len: usize = parts[index].as_str().unicode_len();
        proof {
            lemma_offsets(pieces, index as int, index + 1);
            assert(pieces.subrange(index as int, index + 1) =~= seq![pieces[index as int]]);
        }
        if piece_len > offset - reached {
            assert forall|j: int| !starts_at(pieces, offset as int, j) by {
                if index < j < pieces.len() {
                    lemma_offsets(pieces, index + 1, j);
                }
            }
            return None;
        }
        reached += piece_len;
        index += 1;
    }
    None
}

} // verus!
