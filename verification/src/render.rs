//! Drawing a line: the characters to show and the escape sequences that
//! switch the colour between them.

use crate::color::fg;
use crate::color::fg_reset;
use crate::color::fg_reset_sequence;
use crate::color::fg_sequence;
use crate::graphemes::texts;
use crate::highlight::Type;
use vstd::prelude::*;

verus! {

/// The category in which piece `index` is drawn: plain where the
/// categories do not reach.
pub open spec fn category_at(categories: Seq<Type>, index: int) -> Type {
    if 0 <= index < categories.len() {
        categories[index]
    } else {
        Type::Plain
    }
}

/// The character that is shown for `piece`: its first, or a space where
/// that is a tab.
pub open spec fn glyph(piece: Seq<char>) -> char {
    if piece[0] == '\t' {
        ' '
    } else {
        piece[0]
    }
}

/// What is drawn for the pieces `index` up to `end` after a piece of the
/// category `current`: for each piece the colour of its category, where
/// that differs from the category of the piece before, and then its
/// character. For an empty piece nothing is drawn.
pub open spec fn rendered_from(
    parts: Seq<Seq<char>>,
    categories: Seq<Type>,
    index: int,
    end: int,
    current: Type,
) -> Seq<char>
    decreases end - index,
{
    if index >= end {
        Seq::empty()
    } else if parts[index].len() == 0 {
        rendered_from(parts, categories, index + 1, end, current)
    } else {
        let category = category_at(categories, index);
        let colour = if category != current {
            fg_sequence(category.color())
        } else {
            Seq::empty()
        };
        colour.push(glyph(parts[index])) + rendered_from(parts, categories, index + 1, end, category)
    }
}

/// The pieces `start` up to `end` as a terminal shows them: the plain
/// colour first, the colour set back last. `end` stops at the number of
/// pieces, `start` at `end`.
pub open spec fn rendered(parts: Seq<Seq<char>>, categories: Seq<Type>, start: nat, end: nat) -> Seq<char> {
    let end = if end <= parts.len() {
        end
    } else {
        parts.len()
    };
    let start = if start <= end {
        start
    } else {
        end
    };
    fg_sequence(Type::Plain.color()) + rendered_from(
        parts,
        categories,
        start as int,
        end as int,
        Type::Plain,
    ) + fg_reset_sequence()
}

/// Draws the pieces `start` up to `end` of a line, piece `i` in category
/// `categories[i]`: one character for each piece, a space for a tab, and an
/// escape sequence wherever the category changes.
pub fn render_pieces(parts: &Vec<String>, categories: &Vec<Type>, start: usize, end: usize) -> (result: String)
    ensures
        result@ == rendered(texts(parts@), categories@, start as nat, end as nat),
{
    let end: usize = if end <= parts.len() {
        end
    } else {
        parts.len()
    };
    let start: usize = if start <= end {
        start
    } else {
        end
    };
    let mut result = String::new();
    let mut current_highlighting = Type::Plain;
    result.append(fg(current_highlighting.to_color()).as_str());
    let ghost head = result@;
    let ghost pieces = texts(parts@);
    let ghost body = rendered_from(pieces, categories@, start as int, end as int, Type::Plain);
    let mut index: usize = start;
    while index < end
        invariant
            start <= index <= end <= parts@.len(),
            pieces == texts(parts@),
            result@ + rendered_from(pieces, categories@, index as int, end as int, current_highlighting)
                == head + body,
        decreases end - index,
    {
        let ghost before = result@;
        let ghost rest = rendered_from(
            pieces,
            categories@,
            index as int,
            end as int,
            current_highlighting,
        );
        assert(pieces[index as int] == parts@[index as int]@);
        let piece = parts[index].as_str();
        if !piece.is_empty() {
            let c: char = piece.get_char(0);
            let highlighting_type = if index < categories.len() {
                categories[index]
            } else {
                Type::Plain
            };
            if current_highlighting != highlighting_type {
                current_highlighting = highlighting_type;
                result.append(fg(highlighting_type.to_color()).as_str());
            }
            if c == '\t' {
                result.push(' ');
            } else {
                result.push(c);
            }
        }
        index += 1;
        assert(result@ + rendered_from(
            pieces,
            categories@,
            index as int,
            end as int,
            current_highlighting,
        ) =~= before + rest);
    }
    assert(result@ =~= head + body);
    result.append(fg_reset().as_str());
    result
}

} // verus!
