//! Display widths: how many terminal columns a character occupies.

use unicode_width::UnicodeWidthChar;
use vstd::prelude::*;

verus! {

/// The displayed width of `c` in terminal columns as the Unicode width tables
/// give it, or `None` where `c` is a control character.
pub uninterp spec fn char_width(c: char) -> Option<usize>;

/// Looks up the displayed width of `c`.
///
/// Calls `unicode_width::UnicodeWidthChar::width`, a pure table lookup on the
/// character. Nothing is claimed of the value beyond its name: the result is
/// what the tables hold for `c`.
#[verifier::external_body]
pub(crate) fn display_width(c: char) -> (width: Option<usize>)
    ensures
        width == char_width(c),
{
    UnicodeWidthChar::width(c)
}

/// The columns that a character of width `width` moves the cursor by: a
/// character without a width occupies a text slot but no column.
pub open spec fn columns(width: Option<usize>) -> nat {
    match width {
        Some(n) => n as nat,
        None => 0,
    }
}

/// The columns that `c` moves the cursor by.
pub open spec fn cell_width(c: char) -> nat {
    columns(char_width(c))
}

/// The sum of the display widths of all characters of `text`.
pub open spec fn text_width(text: Seq<char>) -> nat
    decreases text.len(),
{
    if text.len() == 0 {
        0
    } else {
        text_width(text.drop_last()) + cell_width(text.last())
    }
}

/// The column that follows `cursor_x` by `width`.
pub open spec fn advanced(cursor_x: nat, width: Option<usize>) -> nat {
    cursor_x + columns(width)
}

/// The column that precedes `cursor_x` by `width`, and column 0 where
/// `cursor_x` is not that far right.
pub open spec fn retreated(cursor_x: nat, width: Option<usize>) -> nat {
    if columns(width) <= cursor_x {
        (cursor_x - columns(width)) as nat
    } else {
        0
    }
}

/// Moves the cursor right past a character of width `width`. `None` where
/// the new column is not a `usize`.
pub fn advance(cursor_x: usize, width: Option<usize>) -> (next: Option<usize>)
    ensures
        next == if advanced(cursor_x as nat, width) <= usize::MAX {
            Some(advanced(cursor_x as nat, width) as usize)
        } else {
            None
        },
{
    match width {
        Some(n) => cursor_x.checked_add(n),
        None => Some(cursor_x),
    }
}

/// Moves the cursor left over a character of width `width`, never past
/// column 0.
pub fn retreat(cursor_x: usize, width: Option<usize>) -> (next: usize)
    ensures
        next == retreated(cursor_x as nat, width),
{
    match width {
        Some(n) => if n <= cursor_x {
            cursor_x - n
        } else {
            0
        },
        None => cursor_x,
    }
}

/// Appending a character adds its width to the width of the text.
pub proof fn lemma_text_width_push(text: Seq<char>, c: char)
    ensures
        text_width(text.push(c)) == text_width(text) + cell_width(c),
{
    assert(text.push(c).drop_last() =~= text);
}

} // verus!
