//! Grapheme boundaries and display widths of text, computed by two outside
//! crates. What they compute is not proved here: each item says what is
//! taken on trust.

use unicode_segmentation::GraphemeCursor;
use unicode_width::{UnicodeWidthChar, UnicodeWidthStr};
use vstd::prelude::*;

verus! {

/// What a search for a grapheme boundary finds.
#[derive(Debug, Copy, Clone, PartialEq, Eq, Structural)]
pub enum Boundary {
    /// A boundary at the given offset, in bytes from the start of the text.
    At(usize),
    /// No boundary: the search began at the end of the text towards which
    /// it went.
    End,
    /// The search could not be finished on the text that it was given.
    Incomplete,
}

/// The first character that takes two bytes in UTF-8.
pub const FIRST_OF_TWO_BYTES: char = '\u{80}';

/// The first character that takes three bytes in UTF-8.
pub const FIRST_OF_THREE_BYTES: char = '\u{800}';

/// The first character that takes four bytes in UTF-8.
pub const FIRST_OF_FOUR_BYTES: char = '\u{10000}';

/// The number of bytes that a character takes in UTF-8.
pub open spec fn utf8_width(c: char) -> nat {
    if c < FIRST_OF_TWO_BYTES {
        1
    } else if c < FIRST_OF_THREE_BYTES {
        2
    } else if c < FIRST_OF_FOUR_BYTES {
        3
    } else {
        4
    }
}

/// The number of bytes that the first `n` characters of a text take in UTF-8.
pub open spec fn utf8_len(text: Seq<char>, n: int) -> nat
    decreases n,
{
    if n <= 0 {
        0
    } else {
        utf8_len(text, n - 1) + utf8_width(text[n - 1])
    }
}

/// Whether a byte offset into a text in UTF-8 stands between two characters
/// of the text, before the first or behind the last.
pub open spec fn on_boundary(text: Seq<char>, offset: int) -> bool {
    exists|i: int| 0 <= i <= text.len() && #[trigger] utf8_len(text, i) == offset
}

/// The next boundary of an extended grapheme cluster behind the byte offset
/// `offset` of `text`.
pub uninterp spec fn next_grapheme_boundary(text: Seq<char>, offset: usize) -> Boundary;

/// The last boundary of an extended grapheme cluster before the byte offset
/// `offset` of `text`.
pub uninterp spec fn prev_grapheme_boundary(text: Seq<char>, offset: usize) -> Boundary;

/// The number of columns that a character is displayed in; a control
/// character has none.
pub uninterp spec fn char_columns(c: char) -> Option<usize>;

/// The number of columns that a text is displayed in.
pub uninterp spec fn text_columns(text: Seq<char>) -> usize;

/// `GraphemeCursor::next_boundary` of a cursor made by `GraphemeCursor::new`
/// for the whole text, at `offset`, for extended clusters. The outside
/// function panics on an offset that lies behind the text or inside a
/// character.
#[verifier::external_body]
pub(crate) fn grapheme_after(text: &str, offset: usize) -> (found: Boundary)
    requires
        on_boundary(text@, offset as int),
    ensures
        found == next_grapheme_boundary(text@, offset),
{
    match GraphemeCursor::new(offset, text.len(), true).next_boundary(text, 0) {
        Ok(Some(boundary)) => Boundary::At(boundary),
        Ok(None) => Boundary::End,
        Err(_) => Boundary::Incomplete,
    }
}

/// `GraphemeCursor::prev_boundary` of a cursor made by `GraphemeCursor::new`
/// for the whole text, at `offset`, for extended clusters. The outside
/// function panics on an offset that lies behind the text or inside a
/// character.
#[verifier::external_body]
pub(crate) fn grapheme_before(text: &str, offset: usize) -> (found: Boundary)
    requires
        on_boundary(text@, offset as int),
    ensures
        found == prev_grapheme_boundary(text@, offset),
{
    match GraphemeCursor::new(offset, text.len(), true).prev_boundary(text, 0) {
        Ok(Some(boundary)) => Boundary::At(boundary),
        Ok(None) => Boundary::End,
        Err(_) => Boundary::Incomplete,
    }
}

/// `UnicodeWidthChar::width`.
#[verifier::external_body]
pub(crate) fn columns_of_char(c: char) -> (columns: Option<usize>)
    ensures
        columns == char_columns(c),
{
    UnicodeWidthChar::width(c)
}

/// `UnicodeWidthStr::width`.
#[verifier::external_body]
pub(crate) fn columns_of(text: &str) -> (columns: usize)
    ensures
        columns == text_columns(text@),
{
    UnicodeWidthStr::width(text)
}

/// `String::push`: the character is added at the end.
#[verifier::external_body]
pub(crate) fn string_push(text: &mut String, c: char)
    ensures
        final(text)@ == old(text)@.push(c),
{
    text.push(c);
}

/// The number of bytes that a character takes in UTF-8.
pub fn utf8_width_of(c: char) -> (width: usize)
    ensures
        width == utf8_width(c),
        1 <= width <= 4,
{
    if c < FIRST_OF_TWO_BYTES {
        1
    } else if c < FIRST_OF_THREE_BYTES {
        2
    } else if c < FIRST_OF_FOUR_BYTES {
        3
    } else {
        4
    }
}

/// The text made of the characters from `from` up to `to`.
pub fn text_of(chars: &Vec<char>, from: usize, to: usize) -> (text: String)
    requires
        from <= to <= chars.len(),
    ensures
        text@ == chars@.subrange(from as int, to as int),
{
    let mut text = String::new();
    let mut i: usize = from;
    while i < to
        invariant
            from <= i <= to <= chars.len(),
            text@ == chars@.subrange(from as int, i as int),
        decreases to - i,
    {
        string_push(&mut text, chars[i]);
        assert(chars@.subrange(from as int, i + 1) == chars@.subrange(from as int, i as int).push(
            chars@[i as int],
        ));
        i += 1;
    }
    text
}

/// The bytes of a text grow with the number of characters counted.
pub proof fn lemma_utf8_len_grows(text: Seq<char>, m: int, n: int)
    requires
        0 <= m <= n,
    ensures
        utf8_len(text, m) + (n - m) <= utf8_len(text, n),
        utf8_len(text, n) <= utf8_len(text, m) + 4 * (n - m),
    decreases n - m,
{
    if m < n {
        lemma_utf8_len_grows(text, m, n - 1);
    }
}

/// The byte offset at which the character at `index` begins, or the length
/// of the text in bytes for the index behind the last character; nothing
/// where that does not fit into the machine's numbers.
pub fn byte_offset(chars: &Vec<char>, index: usize) -> (offset: Option<usize>)
    requires
        index <= chars.len(),
    ensures
        match offset {
            Some(offset) => offset == utf8_len(chars@, index as int),
            None => utf8_len(chars@, index as int) > usize::MAX,
        },
{
    let mut offset: usize = 0;
    let mut i: usize = 0;
    while i < index
        invariant
            i <= index <= chars.len(),
            offset == utf8_len(chars@, i as int),
        decreases index - i,
    {
        let width = utf8_width_of(chars[i]);
        match offset.checked_add(width) {
            Some(next) => {
                offset = next;
            },
            None => {
                proof {
                    lemma_utf8_len_grows(chars@, i + 1, index as int);
                }
                return None;
            },
        }
        i += 1;
    }
    Some(offset)
}

/// The character index that a byte offset stands for.
pub open spec fn index_at(text: Seq<char>, offset: int) -> Option<int> {
    if on_boundary(text, offset) {
        Some(choose|i: int| 0 <= i <= text.len() && #[trigger] utf8_len(text, i) == offset)
    } else {
        None
    }
}

/// Different character indexes stand at different byte offsets.
pub proof fn lemma_index_at(text: Seq<char>, i: int)
    requires
        0 <= i <= text.len(),
    ensures
        index_at(text, utf8_len(text, i) as int) == Some(i),
{
    let offset = utf8_len(text, i) as int;
    let j = choose|j: int| 0 <= j <= text.len() && #[trigger] utf8_len(text, j) == offset;
    if j < i {
        lemma_utf8_len_grows(text, j, i);
    } else if i < j {
        lemma_utf8_len_grows(text, i, j);
    }
}

/// The index of the character that begins at a byte offset, or the number
/// of characters for the length of the text in bytes.
pub fn char_index(chars: &Vec<char>, offset: usize) -> (index: Option<usize>)
    ensures
        match index {
            Some(index) => index_at(chars@, offset as int) == Some(index as int) && index
                <= chars.len(),
            None => index_at(chars@, offset as int) is None,
        },
{
    let mut bytes: usize = 0;
    let mut i: usize = 0;
    while i < chars.len() && bytes < offset
        invariant
            i <= chars.len(),
            bytes == utf8_len(chars@, i as int),
            forall|j: int| 0 <= j < i ==> utf8_len(chars@, j) < offset,
        decreases chars.len() - i,
    {
        let width = utf8_width_of(chars[i]);
        if width > offset - bytes {
            proof {
                assert forall|j: int| 0 <= j <= chars@.len() implies #[trigger] utf8_len(
                    chars@,
                    j,
                ) != offset by {
                    if j > i {
                        lemma_utf8_len_grows(chars@, i + 1, j);
                    }
                }
            }
            return None;
        }
        bytes = bytes + width;
        i += 1;
    }
    if bytes == offset {
        proof {
            lemma_index_at(chars@, i as int);
        }
        Some(i)
    } else {
        proof {
            assert forall|j: int| 0 <= j <= chars@.len() implies #[trigger] utf8_len(chars@, j)
                != offset by {
                if j > i {
                    lemma_utf8_len_grows(chars@, i as int, j);
                }
            }
        }
        None
    }
}

} // verus!
