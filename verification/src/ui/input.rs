//! A line of text that is being typed, with a caret that moves by what a
//! reader takes for one character.

use crate::ui::graphemes::{
    byte_offset, char_columns, char_index, columns_of, columns_of_char, grapheme_after,
    grapheme_before, index_at, lemma_utf8_len_grows, next_grapheme_boundary, on_boundary,
    prev_grapheme_boundary, text_columns, text_of, utf8_len, utf8_width, utf8_width_of, Boundary,
};
use crate::ui::KeyCode;
use vstd::prelude::*;

verus! {

/// A rectangle of the terminal.
#[derive(Debug, Copy, Clone, PartialEq, Eq, Structural)]
pub struct Rect {
    pub x: u16,
    pub y: u16,
    pub width: u16,
    pub height: u16,
}

/// The sum of two numbers, or the largest number where the sum is larger.
pub open spec fn capped_sum(a: usize, b: usize) -> usize {
    if a + b > usize::MAX {
        usize::MAX
    } else {
        (a + b) as usize
    }
}

/// The difference of two numbers, or 0 where the second is larger.
pub open spec fn floored_difference(a: usize, b: usize) -> usize {
    if a < b {
        0
    } else {
        (a - b) as usize
    }
}

/// The number of columns of a character, none for a control character.
pub open spec fn columns(c: char) -> usize {
    match char_columns(c) {
        Some(columns) => columns,
        None => 0,
    }
}

/// The character index of the boundary that a search found, if it found one
/// that stands between two characters.
pub open spec fn found_index(text: Seq<char>, found: Boundary) -> Option<int> {
    match found {
        Boundary::At(offset) => index_at(text, offset as int),
        _ => None,
    }
}

/// The line and its caret, as plain values.
pub struct CaretView {
    pub buffer: Seq<char>,
    /// The number of characters before the caret.
    pub index: int,
    /// The column of the caret, counted from the start of the line.
    pub display_offset: usize,
}

impl CaretView {
    /// The byte offset of the caret in the line in UTF-8.
    pub open spec fn offset(self) -> usize {
        utf8_len(self.buffer, self.index) as usize
    }

    /// The index of the grapheme boundary before the caret, if there is one
    /// before the caret.
    pub open spec fn boundary_before(self) -> Option<int> {
        match found_index(self.buffer, prev_grapheme_boundary(self.buffer, self.offset())) {
            Some(index) => if index < self.index {
                Some(index)
            } else {
                None
            },
            None => None,
        }
    }

    /// The index of the grapheme boundary behind the caret, if there is one
    /// behind the caret.
    pub open spec fn boundary_after(self) -> Option<int> {
        match found_index(self.buffer, next_grapheme_boundary(self.buffer, self.offset())) {
            Some(index) => if index > self.index {
                Some(index)
            } else {
                None
            },
            None => None,
        }
    }

    /// The line after `c` was typed at the caret. A character that would
    /// make the line longer in bytes than the machine counts is not taken.
    pub open spec fn pushed(self, c: char) -> CaretView {
        if utf8_len(self.buffer, self.buffer.len() as int) + utf8_width(c) > usize::MAX {
            self
        } else {
            CaretView {
                buffer: self.buffer.insert(self.index, c),
                index: self.index + 1,
                display_offset: capped_sum(self.display_offset, columns(c)),
            }
        }
    }

    /// The line after the character at the grapheme boundary before the
    /// caret was taken out.
    pub open spec fn popped(self) -> CaretView {
        match self.boundary_before() {
            Some(index) => CaretView {
                buffer: self.buffer.remove(index),
                index,
                display_offset: floored_difference(
                    self.display_offset,
                    columns(self.buffer[index]),
                ),
            },
            None => self,
        }
    }

    /// The line after the caret moved back over one grapheme.
    pub open spec fn moved_left(self) -> CaretView {
        match self.boundary_before() {
            Some(index) => CaretView {
                index,
                display_offset: floored_difference(
                    self.display_offset,
                    text_columns(self.buffer.subrange(index, self.index)),
                ),
                ..self
            },
            None => self,
        }
    }

    /// The line after the caret moved on over one grapheme.
    pub open spec fn moved_right(self) -> CaretView {
        match self.boundary_after() {
            Some(index) => CaretView {
                index,
                display_offset: capped_sum(
                    self.display_offset,
                    text_columns(self.buffer.subrange(self.index, index)),
                ),
                ..self
            },
            None => self,
        }
    }

    /// The line with the caret before its first character.
    pub open spec fn moved_front(self) -> CaretView {
        CaretView { index: 0, display_offset: 0, ..self }
    }

    /// The line with the caret behind its last character.
    pub open spec fn moved_end(self) -> CaretView {
        CaretView {
            index: self.buffer.len() as int,
            display_offset: text_columns(self.buffer),
            ..self
        }
    }
}

/// A line of text with a caret.
pub struct Caret {
    buffer: Vec<char>,
    index: usize,
    display_offset: usize,
}

impl View for Caret {
    type V = CaretView;

    closed spec fn view(&self) -> CaretView {
        CaretView {
            buffer: self.buffer@,
            index: self.index as int,
            display_offset: self.display_offset,
        }
    }
}

impl Caret {
    /// Whether the caret stands in the line, and the line in UTF-8 is no
    /// longer than the machine counts.
    pub open spec fn wf(&self) -> bool {
        &&& 0 <= self@.index <= self@.buffer.len()
        &&& utf8_len(self@.buffer, self@.buffer.len() as int) <= usize::MAX
    }

    /// An empty line.
    pub fn new() -> (caret: Self)
        ensures
            caret.wf(),
            caret@ == (CaretView { buffer: Seq::empty(), index: 0, display_offset: 0 }),
    {
        Caret { buffer: Vec::new(), index: 0, display_offset: 0 }
    }

    /// The byte offset of the caret in the line in UTF-8.
    pub fn pos(&self) -> (offset: usize)
        requires
            self.wf(),
        ensures
            offset == self@.offset(),
            on_boundary(self@.buffer, offset as int),
    {
        proof {
            lemma_utf8_len_grows(self@.buffer, self@.index, self@.buffer.len() as int);
        }
        match byte_offset(&self.buffer, self.index) {
            Some(offset) => offset,
            None => 0,
        }
    }

    /// The text of the line.
    pub fn text(&self) -> (text: String)
        ensures
            text@ == self@.buffer,
    {
        let text = text_of(&self.buffer, 0, self.buffer.len());
        assert(self.buffer@.subrange(0, self.buffer@.len() as int) == self.buffer@);
        text
    }

    /// The column of the caret.
    pub fn display_offset(&self) -> (columns: usize)
        ensures
            columns == self@.display_offset,
    {
        self.display_offset
    }

    /// The index of the grapheme boundary before the caret.
    fn find_before(&self) -> (found: Option<usize>)
        requires
            self.wf(),
        ensures
            match found {
                Some(index) => self@.boundary_before() == Some(index as int) && index
                    < self.index,
                None => self@.boundary_before() is None,
            },
    {
        let offset = self.pos();
        let text = self.text();
        match grapheme_before(text.as_str(), offset) {
            Boundary::At(boundary) => match char_index(&self.buffer, boundary) {
                Some(index) => if index < self.index {
                    Some(index)
                } else {
                    None
                },
                None => None,
            },
            _ => None,
        }
    }

    /// The index of the grapheme boundary behind the caret.
    fn find_after(&self) -> (found: Option<usize>)
        requires
            self.wf(),
        ensures
            match found {
                Some(index) => self@.boundary_after() == Some(index as int) && self.index < index
                    <= self.buffer.len(),
                None => self@.boundary_after() is None,
            },
    {
        let offset = self.pos();
        let text = self.text();
        match grapheme_after(text.as_str(), offset) {
            Boundary::At(boundary) => match char_index(&self.buffer, boundary) {
                Some(index) => if index > self.index {
                    Some(index)
                } else {
                    None
                },
                None => None,
            },
            _ => None,
        }
    }

    /// Types a character at the caret.
    pub fn push(&mut self, ch: char)
        requires
            old(self).wf(),
        ensures
            final(self).wf(),
            final(self)@ == old(self)@.pushed(ch),
    {
        let total = match byte_offset(&self.buffer, self.buffer.len()) {
            Some(total) => total,
            None => {
                return ;
            },
        };
        if utf8_width_of(ch) > usize::MAX - total {
            return ;
        }
        let ghost before = self.buffer@;
        self.buffer.insert(self.index, ch);
        proof {
            before.insert_ensures(self.index as int, ch);
            lemma_utf8_len_insert(before, self.index as int, ch, before.len() as int + 1);
            lemma_utf8_len_grows(self.buffer@, 0, self.buffer@.len() as int);
        }
        self.index = self.index + 1;
        let width = match columns_of_char(ch) {
            Some(width) => width,
            None => 0,
        };
        self.display_offset = self.display_offset.saturating_add(width);
    }

    /// Takes out the character at the grapheme boundary before the caret.
    pub fn pop(&mut self)
        requires
            old(self).wf(),
        ensures
            final(self).wf(),
            final(self)@ == old(self)@.popped(),
    {
        if self.index == 0 {
            return ;
        }
        let index = match self.find_before() {
            Some(index) => index,
            None => {
                return ;
            },
        };
        let ghost before = self.buffer@;
        let ch = self.buffer.remove(index);
        proof {
            lemma_utf8_len_remove(before, index as int, before.len() as int - 1);
        }
        let width = match columns_of_char(ch) {
            Some(width) => width,
            None => 0,
        };
        self.display_offset = self.display_offset.saturating_sub(width);
        self.index = index;
    }

    /// Moves the caret back over one grapheme.
    pub fn move_left(&mut self)
        requires
            old(self).wf(),
        ensures
            final(self).wf(),
            final(self)@ == old(self)@.moved_left(),
    {
        if self.index == 0 {
            return ;
        }
        if let Some(index) = self.find_before() {
            let slice = text_of(&self.buffer, index, self.index);
            let width = columns_of(slice.as_str());
            self.display_offset = self.display_offset.saturating_sub(width);
            self.index = index;
        }
    }

    /// Moves the caret on over one grapheme.
    pub fn move_right(&mut self)
        requires
            old(self).wf(),
        ensures
            final(self).wf(),
            final(self)@ == old(self)@.moved_right(),
    {
        if self.index >= self.buffer.len() {
            return ;
        }
        if let Some(index) = self.find_after() {
            let slice = text_of(&self.buffer, self.index, index);
            let width = columns_of(slice.as_str());
            self.display_offset = self.display_offset.saturating_add(width);
            self.index = index;
        }
    }

    /// Moves the caret before the first character.
    pub fn move_front(&mut self)
        requires
            old(self).wf(),
        ensures
            final(self).wf(),
            final(self)@ == old(self)@.moved_front(),
    {
        self.index = 0;
        self.display_offset = 0;
    }

    /// Moves the caret behind the last character.
    pub fn move_end(&mut self)
        requires
            old(self).wf(),
        ensures
            final(self).wf(),
            final(self)@ == old(self)@.moved_end(),
    {
        self.index = self.buffer.len();
        let text = self.text();
        self.display_offset = columns_of(text.as_str());
    }
}

/// A character that is put into a text adds its bytes to every beginning
/// of the text that holds it.
pub proof fn lemma_utf8_len_insert(text: Seq<char>, at: int, c: char, n: int)
    requires
        0 <= at <= text.len(),
        0 <= n <= text.len() + 1,
    ensures
        utf8_len(text.insert(at, c), n) == if n <= at {
            utf8_len(text, n)
        } else {
            utf8_len(text, n - 1) + utf8_width(c)
        },
    decreases n,
{
    text.insert_ensures(at, c);
    if n > 0 {
        lemma_utf8_len_insert(text, at, c, n - 1);
        if n - 1 > at {
            assert(text.insert(at, c)[(n - 2) + 1] == text[n - 2]);
        }
    }
}

/// A character that is taken out of a text takes its bytes from every
/// beginning of the text that held it.
pub proof fn lemma_utf8_len_remove(text: Seq<char>, at: int, n: int)
    requires
        0 <= at < text.len(),
        0 <= n <= text.len() - 1,
    ensures
        utf8_len(text.remove(at), n) == if n <= at {
            utf8_len(text, n) as int
        } else {
            utf8_len(text, n + 1) - utf8_width(text[at])
        },
    decreases n,
{
    text.remove_ensures(at);
    if n > 0 {
        lemma_utf8_len_remove(text, at, n - 1);
    }
}

/// What a key did to the line.
#[derive(Debug, Clone, PartialEq, Eq)]
pub enum InputResult {
    /// Nothing that concerns anyone else.
    Handled,
    /// The input was given up.
    Return,
    /// The line was entered: here is its text.
    ProcessInput(String),
}

/// What a key did to the line, as plain values.
pub enum InputResultView {
    Handled,
    Return,
    ProcessInput(Seq<char>),
}

impl View for InputResult {
    type V = InputResultView;

    open spec fn view(&self) -> InputResultView {
        match self {
            InputResult::Handled => InputResultView::Handled,
            InputResult::Return => InputResultView::Return,
            InputResult::ProcessInput(text) => InputResultView::ProcessInput(text@),
        }
    }
}

impl CaretView {
    /// The line after a key, and what the key did.
    pub open spec fn after_key(self, key: KeyCode) -> (CaretView, InputResultView) {
        match key {
            KeyCode::Char(c) => (self.pushed(c), InputResultView::Handled),
            KeyCode::Backspace => (
                if self.index == 0 {
                    self
                } else {
                    self.popped()
                },
                InputResultView::Handled,
            ),
            KeyCode::Enter => (self, InputResultView::ProcessInput(self.buffer)),
            KeyCode::Left => (
                if self.index == 0 {
                    self
                } else {
                    self.moved_left()
                },
                InputResultView::Handled,
            ),
            KeyCode::Right => (
                if self.index >= self.buffer.len() {
                    self
                } else {
                    self.moved_right()
                },
                InputResultView::Handled,
            ),
            KeyCode::Home => (self.moved_front(), InputResultView::Handled),
            KeyCode::Up => (self.moved_front(), InputResultView::Handled),
            KeyCode::End => (self.moved_end(), InputResultView::Handled),
            KeyCode::Down => (self.moved_end(), InputResultView::Handled),
            KeyCode::Esc => (self, InputResultView::Return),
            _ => (self, InputResultView::Handled),
        }
    }

    /// The byte offset that is reached from `offset` by going on over
    /// `steps` graphemes, or over as many as the line has; 0 where the search
    /// for a boundary fails.
    pub open spec fn skipped(self, offset: usize, steps: nat) -> usize
        decreases steps,
    {
        if steps == 0 {
            offset
        } else {
            match next_grapheme_boundary(self.buffer, offset) {
                Boundary::At(boundary) => if on_boundary(self.buffer, boundary as int) {
                    self.skipped(boundary, (steps - 1) as nat)
                } else {
                    0
                },
                Boundary::End => offset,
                Boundary::Incomplete => 0,
            }
        }
    }

    /// The byte offset of the first character that a field of `max_width`
    /// columns shows, so that the caret and one column for it are in view.
    pub open spec fn visible_offset(self, max_width: usize) -> usize {
        let room = floored_difference(max_width, 1);
        if self.display_offset < room {
            0
        } else {
            self.skipped(0, (self.display_offset - room) as nat)
        }
    }

    /// The part of the line that a field of `width` columns shows: the
    /// characters that lie in the `width` bytes from the visible offset on.
    pub open spec fn visible_slice(self, width: usize) -> Seq<char> {
        let start = self.visible_offset(width);
        let total = utf8_len(self.buffer, self.buffer.len() as int);
        let end = if start + width < total {
            start + width
        } else {
            total as int
        };
        match index_at(self.buffer, start as int) {
            Some(first) => self.buffer.subrange(
                first,
                chars_within(self.buffer, end, self.buffer.len() as int),
            ),
            None => Seq::empty(),
        }
    }
}

/// The column of an area of the given width in which the caret is shown:
/// its own column as a 16-bit number, but at most the width.
pub open spec fn cursor_column(display_offset: usize, width: u16) -> u16 {
    if display_offset % 0x10000 < width {
        (display_offset % 0x10000) as u16
    } else {
        width
    }
}

/// How many of the first `n` characters of a text lie in its first `limit`
/// bytes.
pub open spec fn chars_within(text: Seq<char>, limit: int, n: int) -> int
    decreases n,
{
    if n <= 0 {
        0
    } else if utf8_len(text, n) <= limit {
        n
    } else {
        chars_within(text, limit, n - 1)
    }
}

/// The state of a field in which a line is typed.
pub struct InputState {
    pub caret: Caret,
    /// Where the terminal's cursor belongs, once the field was drawn.
    pub cursor_pos: Option<(u16, u16)>,
}

impl InputState {
    /// A field with an empty line, not drawn yet.
    pub fn new() -> (state: Self)
        ensures
            state.caret.wf(),
            state.caret@ == (CaretView { buffer: Seq::empty(), index: 0, display_offset: 0 }),
            state.cursor_pos is None,
    {
        InputState { caret: Caret::new(), cursor_pos: None }
    }

    /// Lets a key edit the line, move the caret, enter the line or give it up.
    pub fn process_key(&mut self, key: KeyCode) -> (result: InputResult)
        requires
            old(self).caret.wf(),
        ensures
            final(self).caret.wf(),
            final(self).cursor_pos == old(self).cursor_pos,
            (final(self).caret@, result@) == old(self).caret@.after_key(key),
    {
        match key {
            KeyCode::Char(ch) => {
                self.caret.push(ch);
                InputResult::Handled
            },
            KeyCode::Backspace => {
                self.caret.pop();
                InputResult::Handled
            },
            KeyCode::Enter => InputResult::ProcessInput(self.caret.text()),
            KeyCode::Left => {
                self.caret.move_left();
                InputResult::Handled
            },
            KeyCode::Right => {
                self.caret.move_right();
                InputResult::Handled
            },
            KeyCode::Home | KeyCode::Up => {
                self.caret.move_front();
                InputResult::Handled
            },
            KeyCode::End | KeyCode::Down => {
                self.caret.move_end();
                InputResult::Handled
            },
            KeyCode::Esc => InputResult::Return,
            _ => InputResult::Handled,
        }
    }

    /// The byte offset of the first character that a field of `max_width`
    /// columns shows.
    pub fn visible_offset(&self, max_width: usize) -> (offset: usize)
        requires
            self.caret.wf(),
        ensures
            offset == self.caret@.visible_offset(max_width),
            on_boundary(self.caret@.buffer, offset as int),
    {
        let ghost line = self.caret@;
        let ghost wanted = line.visible_offset(max_width);
        let room = max_width.saturating_sub(1);
        assert(utf8_len(line.buffer, 0) == 0);
        if self.caret.display_offset() < room {
            return 0;
        }
        let desired_offset = self.caret.display_offset() - room;
        let text = self.caret.text();
        let mut offset: usize = 0;
        let mut done: usize = 0;
        while done < desired_offset
            invariant
                done <= desired_offset,
                line == self.caret@,
                text@ == line.buffer,
                on_boundary(line.buffer, offset as int),
                on_boundary(line.buffer, 0),
                wanted == line.visible_offset(max_width),
                line.skipped(offset, (desired_offset - done) as nat) == wanted,
            decreases desired_offset - done,
        {
            match grapheme_after(text.as_str(), offset) {
                Boundary::At(boundary) => {
                    if self.caret.is_boundary(boundary) {
                        offset = boundary;
                    } else {
                        return 0;
                    }
                },
                Boundary::End => {
                    return offset;
                },
                Boundary::Incomplete => {
                    return 0;
                },
            }
            done += 1;
        }
        offset
    }

    /// Puts the terminal's cursor where the caret is shown in `area`, at
    /// most at the right edge of the area.
    pub fn update_cursor_pos(&mut self, area: Rect)
        requires
            area.x + area.width <= u16::MAX,
        ensures
            final(self).caret == old(self).caret,
            final(self).cursor_pos == if area.width < 1 || area.height < 1 {
                old(self).cursor_pos
            } else {
                Some(
                    (
                        (area.x + cursor_column(old(self).caret@.display_offset, area.width))
                            as u16,
                        area.y,
                    ),
                )
            },
    {
        if area.width < 1 || area.height < 1 {
            return ;
        }
        let column = (self.caret.display_offset() % 0x10000) as u16;
        let offset = if column < area.width {
            column
        } else {
            area.width
        };
        self.cursor_pos = Some((area.x + offset, area.y));
    }

    /// The part of the line that a field of `width` columns shows.
    pub fn visible_slice(&self, width: usize) -> (slice: String)
        requires
            self.caret.wf(),
        ensures
            slice@ == self.caret@.visible_slice(width),
    {
        let start = self.visible_offset(width);
        let (first, last) = self.caret.char_range(start, width);
        self.caret.slice(first, last)
    }
}

impl Caret {
    /// Whether a byte offset stands between two characters of the line.
    pub fn is_boundary(&self, offset: usize) -> (yes: bool)
        ensures
            yes == on_boundary(self@.buffer, offset as int),
    {
        char_index(&self.buffer, offset).is_some()
    }

    /// The text made of the characters from `from` up to `to`.
    pub fn slice(&self, from: usize, to: usize) -> (text: String)
        requires
            from <= to <= self@.buffer.len(),
        ensures
            text@ == self@.buffer.subrange(from as int, to as int),
    {
        text_of(&self.buffer, from, to)
    }

    /// The characters that lie in the `width` bytes from the byte offset
    /// `start` on: the index of the first, and the index behind the last.
    pub fn char_range(&self, start: usize, width: usize) -> (range: (usize, usize))
        requires
            self.wf(),
        ensures
            range.0 <= range.1 <= self@.buffer.len(),
            match index_at(self@.buffer, start as int) {
                Some(first) => {
                    &&& range.0 == first
                    &&& range.1 == chars_within(
                        self@.buffer,
                        if start + width < utf8_len(self@.buffer, self@.buffer.len() as int) {
                            start + width
                        } else {
                            utf8_len(self@.buffer, self@.buffer.len() as int) as int
                        },
                        self@.buffer.len() as int,
                    )
                },
                None => range.0 == range.1,
            },
    {
        let ghost text = self.buffer@;
        let first = match char_index(&self.buffer, start) {
            Some(first) => first,
            None => {
                return (0, 0);
            },
        };
        let total = match byte_offset(&self.buffer, self.buffer.len()) {
            Some(total) => total,
            None => {
                return (first, first);
            },
        };
        let end = if width < total && start < total - width {
            start + width
        } else {
            total
        };
        // Count the characters that end at or before `end`.
        let mut last: usize = first;
        let mut bytes: usize = start;
        proof {
            lemma_utf8_len_grows(text, first as int, text.len() as int);
        }
        while last < self.buffer.len() && utf8_width_of(self.buffer[last]) <= end - bytes
            invariant
                text == self.buffer@,
                first <= last <= text.len(),
                bytes == utf8_len(text, last as int),
                start <= bytes <= end <= total,
                total == utf8_len(text, text.len() as int),
            decreases text.len() - last,
        {
            bytes = bytes + utf8_width_of(self.buffer[last]);
            last += 1;
        }
        proof {
            lemma_chars_within(text, end as int, last as int, text.len() as int);
        }
        (first, last)
    }
}

/// The characters that lie in the first `limit` bytes are those before the
/// first character that ends behind them.
pub proof fn lemma_chars_within(text: Seq<char>, limit: int, k: int, n: int)
    requires
        0 <= k <= n <= text.len(),
        utf8_len(text, k) <= limit,
        k < text.len() ==> utf8_len(text, k + 1) > limit,
        k == text.len() ==> n == k,
    ensures
        chars_within(text, limit, n) == k,
    decreases n - k,
{
    if n > k {
        lemma_utf8_len_grows(text, k + 1, n);
        lemma_chars_within(text, limit, k, n - 1);
    }
}

} // verus!
