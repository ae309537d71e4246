//! Where the parts of a line of a directory go, and in which colours.

use crate::archive::EntryProperties;
use crate::ui::input::Rect;
use crate::ui::text::{alignment_offset, Alignment};
use vstd::prelude::*;

verus! {

/// The columns that stay free before the name of an entry.
pub const BASE_NAME_OFFSET: u16 = 1;

/// The columns that stay free behind the size of an entry.
pub const BASE_SIZE_OFFSET: u16 = 1;

/// The columns that stay free between a name and a size.
pub const MIN_SPACING: u16 = 1;

/// A colour of the panels.
#[derive(Debug, Copy, Clone, PartialEq, Eq, Structural)]
pub enum Color {
    White,
    Black,
    Yellow,
    LightBlue,
}

/// The colours of a line: that of its text, and that of its background
/// where the line has one of its own.
#[derive(Debug, Copy, Clone, PartialEq, Eq, Structural)]
pub struct LineColors {
    pub fg: Color,
    pub bg: Option<Color>,
}

/// The colours of the line of an entry: a directory is light blue, a file
/// white, a selected entry yellow; the highlighted line has these colours as
/// its background, under black text.
pub fn apply_line_color(props: EntryProperties, highlighted: bool, selected: bool) -> (colors:
    LineColors)
    ensures
        colors == ({
            let primary = if props is Directory {
                Color::LightBlue
            } else {
                Color::White
            };
            if highlighted {
                LineColors {
                    fg: Color::Black,
                    bg: Some(
                        if selected {
                            Color::Yellow
                        } else {
                            primary
                        },
                    ),
                }
            } else {
                LineColors {
                    fg: if selected {
                        Color::Yellow
                    } else {
                        primary
                    },
                    bg: None,
                }
            }
        }),
{
    let primary_color = match props {
        EntryProperties::File(_) => Color::White,
        EntryProperties::Directory => Color::LightBlue,
    };
    match (highlighted, selected) {
        (true, true) => LineColors { fg: Color::Black, bg: Some(Color::Yellow) },
        (true, false) => LineColors { fg: Color::Black, bg: Some(primary_color) },
        (false, true) => LineColors { fg: Color::Yellow, bg: None },
        (false, false) => LineColors { fg: primary_color, bg: None },
    }
}

/// Where the name and the size of an entry go in its line.
#[derive(Debug, Copy, Clone, PartialEq, Eq, Structural)]
pub struct ItemLayout {
    /// The column of the name.
    pub name_x: u16,
    /// The number of columns that the name may take at most.
    pub name_max: u16,
    /// Whether the line is drawn in bold.
    pub bold: bool,
    /// The column of the size, where there is room for the size.
    pub size_x: Option<u16>,
}

/// The columns before the name of an entry: one, and one more for a
/// selected entry.
pub open spec fn name_offset(selected: bool) -> u16 {
    if selected {
        2
    } else {
        1
    }
}

/// The column in an area at which a size of `size_len` columns begins.
pub open spec fn size_start(width: u16, size_len: usize) -> int {
    let size_len = size_len % 0x10000;
    if width < size_len + BASE_SIZE_OFFSET {
        0
    } else {
        width - size_len - BASE_SIZE_OFFSET
    }
}

/// The layout of the line of an entry in an area; an area that has no
/// column for the name has none. The size is shown where it leaves a column
/// free behind the name, whose width is counted as a 16-bit number.
pub open spec fn item_layout_of(
    area: Rect,
    highlighted: bool,
    selected: bool,
    name_width: usize,
    size_len: usize,
) -> Option<ItemLayout> {
    if area.width <= name_offset(selected) || area.height == 0 {
        None
    } else {
        let start = size_start(area.width, size_len);
        let remaining = if start < MIN_SPACING {
            0
        } else {
            start - MIN_SPACING
        };
        Some(
            ItemLayout {
                name_x: (area.x + name_offset(selected)) as u16,
                name_max: (area.width - name_offset(selected) - BASE_NAME_OFFSET) as u16,
                bold: highlighted || selected,
                size_x: if remaining >= name_offset(selected) + name_width % 0x10000 {
                    Some((area.x + start) as u16)
                } else {
                    None
                },
            },
        )
    }
}

/// The layout of the line of an entry in an area.
pub fn item_layout(area: Rect, highlighted: bool, selected: bool, name_width: usize, size_len: usize) -> (layout:
    Option<ItemLayout>)
    requires
        area.x + area.width <= u16::MAX,
    ensures
        layout == item_layout_of(area, highlighted, selected, name_width, size_len),
{
    let name_offset: u16 = if selected {
        BASE_NAME_OFFSET * 2
    } else {
        BASE_NAME_OFFSET
    };
    if area.width <= name_offset || area.height == 0 {
        return None;
    }
    let name_len: u32 = name_offset as u32 + (name_width % 0x10000) as u32;
    let size_start = area.width.saturating_sub((size_len % 0x10000) as u16).saturating_sub(
        BASE_SIZE_OFFSET,
    );
    let remaining_space = size_start.saturating_sub(MIN_SPACING);
    Some(
        ItemLayout {
            name_x: area.x + name_offset,
            name_max: area.width.saturating_sub(name_offset + BASE_NAME_OFFSET),
            bold: highlighted || selected,
            size_x: if remaining_space as u32 >= name_len {
                Some(area.x + size_start)
            } else {
                None
            },
        },
    )
}

/// The column at which a text of `len` columns is drawn in an area; a text
/// that is wider than the area is not drawn.
pub fn simple_text_x(area: Rect, alignment: Alignment, len: u16) -> (x: Option<u16>)
    requires
        area.x + area.width <= u16::MAX,
    ensures
        x == if area.width < len {
            None
        } else {
            Some(
                (area.x + match alignment {
                    Alignment::Left => 0,
                    Alignment::Center => area.width / 2 - len / 2,
                    Alignment::Right => area.width - len,
                }) as u16,
            )
        },
{
    if area.width < len {
        return None;
    }
    let offset = alignment_offset(alignment, area.width, len);
    Some(area.x + offset)
}

/// The area of the `i`-th line that a directory shows in an area.
pub fn row_area(area: Rect, i: u16) -> (row: Rect)
    requires
        area.y + i <= u16::MAX,
    ensures
        row == (Rect { y: (area.y + i) as u16, height: 1, ..area }),
{
    Rect { y: area.y + i, height: 1, ..area }
}

} // verus!
