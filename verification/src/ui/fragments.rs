//! Text in fragments: where each fragment of a line goes.

use crate::ui::input::Rect;
use crate::ui::text::{alignment_offset, Alignment};
use vstd::prelude::*;
use vstd::utf8::encode_utf8;

verus! {

/// A piece of a line. The number beside a text or a character says in which
/// style it is drawn.
pub enum Fragment {
    Text(String, u32),
    Char(char, u32),
    /// The fragments of a widget, which is drawn as a whole or not at all.
    Widget(Vec<Fragment>),
}

/// A text or a character with the column at which it is drawn.
#[derive(Debug, Clone, PartialEq, Eq)]
pub enum Placed {
    Text { x: u16, text: String, style: u32 },
    Char { x: u16, ch: char, style: u32 },
}

/// A placed text or character as plain values.
pub enum PlacedView {
    Text { x: int, text: Seq<char>, style: u32 },
    Char { x: int, ch: char, style: u32 },
}

impl View for Placed {
    type V = PlacedView;

    open spec fn view(&self) -> PlacedView {
        match self {
            Placed::Text { x, text, style } => PlacedView::Text {
                x: *x as int,
                text: text@,
                style: *style,
            },
            Placed::Char { x, ch, style } => PlacedView::Char {
                x: *x as int,
                ch: *ch,
                style: *style,
            },
        }
    }
}

/// The views of placed pieces.
pub open spec fn placed_view(placed: Seq<Placed>) -> Seq<PlacedView> {
    placed.map_values(|piece: Placed| piece@)
}

/// The number of columns that a fragment takes: a text as many as it has
/// bytes, a character one, a widget as many as its fragments together.
pub open spec fn fragment_len(fragment: Fragment) -> int
    decreases fragment, 0int,
{
    match fragment {
        Fragment::Text(text, _) => encode_utf8(text@).len() as int,
        Fragment::Char(_, _) => 1,
        Fragment::Widget(items) => fragments_len(items@, items@.len() as int),
    }
}

/// The number of columns that the first `n` fragments take together.
pub open spec fn fragments_len(items: Seq<Fragment>, n: int) -> int
    decreases items, n,
{
    if n <= 0 || n > items.len() {
        0
    } else {
        fragments_len(items, n - 1) + fragment_len(items[n - 1])
    }
}

/// Whether something can be drawn in an area so that it ends before the
/// column `x`: the area has lines, and the column lies in it.
pub open spec fn can_draw_before(area: Rect, x: int) -> bool {
    x < area.x + area.width && area.height > 0
}

/// The pieces that are drawn of the fragments from the `k`-th on, with the
/// `k`-th beginning `offset_x` columns into the area. A text and a widget
/// are drawn where a column is left behind them, a character where it has a
/// column; the first fragment that is not drawn ends the line.
pub open spec fn placed_from(items: Seq<Fragment>, k: int, area: Rect, offset_x: int) -> Seq<
    PlacedView,
>
    decreases items, 0int, items.len() - k,
{
    if k < 0 || k >= items.len() {
        Seq::empty()
    } else {
        let start_x = area.x + offset_x;
        match items[k] {
            Fragment::Text(text, style) => {
                let len = encode_utf8(text@).len() as int;
                if can_draw_before(area, start_x + len) {
                    seq![PlacedView::Text { x: start_x, text: text@, style }] + placed_from(
                        items,
                        k + 1,
                        area,
                        offset_x + len,
                    )
                } else {
                    Seq::empty()
                }
            },
            Fragment::Char(ch, style) => {
                if can_draw_before(area, start_x) {
                    seq![PlacedView::Char { x: start_x, ch, style }] + placed_from(
                        items,
                        k + 1,
                        area,
                        offset_x + 1,
                    )
                } else {
                    Seq::empty()
                }
            },
            Fragment::Widget(inner) => {
                let total = fragments_len(inner@, inner@.len() as int);
                if can_draw_before(area, start_x + total) {
                    let widget_area = Rect {
                        x: start_x as u16,
                        width: if area.width >= offset_x {
                            (area.width - offset_x) as u16
                        } else {
                            0
                        },
                        ..area
                    };
                    placed(inner@, widget_area, Alignment::Left) + placed_from(
                        items,
                        k + 1,
                        area,
                        offset_x + total,
                    )
                } else {
                    Seq::empty()
                }
            },
        }
    }
}

/// The pieces that are drawn of a line of fragments in an area.
pub open spec fn placed(items: Seq<Fragment>, area: Rect, alignment: Alignment) -> Seq<PlacedView>
    decreases items, 1int, 0int,
{
    if area.width == 0 || area.height == 0 {
        Seq::empty()
    } else {
        placed_from(items, 0, area, aligned(alignment, area.width, fragments_len(items, items.len() as int)))
    }
}

/// Where a text of `item_len` columns begins in a line of `total_len` columns.
pub open spec fn aligned(alignment: Alignment, total_len: u16, item_len: int) -> int {
    match alignment {
        Alignment::Left => 0,
        Alignment::Center => if total_len / 2 >= item_len / 2 {
            total_len / 2 - item_len / 2
        } else {
            0
        },
        Alignment::Right => if total_len >= item_len {
            total_len - item_len
        } else {
            0
        },
    }
}

proof fn lemma_fragment_len_nonnegative(fragment: Fragment)
    ensures
        0 <= fragment_len(fragment),
    decreases fragment, 0int,
{
    match fragment {
        Fragment::Widget(items) => {
            lemma_fragments_len_grows(items@, 0, items@.len() as int);
        },
        _ => {},
    }
}

/// The columns of fragments grow with the number of fragments counted.
pub proof fn lemma_fragments_len_grows(items: Seq<Fragment>, m: int, n: int)
    requires
        0 <= m <= n <= items.len(),
    ensures
        0 <= fragments_len(items, m) <= fragments_len(items, n),
    decreases items, n,
{
    if n > 0 {
        lemma_fragment_len_nonnegative(items[n - 1]);
        if m < n {
            lemma_fragments_len_grows(items, m, n - 1);
        } else {
            lemma_fragments_len_grows(items, n - 1, n - 1);
        }
    }
}

/// What the length of a fragment is, case by case.
proof fn lemma_fragment_unfold(fragment: Fragment)
    ensures
        fragment_len(fragment) == match fragment {
            Fragment::Text(text, _) => encode_utf8(text@).len() as int,
            Fragment::Char(_, _) => 1,
            Fragment::Widget(items) => fragments_len(items@, items@.len() as int),
        },
{
}

/// The combined length of fragments.
pub fn total_len(items: &Vec<Fragment>) -> (len: u16)
    requires
        fragments_len(items@, items@.len() as int) <= u16::MAX,
    ensures
        len == fragments_len(items@, items@.len() as int),
    decreases items,
{
    let mut len: u16 = 0;
    let mut i: usize = 0;
    while i < items.len()
        invariant
            i <= items.len(),
            len == fragments_len(items@, i as int),
            fragments_len(items@, items@.len() as int) <= u16::MAX,
        decreases items.len() - i,
    {
        proof {
            lemma_fragments_len_grows(items@, i + 1, items@.len() as int);
            lemma_fragments_len_grows(items@, i as int, i + 1);
            assert(fragments_len(items@, i + 1) == fragments_len(items@, i as int) + fragment_len(
                items@[i as int],
            ));
            lemma_fragment_unfold(items@[i as int]);
        }
        let piece = match &items[i] {
            Fragment::Text(text, _) => text.as_str().len() as u16,
            Fragment::Char(_, _) => 1,
            Fragment::Widget(inner) => total_len(inner),
        };
        len = len + piece;
        i += 1;
    }
    len
}

/// The pieces that are drawn of a line of fragments in an area, added to
/// `out` in the order in which they are drawn.
pub fn render(items: &Vec<Fragment>, area: Rect, alignment: Alignment, out: &mut Vec<Placed>)
    requires
        fragments_len(items@, items@.len() as int) <= u16::MAX,
        area.x + area.width <= u16::MAX,
    ensures
        placed_view(final(out)@) == placed_view(old(out)@) + placed(items@, area, alignment),
    decreases items, 1int, 0int,
{
    if area.width == 0 || area.height == 0 {
        assert(placed_view(out@) + Seq::<PlacedView>::empty() == placed_view(out@));
        return ;
    }
    let offset_x = alignment_offset(alignment, area.width, total_len(items));
    render_from(items, 0, area, offset_x, out);
}

/// The pieces that are drawn of the fragments from the `k`-th on.
fn render_from(items: &Vec<Fragment>, k: usize, area: Rect, offset_x: u16, out: &mut Vec<Placed>)
    requires
        k <= items.len(),
        fragments_len(items@, items@.len() as int) <= u16::MAX,
        area.x + area.width <= u16::MAX,
        area.x + offset_x <= u16::MAX,
    ensures
        placed_view(final(out)@) == placed_view(old(out)@) + placed_from(
            items@,
            k as int,
            area,
            offset_x as int,
        ),
    decreases items, 0int, items.len() - k,
{
    let ghost before = placed_view(out@);
    if k >= items.len() {
        assert(before + Seq::<PlacedView>::empty() == before);
        return ;
    }
    proof {
        lemma_fragments_len_grows(items@, k + 1, items@.len() as int);
        lemma_fragments_len_grows(items@, k as int, k + 1);
        assert(fragments_len(items@, k + 1) == fragments_len(items@, k as int) + fragment_len(
            items@[k as int],
        ));
        lemma_fragment_unfold(items@[k as int]);
    }
    let start_x = area.x + offset_x;
    let edge = area.x as u32 + area.width as u32;
    match &items[k] {
        Fragment::Text(text, style) => {
            let len = text.as_str().len() as u16;
            if start_x as u32 + (len as u32) < edge && area.height > 0 {
                out.push(Placed::Text { x: start_x, text: text.clone(), style: *style });
                let ghost piece = PlacedView::Text { x: start_x as int, text: text@, style: *style };
                assert(placed_view(out@) == before.push(piece));
                render_from(items, k + 1, area, offset_x + len, out);
                assert(before.push(piece) + placed_from(
                    items@,
                    k + 1,
                    area,
                    offset_x + len,
                ) == before + (seq![piece] + placed_from(items@, k + 1, area, offset_x + len)));
            } else {
                assert(before + Seq::<PlacedView>::empty() == before);
            }
        },
        Fragment::Char(ch, style) => {
            if (start_x as u32) < edge && area.height > 0 {
                out.push(Placed::Char { x: start_x, ch: *ch, style: *style });
                let ghost piece = PlacedView::Char { x: start_x as int, ch: *ch, style: *style };
                assert(placed_view(out@) == before.push(piece));
                render_from(items, k + 1, area, offset_x + 1, out);
                assert(before.push(piece) + placed_from(items@, k + 1, area, offset_x + 1)
                    == before + (seq![piece] + placed_from(items@, k + 1, area, offset_x + 1)));
            } else {
                assert(before + Seq::<PlacedView>::empty() == before);
            }
        },
        Fragment::Widget(inner) => {
            let total = total_len(inner);
            if start_x as u32 + (total as u32) < edge && area.height > 0 {
                let widget_area = Rect {
                    x: start_x,
                    width: area.width.saturating_sub(offset_x),
                    ..area
                };
                render(inner, widget_area, Alignment::Left, out);
                let ghost drawn = placed(inner@, widget_area, Alignment::Left);
                render_from(items, k + 1, area, offset_x + total, out);
                assert((before + drawn) + placed_from(items@, k + 1, area, offset_x + total)
                    == before + (drawn + placed_from(items@, k + 1, area, offset_x + total)));
            } else {
                assert(before + Seq::<PlacedView>::empty() == before);
            }
        },
    }
}

} // verus!
