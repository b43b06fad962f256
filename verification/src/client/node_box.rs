use vstd::prelude::*;

use crate::cell_buffer::cell::{blank_bg, blank_fg, Cell, ColorRGB};
use crate::cell_buffer::cell_buffer::{index_pos, lemma_cell_index, CellBuffer};
use crate::geom::{Pos, Rect, Size};
use super::layout::wrap::{Wrap, WrapView};
use super::layout::wrap_builder::or_else;

verus! {

/// A rectangle from integer coordinates.
pub open spec fn rect_of(x: int, y: int, width: int, height: int) -> Rect {
    Rect {
        origin: Pos { x: x as usize, y: y as usize },
        size: Size { width: width as usize, height: height as usize },
    }
}

/// The area a wrap covers with its margin, padding and border.
pub open spec fn outside_area(w: WrapView) -> Rect {
    let e = w.outside_extent();
    rect_of(
        or_else(w.computed_x, 0) - e,
        or_else(w.computed_y, 0) - e,
        or_else(w.computed_width, 0) + 2 * e,
        or_else(w.computed_height, 0) + 2 * e,
    )
}

/// The area inside a wrap's margin, padding and border.
pub open spec fn inside_area(w: WrapView) -> Rect {
    rect_of(
        or_else(w.computed_x, 0) as int,
        or_else(w.computed_y, 0) as int,
        or_else(w.computed_width, 0) as int,
        or_else(w.computed_height, 0) as int,
    )
}

/// The area a wrap covers with its padding and border.
pub open spec fn border_area(w: WrapView) -> Rect {
    let e = w.border_extent();
    rect_of(
        or_else(w.computed_x, 0) - e,
        or_else(w.computed_y, 0) - e,
        or_else(w.computed_width, 0) + 2 * e,
        or_else(w.computed_height, 0) + 2 * e,
    )
}

/// The screen's area.
pub open spec fn screen_area(size: Size) -> Rect {
    Rect { origin: Pos { x: 0, y: 0 }, size: size }
}

/// The wrap's areas are computed and fit a `usize`, and each of them meets the screen.
pub open spec fn box_drawable(w: WrapView, size: Size) -> bool {
    let e = w.outside_extent();
    &&& w.computed_x matches Some(x) && x >= e
    &&& w.computed_y matches Some(y) && y >= e
    &&& w.computed_width matches Some(cw) && cw + 2 * e <= usize::MAX
    &&& w.computed_height matches Some(ch) && ch + 2 * e <= usize::MAX
    &&& outside_area(w).fits()
    &&& outside_area(w).overlaps(screen_area(size))
    &&& inside_area(w).overlaps(screen_area(size))
    &&& w.has_border ==> border_area(w).overlaps(screen_area(size))
}

/// The UTF-8 bytes of the box drawing characters.
pub open spec fn horizontal_glyph() -> Seq<u8> {
    seq![0xe2u8, 0x94u8, 0x80u8]
}

pub open spec fn vertical_glyph() -> Seq<u8> {
    seq![0xe2u8, 0x94u8, 0x82u8]
}

pub open spec fn top_left_glyph() -> Seq<u8> {
    seq![0xe2u8, 0x94u8, 0x8cu8]
}

pub open spec fn top_right_glyph() -> Seq<u8> {
    seq![0xe2u8, 0x94u8, 0x90u8]
}

pub open spec fn bottom_left_glyph() -> Seq<u8> {
    seq![0xe2u8, 0x94u8, 0x94u8]
}

pub open spec fn bottom_right_glyph() -> Seq<u8> {
    seq![0xe2u8, 0x94u8, 0x98u8]
}

/// The glyph a border drawn around `b` puts at `p`: corners at the corners, vertical lines down
/// the first and last columns, horizontal lines along the first and last rows; nothing
/// elsewhere. Where two of them fall on one cell, the one drawn last shows: corners over
/// sides, sides over the top and bottom.
pub open spec fn border_glyph(b: Rect, p: Pos) -> Option<Seq<u8>> {
    let left = b.origin.x as int;
    let top = b.origin.y as int;
    let right = b.right() - 1;
    let bottom = b.bottom() - 1;
    if !b.holds(p) {
        None
    } else if p.x == right && p.y == bottom {
        Some(bottom_right_glyph())
    } else if p.x == left && p.y == bottom {
        Some(bottom_left_glyph())
    } else if p.x == right && p.y == top {
        Some(top_right_glyph())
    } else if p.x == left && p.y == top {
        Some(top_left_glyph())
    } else if p.x == left || p.x == right {
        Some(vertical_glyph())
    } else if p.y == top || p.y == bottom {
        Some(horizontal_glyph())
    } else {
        None
    }
}

/// Two cells agree in everything but their glyph.
pub open spec fn same_but_chars(a: Cell, b: Cell) -> bool {
    &&& a.bg_palette == b.bg_palette
    &&& a.bg_rgb == b.bg_rgb
    &&& a.blink == b.blink
    &&& a.bold == b.bold
    &&& a.dhl == b.dhl
    &&& a.dirty == b.dirty
    &&& a.dwl == b.dwl
    &&& a.fg_palette == b.fg_palette
    &&& a.fg_rgb == b.fg_rgb
    &&& a.font == b.font
    &&& a.italic == b.italic
    &&& a.pos == b.pos
    &&& a.reverse == b.reverse
    &&& a.strike == b.strike
    &&& a.underline == b.underline
    &&& a.width == b.width
}

/// The cell at `p` once a node's box is drawn: inside the outside area but not inside the
/// inside area it is cleared; where the border is drawn its glyph replaces the cell's.
pub open spec fn boxed_cell(old: Cell, new: Cell, p: Pos, outside: Rect, inside: Rect, border: Option<Rect>) -> bool {
    let clear = outside.holds(p) && !inside.holds(p);
    let glyph = match border {
        Some(b) => border_glyph(b, p),
        None => None,
    };
    &&& if clear {
        &&& new.bg_palette == 0
        &&& new.bg_rgb == blank_bg()
        &&& !new.blink
        &&& !new.bold
        &&& new.dhl == 0
        &&& new.dirty
        &&& !new.dwl
        &&& new.fg_palette == 7
        &&& new.fg_rgb == blank_fg()
        &&& new.font == 0
        &&& !new.italic
        &&& new.pos == old.pos
        &&& !new.reverse
        &&& !new.strike
        &&& new.underline == 0
        &&& new.width == 0
    } else {
        same_but_chars(old, new)
    }
    &&& new.chars@ == match glyph {
        Some(g) => g,
        None => if clear {
            Seq::empty()
        } else {
            old.chars@
        },
    }
}

/// The glyph of a border around `b` at `p`.
fn border_glyph_at(b: &Rect, p: &Pos) -> (r: Option<Vec<u8>>)
    requires
        b.fits(),
        b.size.width > 0,
        b.size.height > 0,
    ensures
        match r {
            Some(g) => border_glyph(*b, *p) == Some(g@),
            None => border_glyph(*b, *p) is None,
        },
{
    let left = b.origin.x;
    let top = b.origin.y;
    let right = b.origin.x + b.size.width - 1;
    let bottom = b.origin.y + b.size.height - 1;
    if !b.contains(p) {
        None
    } else if p.x == right && p.y == bottom {
        let g = vec![0xe2u8, 0x94u8, 0x98u8];
        assert(g@ =~= bottom_right_glyph());
        Some(g)
    } else if p.x == left && p.y == bottom {
        let g = vec![0xe2u8, 0x94u8, 0x94u8];
        assert(g@ =~= bottom_left_glyph());
        Some(g)
    } else if p.x == right && p.y == top {
        let g = vec![0xe2u8, 0x94u8, 0x90u8];
        assert(g@ =~= top_right_glyph());
        Some(g)
    } else if p.x == left && p.y == top {
        let g = vec![0xe2u8, 0x94u8, 0x8cu8];
        assert(g@ =~= top_left_glyph());
        Some(g)
    } else if p.x == left || p.x == right {
        let g = vec![0xe2u8, 0x94u8, 0x82u8];
        assert(g@ =~= vertical_glyph());
        Some(g)
    } else if p.y == top || p.y == bottom {
        let g = vec![0xe2u8, 0x94u8, 0x80u8];
        assert(g@ =~= horizontal_glyph());
        Some(g)
    } else {
        None
    }
}

/// Whether `draw_node_box` can draw the wrap on a screen of the given size.
pub fn node_box_fits(wrap: &Wrap, size: &Size) -> (r: bool)
    ensures
        r == box_drawable(wrap@, *size),
{
    let (x, y, cw, ch) = match (wrap.computed_x(), wrap.computed_y(), wrap.computed_width(), wrap.computed_height()) {
        (Some(x), Some(y), Some(cw), Some(ch)) => (x as u128, y as u128, cw as u128, ch as u128),
        _ => return false,
    };
    let e = wrap.outside_extent_wide();
    let be = wrap.border_extent_wide();
    let max = usize::MAX as u128;
    if x < e || y < e || cw + 2 * e > max || ch + 2 * e > max {
        return false;
    }
    // the outside area
    let ox = x - e;
    let oy = y - e;
    let ow = cw + 2 * e;
    let oh = ch + 2 * e;
    if ox + ow > max || oy + oh > max {
        return false;
    }
    let width = size.width as u128;
    let height = size.height as u128;
    let overlaps_screen = |rx: u128, ry: u128, rw: u128, rh: u128| -> (o: bool)
        ensures
            o == (rx < width && 0 < rx + rw && ry < height && 0 < ry + rh),
    { rx < width && (rx > 0 || rw > 0) && ry < height && (ry > 0 || rh > 0) };
    if !overlaps_screen(ox, oy, ow, oh) || !overlaps_screen(x, y, cw, ch) {
        return false;
    }
    if wrap.has_border() && !overlaps_screen(x - be, y - be, cw + 2 * be, ch + 2 * be) {
        return false;
    }
    true
}

/// Draw any margin border or padding for the given node: the cells of the node's outside area
/// that are not inside it are cleared, and a node with a border gets one drawn around its
/// border area; each area is first cut to the screen.
pub fn draw_node_box(screen: &mut CellBuffer, wrap: &Wrap, size: &Size)
    requires
        old(screen).wf(),
        old(screen).size() == *size,
        box_drawable(wrap@, *size),
    ensures
        final(screen).wf(),
        final(screen).size() == *size,
        final(screen).cells().len() == old(screen).cells().len(),
        forall|i: int|
            0 <= i < old(screen).cells().len() ==> boxed_cell(
                #[trigger] old(screen).cells()[i],
                final(screen).cells()[i],
                index_pos(i, size.width as int),
                outside_area(wrap@).meet(screen_area(*size)),
                inside_area(wrap@).meet(screen_area(*size)),
                if wrap@.has_border {
                    Some(border_area(wrap@).meet(screen_area(*size)))
                } else {
                    None
                },
            ),
{
    let screen_rect = Rect::new(Pos::new(0, 0), *size);
    let outside = Rect::new(
        Pos::new(wrap.outside_x().unwrap(), wrap.outside_y().unwrap()),
        Size::new(wrap.outside_width().unwrap(), wrap.outside_height().unwrap()),
    );
    assert(outside == outside_area(wrap@));
    let outside = match outside.intersection(&screen_rect) {
        Some(r) => r,
        None => return,
    };
    let inside = Rect::new(
        Pos::new(wrap.computed_x().unwrap(), wrap.computed_y().unwrap()),
        Size::new(wrap.computed_width().unwrap(), wrap.computed_height().unwrap()),
    );
    assert(inside == inside_area(wrap@));
    let inside = match inside.intersection(&screen_rect) {
        Some(r) => r,
        None => return,
    };
    let has_border = wrap.has_border();
    let border = if has_border {
        let b = Rect::new(
            Pos::new(wrap.border_x().unwrap(), wrap.border_y().unwrap()),
            Size::new(wrap.border_width().unwrap(), wrap.border_height().unwrap()),
        );
        assert(b == border_area(wrap@));
        match b.intersection(&screen_rect) {
            Some(r) => Some(r),
            None => return,
        }
    } else {
        None
    };
    let ghost spec_border: Option<Rect> = if wrap@.has_border {
        Some(border_area(wrap@).meet(screen_area(*size)))
    } else {
        None
    };
    assert(border == spec_border);
    proof {
        screen.lemma_cells();
    }
    let width = size.width;
    let n = size.width * size.height;
    let mut i: usize = 0;
    while i < n
        invariant
            screen.wf(),
            screen.size() == *size,
            width == size.width,
            n == size.width * size.height,
            n == old(screen).cells().len(),
            screen.cells().len() == n,
            i <= n,
            outside == outside_area(wrap@).meet(screen_area(*size)),
            inside == inside_area(wrap@).meet(screen_area(*size)),
            border == spec_border,
            outside.fits(),
            inside.fits(),
            border matches Some(b) ==> b.fits() && b.size.width > 0 && b.size.height > 0,
            forall|j: int|
                0 <= j < i ==> boxed_cell(
                    #[trigger] old(screen).cells()[j],
                    screen.cells()[j],
                    index_pos(j, size.width as int),
                    outside,
                    inside,
                    border,
                ),
            forall|j: int| i <= j < n ==> #[trigger] screen.cells()[j] == old(screen).cells()[j],
        decreases n - i,
    {
        assert(width > 0) by (nonlinear_arith)
            requires
                i < n,
                n == width * size.height,
        ;
        let pos = Pos::new(i % width, i / width);
        proof {
            assert(i / width < size.height) by (nonlinear_arith)
                requires
                    i < n,
                    n == width * size.height,
            ;
            lemma_cell_index(pos.x as int, pos.y as int, width as int, size.height as int);
            assert(pos.y * width + pos.x == i) by (nonlinear_arith)
                requires
                    pos.x == i % width,
                    pos.y == i / width,
                    width > 0,
            ;
        }
        let old_cell = screen.index(pos);
        let clear = outside.contains(&pos) && !inside.contains(&pos);
        let glyph = match &border {
            Some(b) => border_glyph_at(b, &pos),
            None => None,
        };
        let chars = match glyph {
            Some(g) => g,
            None => if clear {
                Vec::new()
            } else {
                old_cell.chars.clone()
            },
        };
        let new_cell = if clear {
            Cell {
                bg_palette: 0,
                bg_rgb: ColorRGB { red: 5, green: 5, blue: 5 },
                blink: false,
                bold: false,
                chars: chars,
                dhl: 0,
                dirty: true,
                dwl: false,
                fg_palette: 7,
                fg_rgb: ColorRGB { red: 230, green: 230, blue: 230 },
                font: 0,
                italic: false,
                pos: old_cell.pos,
                reverse: false,
                strike: false,
                underline: 0,
                width: 0,
            }
        } else {
            Cell {
                bg_palette: old_cell.bg_palette,
                bg_rgb: old_cell.bg_rgb,
                blink: old_cell.blink,
                bold: old_cell.bold,
                chars: chars,
                dhl: old_cell.dhl,
                dirty: old_cell.dirty,
                dwl: old_cell.dwl,
                fg_palette: old_cell.fg_palette,
                fg_rgb: old_cell.fg_rgb,
                font: old_cell.font,
                italic: old_cell.italic,
                pos: old_cell.pos,
                reverse: old_cell.reverse,
                strike: old_cell.strike,
                underline: old_cell.underline,
                width: old_cell.width,
            }
        };
        assert(index_pos(i as int, size.width as int) == pos);
        screen.set_cell(pos, new_cell);
        i = i + 1;
    }
}

} // verus!
