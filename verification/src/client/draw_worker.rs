use vstd::prelude::*;

use crate::geom::{Pos, ScreenSize};
use super::layout::wrap::{Wrap, WrapView};
use super::node_box::{
    bottom_left_glyph, bottom_right_glyph, horizontal_glyph, top_left_glyph, top_right_glyph,
    vertical_glyph,
};

verus! {

/// The bytes of a space.
pub open spec fn space_glyph() -> Seq<u8> {
    seq![0x20u8]
}

/// A count that is never below zero.
pub open spec fn count(n: int) -> nat {
    if n > 0 {
        n as nat
    } else {
        0
    }
}

/// The draws as positions and glyph bytes.
pub open spec fn draws_view(v: Seq<(Pos, Vec<u8>)>) -> Seq<(Pos, Seq<u8>)> {
    v.map_values(|d: (Pos, Vec<u8>)| (d.0, d.1@))
}

/// The glyph `g` on rows `top` and `bottom` of the `n` columns from `x0` on: column after
/// column, the top cell first.
pub open spec fn row_pair_draws(x0: int, n: int, top: int, bottom: int, g: Seq<u8>) -> Seq<(Pos, Seq<u8>)> {
    Seq::new(
        2 * count(n),
        |k: int|
            (Pos { x: (x0 + k / 2) as usize, y: (if k % 2 == 0 { top } else { bottom }) as usize }, g),
    )
}

/// The glyph `g` on columns `left` and `right` of the `n` rows from `y0` on: row after row, the
/// left cell first.
pub open spec fn column_pair_draws(y0: int, n: int, left: int, right: int, g: Seq<u8>) -> Seq<(Pos, Seq<u8>)> {
    Seq::new(
        2 * count(n),
        |k: int|
            (Pos { x: (if k % 2 == 0 { left } else { right }) as usize, y: (y0 + k / 2) as usize }, g),
    )
}

/// The edges (top, bottom, left, right), inclusive, of the ring a wrap's box is painted on: one
/// cell outside its padding, which for a bordered wrap is its border; cut to the screen, that is
/// moved to the first row or column when it starts before it and to the last when it ends after
/// it. `None` when the wrap's area is not computed.
pub open spec fn box_edges(w: WrapView, size: ScreenSize) -> Option<(int, int, int, int)> {
    match (w.computed_x, w.computed_y, w.computed_width, w.computed_height) {
        (Some(x), Some(y), Some(cw), Some(ch)) => {
            let e = w.padding + 1;
            let top = if y - e < 0 { 0 } else { y - e };
            let bottom = if y + ch + e - 1 >= size.rows { size.rows - 1 } else { y + ch + e - 1 };
            let left = if x - e < 0 { 0 } else { x - e };
            let right = if x + cw + e - 1 >= size.cols { size.cols - 1 } else { x + cw + e - 1 };
            Some((top, bottom, left, right))
        },
        _ => None,
    }
}

/// What painting a wrap's box draws, in order. A bordered wrap gets its four corners, then the
/// top and bottom edges between them, then the left and right edges between them. A wrap with a
/// margin and no border gets spaces on its ring: the top and bottom rows, then the left and
/// right columns between them. Others get nothing. `None` when the wrap's area is not computed
/// or the screen has no cell.
pub open spec fn box_draws(w: WrapView, size: ScreenSize) -> Option<Seq<(Pos, Seq<u8>)>> {
    if !w.has_border && w.margin == 0 {
        Some(Seq::empty())
    } else if size.rows == 0 || size.cols == 0 {
        None
    } else {
        match box_edges(w, size) {
            Some((top, bottom, left, right)) => if w.has_border {
                Some(
                    seq![
                        (Pos { x: left as usize, y: top as usize }, top_left_glyph()),
                        (Pos { x: right as usize, y: top as usize }, top_right_glyph()),
                        (Pos { x: left as usize, y: bottom as usize }, bottom_left_glyph()),
                        (Pos { x: right as usize, y: bottom as usize }, bottom_right_glyph()),
                    ] + row_pair_draws(left + 1, right - left - 1, top, bottom, horizontal_glyph())
                        + column_pair_draws(top + 1, bottom - top - 1, left, right, vertical_glyph()),
                )
            } else {
                Some(
                    row_pair_draws(left, right - left + 1, top, bottom, space_glyph())
                        + column_pair_draws(top + 1, bottom - top - 1, left, right, space_glyph()),
                )
            },
            None => None,
        }
    }
}

/// A box drawing character: the three bytes `e2 94 c`.
fn box_char(c: u8) -> (r: Vec<u8>)
    ensures
        r@ == seq![0xe2u8, 0x94u8, c],
{
    let r = vec![0xe2u8, 0x94u8, c];
    assert(r@ =~= seq![0xe2u8, 0x94u8, c]);
    r
}

/// Appends the glyph on rows `top` and `bottom` of the columns `from..to`, as `row_pair_draws`.
fn push_row_pairs(v: &mut Vec<(Pos, Vec<u8>)>, from: usize, to: usize, top: usize, bottom: usize, g: &Vec<u8>)
    ensures
        draws_view(final(v)@) == draws_view(old(v)@) + row_pair_draws(
            from as int,
            to - from,
            top as int,
            bottom as int,
            g@,
        ),
{
    let ghost start = draws_view(v@);
    let mut x = from;
    while x < to
        invariant
            x == from || from < x <= to,
            draws_view(v@) == start + row_pair_draws(from as int, x - from, top as int, bottom as int, g@),
        decreases to - x,
    {
        let ghost before = draws_view(v@);
        v.push((Pos::new(x, top), g.clone()));
        v.push((Pos::new(x, bottom), g.clone()));
        proof {
            let n = x - from;
            assert(count(n + 1) == count(n) + 1);
            assert(draws_view(v@) =~= before.push((Pos { x: x, y: top }, g@)).push((Pos { x: x, y: bottom }, g@)));
            assert(row_pair_draws(from as int, n + 1, top as int, bottom as int, g@) =~= row_pair_draws(
                from as int,
                n,
                top as int,
                bottom as int,
                g@,
            ).push((Pos { x: x, y: top }, g@)).push((Pos { x: x, y: bottom }, g@)));
        }
        x = x + 1;
    }
    proof {
        if to <= from {
            assert(row_pair_draws(from as int, to - from, top as int, bottom as int, g@) =~= Seq::empty());
            assert(draws_view(v@) =~= start);
        }
    }
}

/// Appends the glyph on columns `left` and `right` of the rows `from..to`, as
/// `column_pair_draws`.
fn push_column_pairs(v: &mut Vec<(Pos, Vec<u8>)>, from: usize, to: usize, left: usize, right: usize, g: &Vec<u8>)
    ensures
        draws_view(final(v)@) == draws_view(old(v)@) + column_pair_draws(
            from as int,
            to - from,
            left as int,
            right as int,
            g@,
        ),
{
    let ghost start = draws_view(v@);
    let mut y = from;
    while y < to
        invariant
            y == from || from < y <= to,
            draws_view(v@) == start + column_pair_draws(from as int, y - from, left as int, right as int, g@),
        decreases to - y,
    {
        let ghost before = draws_view(v@);
        v.push((Pos::new(left, y), g.clone()));
        v.push((Pos::new(right, y), g.clone()));
        proof {
            let n = y - from;
            assert(count(n + 1) == count(n) + 1);
            assert(draws_view(v@) =~= before.push((Pos { x: left, y: y }, g@)).push((Pos { x: right, y: y }, g@)));
            assert(column_pair_draws(from as int, n + 1, left as int, right as int, g@) =~= column_pair_draws(
                from as int,
                n,
                left as int,
                right as int,
                g@,
            ).push((Pos { x: left, y: y }, g@)).push((Pos { x: right, y: y }, g@)));
        }
        y = y + 1;
    }
    proof {
        if to <= from {
            assert(column_pair_draws(from as int, to - from, left as int, right as int, g@) =~= Seq::empty());
            assert(draws_view(v@) =~= start);
        }
    }
}

/// The cells that painting a wrap's box draws, in order: see `box_draws`.
#[verifier::rlimit(40)]
pub fn draw_border_for_node(wrap: &Wrap, size: &ScreenSize) -> (r: Option<Vec<(Pos, Vec<u8>)>>)
    ensures
        match r {
            Some(v) => box_draws(wrap@, *size) == Some(draws_view(v@)),
            None => box_draws(wrap@, *size) is None,
        },
{
    let has_border = wrap.has_border();
    if !has_border && wrap.margin() == 0 {
        let v: Vec<(Pos, Vec<u8>)> = Vec::new();
        assert(draws_view(v@) =~= Seq::empty());
        return Some(v);
    }
    if size.rows == 0 || size.cols == 0 {
        return None;
    }
    let (x, y, cw, ch) = match (wrap.computed_x(), wrap.computed_y(), wrap.computed_width(), wrap.computed_height()) {
        (Some(x), Some(y), Some(cw), Some(ch)) => (x, y, cw, ch),
        _ => return None,
    };
    let e: u128 = wrap.padding() as u128 + 1;
    let top: usize = if (y as u128) < e {
        0
    } else {
        (y as u128 - e) as usize
    };
    let bottom: usize = if y as u128 + ch as u128 + e - 1 >= size.rows as u128 {
        size.rows - 1
    } else {
        (y as u128 + ch as u128 + e - 1) as usize
    };
    let left: usize = if (x as u128) < e {
        0
    } else {
        (x as u128 - e) as usize
    };
    let right: usize = if x as u128 + cw as u128 + e - 1 >= size.cols as u128 {
        size.cols - 1
    } else {
        (x as u128 + cw as u128 + e - 1) as usize
    };
    assert(box_edges(wrap@, *size) == Some((top as int, bottom as int, left as int, right as int)));
    let mut v: Vec<(Pos, Vec<u8>)> = Vec::new();
    if has_border {
        v.push((Pos::new(left, top), box_char(0x8c)));
        v.push((Pos::new(right, top), box_char(0x90)));
        v.push((Pos::new(left, bottom), box_char(0x94)));
        v.push((Pos::new(right, bottom), box_char(0x98)));
        assert(draws_view(v@) =~= seq![
            (Pos { x: left, y: top }, top_left_glyph()),
            (Pos { x: right, y: top }, top_right_glyph()),
            (Pos { x: left, y: bottom }, bottom_left_glyph()),
            (Pos { x: right, y: bottom }, bottom_right_glyph()),
        ]);
        let horizontal = box_char(0x80);
        let vertical = box_char(0x82);
        assert(horizontal@ =~= horizontal_glyph());
        assert(vertical@ =~= vertical_glyph());
        push_row_pairs(&mut v, left + 1, right, top, bottom, &horizontal);
        push_column_pairs(&mut v, top + 1, bottom, left, right, &vertical);
    } else {
        let space = vec![0x20u8];
        assert(space@ =~= space_glyph());
        push_row_pairs(&mut v, left, right + 1, top, bottom, &space);
        push_column_pairs(&mut v, top + 1, bottom, left, right, &space);
    }
    Some(v)
}

/// The draw is on the edge of the ring from `(left, top)` to `(right, bottom)`, between its
/// corners: a horizontal line on the top or bottom row, or a vertical line on the left or right
/// column.
pub open spec fn on_ring_edge(d: (Pos, Seq<u8>), left: int, top: int, right: int, bottom: int) -> bool {
    ||| (d.0.y == top || d.0.y == bottom) && left < d.0.x < right && d.1 == horizontal_glyph()
    ||| (d.0.x == left || d.0.x == right) && top < d.0.y < bottom && d.1 == vertical_glyph()
}

/// The glyph `g` is drawn at `(x, y)`.
pub open spec fn drawn_at(d: Seq<(Pos, Seq<u8>)>, x: int, y: int, g: Seq<u8>) -> bool {
    d.contains((Pos { x: x as usize, y: y as usize }, g))
}

/// Besides its four corners, a bordered wrap whose border lies on the screen gets exactly the
/// edges of its border: every cell between the corners on the border's top and bottom rows gets
/// a horizontal line, every cell between them on its left and right columns a vertical line, and
/// nothing else is drawn.
pub proof fn lemma_border_edges(w: WrapView, size: ScreenSize)
    requires
        w.has_border,
        w.computed_x is Some,
        w.computed_y is Some,
        w.computed_width is Some,
        w.computed_height is Some,
        w.computed_x.unwrap() >= w.padding + 1,
        w.computed_y.unwrap() >= w.padding + 1,
        w.computed_x.unwrap() + w.computed_width.unwrap() + w.padding < size.cols,
        w.computed_y.unwrap() + w.computed_height.unwrap() + w.padding < size.rows,
    ensures
        ({
            let (x, y, cw, ch, p) = (
                w.computed_x.unwrap() as int,
                w.computed_y.unwrap() as int,
                w.computed_width.unwrap() as int,
                w.computed_height.unwrap() as int,
                w.padding as int,
            );
            let (left, top, right, bottom) = (x - p - 1, y - p - 1, x + cw + p, y + ch + p);
            &&& box_draws(w, size) matches Some(d)
            &&& d.len() == 4 + 2 * (right - left - 1) + 2 * (bottom - top - 1)
            &&& forall|k: int| 4 <= k < d.len() ==> on_ring_edge(#[trigger] d[k], left, top, right, bottom)
            &&& forall|c: int| #![trigger drawn_at(d, c, top, horizontal_glyph())]
                left < c < right ==> drawn_at(d, c, top, horizontal_glyph()) && drawn_at(d, c, bottom, horizontal_glyph())
            &&& forall|r: int| #![trigger drawn_at(d, left, r, vertical_glyph())]
                top < r < bottom ==> drawn_at(d, left, r, vertical_glyph()) && drawn_at(d, right, r, vertical_glyph())
        }),
{
    let d = box_draws(w, size).unwrap();
    let (top, bottom, left, right) = box_edges(w, size).unwrap();
    let corners = seq![
        (Pos { x: left as usize, y: top as usize }, top_left_glyph()),
        (Pos { x: right as usize, y: top as usize }, top_right_glyph()),
        (Pos { x: left as usize, y: bottom as usize }, bottom_left_glyph()),
        (Pos { x: right as usize, y: bottom as usize }, bottom_right_glyph()),
    ];
    let rows = row_pair_draws(left + 1, right - left - 1, top, bottom, horizontal_glyph());
    let cols = column_pair_draws(top + 1, bottom - top - 1, left, right, vertical_glyph());
    let nr = 2 * (right - left - 1);
    let nc = 2 * (bottom - top - 1);
    assert(d == corners + rows + cols);
    assert(rows.len() == nr);
    assert(cols.len() == nc);
    assert forall|k: int| 4 <= k < d.len() implies on_ring_edge(#[trigger] d[k], left, top, right, bottom) by {
        if k < 4 + nr {
            assert(d[k] == rows[k - 4]);
            let j = k - 4;
            assert(0 <= j / 2 < right - left - 1) by (nonlinear_arith)
                requires
                    0 <= j < 2 * (right - left - 1),
            ;
        } else {
            assert(d[k] == cols[k - 4 - nr]);
            let j = k - 4 - nr;
            assert(0 <= j / 2 < bottom - top - 1) by (nonlinear_arith)
                requires
                    0 <= j < 2 * (bottom - top - 1),
            ;
        }
    }
    assert forall|c: int| left < c < right implies drawn_at(d, c, top, horizontal_glyph()) && drawn_at(
        d,
        c,
        bottom,
        horizontal_glyph(),
    ) by {
        let j = 2 * (c - left - 1);
        assert(j / 2 == c - left - 1 && (j + 1) / 2 == c - left - 1 && j % 2 == 0 && (j + 1) % 2 == 1);
        assert(d[4 + j] == rows[j]);
        assert(d[4 + j + 1] == rows[j + 1]);
    }
    assert forall|r: int| top < r < bottom implies drawn_at(d, left, r, vertical_glyph()) && drawn_at(
        d,
        right,
        r,
        vertical_glyph(),
    ) by {
        let j = 2 * (r - top - 1);
        assert(j / 2 == r - top - 1 && (j + 1) / 2 == r - top - 1 && j % 2 == 0 && (j + 1) % 2 == 1);
        assert(d[4 + nr + j] == cols[j]);
        assert(d[4 + nr + j + 1] == cols[j + 1]);
    }
}

/// A bordered wrap whose border lies on the screen gets its corners at the corners of its
/// border: one cell outside its padding on every side. The top-left corner is at
/// `(x - padding - 1, y - padding - 1)` and the bottom-right one at
/// `(x + width + padding, y + height + padding)`, for the wrap's computed area at `(x, y)`.
pub proof fn lemma_border_corners(w: WrapView, size: ScreenSize)
    requires
        w.has_border,
        w.computed_x is Some,
        w.computed_y is Some,
        w.computed_width is Some,
        w.computed_height is Some,
        w.computed_x.unwrap() >= w.padding + 1,
        w.computed_y.unwrap() >= w.padding + 1,
        w.computed_x.unwrap() + w.computed_width.unwrap() + w.padding < size.cols,
        w.computed_y.unwrap() + w.computed_height.unwrap() + w.padding < size.rows,
    ensures
        ({
            let (x, y, cw, ch, p) = (
                w.computed_x.unwrap() as int,
                w.computed_y.unwrap() as int,
                w.computed_width.unwrap() as int,
                w.computed_height.unwrap() as int,
                w.padding as int,
            );
            let left = (x - p - 1) as usize;
            let top = (y - p - 1) as usize;
            let right = (x + cw + p) as usize;
            let bottom = (y + ch + p) as usize;
            &&& box_draws(w, size) matches Some(d)
            &&& d.len() >= 4
            &&& d[0] == (Pos { x: left, y: top }, top_left_glyph())
            &&& d[1] == (Pos { x: right, y: top }, top_right_glyph())
            &&& d[2] == (Pos { x: left, y: bottom }, bottom_left_glyph())
            &&& d[3] == (Pos { x: right, y: bottom }, bottom_right_glyph())
        }),
{
    let d = box_draws(w, size).unwrap();
    let (top, bottom, left, right) = box_edges(w, size).unwrap();
    let corners = seq![
        (Pos { x: left as usize, y: top as usize }, top_left_glyph()),
        (Pos { x: right as usize, y: top as usize }, top_right_glyph()),
        (Pos { x: left as usize, y: bottom as usize }, bottom_left_glyph()),
        (Pos { x: right as usize, y: bottom as usize }, bottom_right_glyph()),
    ];
    let rest = row_pair_draws(left + 1, right - left - 1, top, bottom, horizontal_glyph())
        + column_pair_draws(top + 1, bottom - top - 1, left, right, vertical_glyph());
    assert(d == corners + rest);
    assert((corners + rest)[0] == corners[0]);
    assert((corners + rest)[1] == corners[1]);
    assert((corners + rest)[2] == corners[2]);
    assert((corners + rest)[3] == corners[3]);
}

} // verus!
