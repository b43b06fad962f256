use vstd::prelude::*;

use crate::geom::Size;
use super::layout::{lemma_lines_of, lines_of, LayoutView};
use super::passes::{
    flushed, grid_fitted, grid_from, grid_node, grid_run, height_from, height_lines_from, height_node,
    height_set_from, root_fitted, width_from, width_lines_from, width_node, width_set_from, x_from,
    x_line_start, x_lines_from, x_node, x_set_from, y_from, y_lines_from, y_node, y_set_from,
    heights_known, lines_height_to, line_max_from,
};
use super::VerticalAlign;
use super::wrap::WrapView;

verus! {

/// Two wraps have the same settings: everything but the computed values.
pub open spec fn same_settings(a: WrapView, b: WrapView) -> bool {
    &&& a.align == b.align
    &&& a.grid_width == b.grid_width
    &&& a.has_border == b.has_border
    &&& a.height == b.height
    &&& a.margin == b.margin
    &&& a.name == b.name
    &&& a.padding == b.padding
    &&& a.vertical_align == b.vertical_align
    &&& a.width == b.width
}

/// `b` is `a` with computed values changed at positions in `touched` only.
pub open spec fn changed_within(a: Seq<WrapView>, b: Seq<WrapView>, touched: Seq<usize>) -> bool {
    &&& a.len() == b.len()
    &&& forall|i: int|
        #![trigger b[i]]
        0 <= i < a.len() ==> same_settings(a[i], b[i]) && (!touched.contains(i as usize) ==> b[i] == a[i])
}

/// Every wrap of `cur` has the settings it has in `w`.
pub open spec fn settings_of(cur: Seq<WrapView>, w: Seq<WrapView>) -> bool {
    &&& cur.len() == w.len()
    &&& forall|i: int| #![trigger cur[i]] 0 <= i < cur.len() ==> same_settings(cur[i], w[i])
}

/// Every position in `line` is a wrap of `w`, and one of `within`.
pub open spec fn line_within(line: Seq<usize>, w: Seq<WrapView>, within: Seq<usize>) -> bool {
    forall|k: int| 0 <= k < line.len() ==> (#[trigger] line[k]) < w.len() && within.contains(line[k])
}

proof fn lemma_changed_trans(a: Seq<WrapView>, b: Seq<WrapView>, c: Seq<WrapView>, t: Seq<usize>)
    requires
        changed_within(a, b, t),
        changed_within(b, c, t),
    ensures
        changed_within(a, c, t),
{
    assert forall|i: int| #![trigger c[i]] 0 <= i < a.len() implies same_settings(a[i], c[i]) && (!t.contains(
        i as usize,
    ) ==> c[i] == a[i]) by {
        assert(same_settings(a[i], b[i]));
    }
}

proof fn lemma_changed_one(a: Seq<WrapView>, c: int, v: WrapView, t: Seq<usize>)
    requires
        0 <= c < a.len(),
        t.contains(c as usize),
        same_settings(a[c], v),
    ensures
        changed_within(a, a.update(c, v), t),
{
}

proof fn lemma_grid_run_frame(w: Seq<WrapView>, cs: Seq<usize>, j: int, cols: int, pgw: int)
    requires
        line_within(cs, w, cs),
    ensures
        changed_within(w, grid_run(w, cs, j, cols, pgw), cs),
    decreases cs.len() - j,
{
    if 0 <= j < cs.len() {
        let c = cs[j] as int;
        let (cw, next) = grid_fitted(w[c], cols, pgw);
        let w2 = w.update(c, cw);
        assert(cs.contains(cs[j]));
        lemma_changed_one(w, c, cw, cs);
        lemma_grid_run_frame(w2, cs, j + 1, next, pgw);
        lemma_changed_trans(w, w2, grid_run(w2, cs, j + 1, next, pgw), cs);
    } else {
        assert(changed_within(w, w, cs));
    }
}

proof fn lemma_width_set_frame(cur: Seq<WrapView>, line: Seq<usize>, w: Seq<WrapView>, width: int, k: int, t: Seq<usize>)
    requires
        settings_of(cur, w),
        line_within(line, w, t),
    ensures
        changed_within(cur, width_set_from(cur, line, w, width, k), t),
        settings_of(width_set_from(cur, line, w, width, k), w),
    decreases line.len() - k,
{
    if 0 <= k < line.len() {
        let c = line[k] as int;
        let v = super::passes::line_width_of(width, line, w, k);
        let nv = WrapView { computed_width: Some((v - 2 * w[c].outside_extent()) as usize), ..w[c] };
        let cur2 = cur.update(c, nv);
        assert(same_settings(cur[c], w[c]));
        lemma_changed_one(cur, c, nv, t);
        lemma_width_set_frame(cur2, line, w, width, k + 1, t);
        lemma_changed_trans(cur, cur2, width_set_from(cur2, line, w, width, k + 1), t);
    } else {
        assert(changed_within(cur, cur, t));
    }
}

proof fn lemma_width_lines_frame(cur: Seq<WrapView>, ls: Seq<Seq<usize>>, i: int, w: Seq<WrapView>, width: int, t: Seq<usize>)
    requires
        settings_of(cur, w),
        forall|a: int| 0 <= a < ls.len() ==> line_within(#[trigger] ls[a], w, t),
    ensures
        width_lines_from(cur, ls, i, w, width) matches Some(r) ==> changed_within(cur, r, t),
    decreases ls.len() - i,
{
    if 0 <= i < ls.len() {
        if forall|k: int| 0 <= k < ls[i].len() ==> #[trigger] super::passes::width_fits(width, ls[i], w, k) {
            let next = width_set_from(cur, ls[i], w, width, 0);
            lemma_width_set_frame(cur, ls[i], w, width, 0, t);
            lemma_width_lines_frame(next, ls, i + 1, w, width, t);
            if let Some(r) = width_lines_from(next, ls, i + 1, w, width) {
                lemma_changed_trans(cur, next, r, t);
            }
        }
    } else {
        assert(changed_within(cur, cur, t));
    }
}

proof fn lemma_x_set_frame(cur: Seq<WrapView>, line: Seq<usize>, w: Seq<WrapView>, k: int, x: int, t: Seq<usize>)
    requires
        settings_of(cur, w),
        line_within(line, w, t),
    ensures
        x_set_from(cur, line, w, k, x) matches Some(r) ==> changed_within(cur, r, t) && settings_of(r, w),
    decreases line.len() - k,
{
    if 0 <= k < line.len() {
        let c = line[k] as int;
        let e = w[c].outside_extent();
        if w[c].computed_width is Some && x + super::passes::outside_w(w[c]) <= usize::MAX && x + e <= usize::MAX {
            let nv = WrapView { computed_x: Some((x + e) as usize), ..w[c] };
            let cur2 = cur.update(c, nv);
            assert(same_settings(cur[c], w[c]));
            lemma_changed_one(cur, c, nv, t);
            lemma_x_set_frame(cur2, line, w, k + 1, x + super::passes::outside_w(w[c]), t);
            if let Some(r) = x_set_from(cur2, line, w, k + 1, x + super::passes::outside_w(w[c])) {
                lemma_changed_trans(cur, cur2, r, t);
            }
        }
    } else {
        assert(changed_within(cur, cur, t));
    }
}

proof fn lemma_x_lines_frame(
    cur: Seq<WrapView>,
    ls: Seq<Seq<usize>>,
    i: int,
    w: Seq<WrapView>,
    x: int,
    width: int,
    align: super::Align,
    t: Seq<usize>,
)
    requires
        settings_of(cur, w),
        forall|a: int| 0 <= a < ls.len() ==> line_within(#[trigger] ls[a], w, t),
    ensures
        x_lines_from(cur, ls, i, w, x, width, align) matches Some(r) ==> changed_within(cur, r, t),
    decreases ls.len() - i,
{
    if 0 <= i < ls.len() {
        let start = x_line_start(x, width, align, ls[i], w);
        lemma_x_set_frame(cur, ls[i], w, 0, start, t);
        if let Some(next) = x_set_from(cur, ls[i], w, 0, start) {
            lemma_x_lines_frame(next, ls, i + 1, w, x, width, align, t);
            if let Some(r) = x_lines_from(next, ls, i + 1, w, x, width, align) {
                lemma_changed_trans(cur, next, r, t);
            }
        }
    } else {
        assert(changed_within(cur, cur, t));
    }
}

proof fn lemma_height_set_frame(cur: Seq<WrapView>, line: Seq<usize>, w: Seq<WrapView>, k: int, lh: int, t: Seq<usize>)
    requires
        settings_of(cur, w),
        line_within(line, w, t),
    ensures
        height_set_from(cur, line, w, k, lh) matches Some(r) ==> changed_within(cur, r, t) && settings_of(r, w),
    decreases line.len() - k,
{
    if 0 <= k < line.len() {
        let c = line[k] as int;
        let v = match w[c].height {
            Some(asked) => super::passes::min_int(asked as int, lh),
            None => lh,
        };
        if 2 * w[c].outside_extent() <= v {
            let nv = WrapView { computed_height: Some((v - 2 * w[c].outside_extent()) as usize), ..w[c] };
            let cur2 = cur.update(c, nv);
            assert(same_settings(cur[c], w[c]));
            lemma_changed_one(cur, c, nv, t);
            lemma_height_set_frame(cur2, line, w, k + 1, lh, t);
            if let Some(r) = height_set_from(cur2, line, w, k + 1, lh) {
                lemma_changed_trans(cur, cur2, r, t);
            }
        }
    } else {
        assert(changed_within(cur, cur, t));
    }
}

proof fn lemma_height_lines_frame(cur: Seq<WrapView>, ls: Seq<Seq<usize>>, i: int, w: Seq<WrapView>, h: int, t: Seq<usize>)
    requires
        settings_of(cur, w),
        forall|a: int| 0 <= a < ls.len() ==> line_within(#[trigger] ls[a], w, t),
    ensures
        height_lines_from(cur, ls, i, w, h) matches Some(r) ==> changed_within(cur, r, t),
    decreases ls.len() - i,
{
    if 0 <= i < ls.len() {
        let lh = super::passes::shared_height(super::passes::line_heights(ls, w), h, i);
        if lh >= 0 {
            lemma_height_set_frame(cur, ls[i], w, 0, lh, t);
            if let Some(next) = height_set_from(cur, ls[i], w, 0, lh) {
                lemma_height_lines_frame(next, ls, i + 1, w, h, t);
                if let Some(r) = height_lines_from(next, ls, i + 1, w, h) {
                    lemma_changed_trans(cur, next, r, t);
                }
            }
        }
    } else {
        assert(changed_within(cur, cur, t));
    }
}

proof fn lemma_y_set_frame(cur: Seq<WrapView>, line: Seq<usize>, w: Seq<WrapView>, k: int, y: int, t: Seq<usize>)
    requires
        settings_of(cur, w),
        line_within(line, w, t),
    ensures
        y_set_from(cur, line, w, k, y) matches Some(r) ==> changed_within(cur, r, t) && settings_of(r, w),
    decreases line.len() - k,
{
    if 0 <= k < line.len() {
        let c = line[k] as int;
        let e = w[c].outside_extent();
        if y + e <= usize::MAX {
            let nv = WrapView { computed_y: Some((y + e) as usize), ..w[c] };
            let cur2 = cur.update(c, nv);
            assert(same_settings(cur[c], w[c]));
            lemma_changed_one(cur, c, nv, t);
            lemma_y_set_frame(cur2, line, w, k + 1, y, t);
            if let Some(r) = y_set_from(cur2, line, w, k + 1, y) {
                lemma_changed_trans(cur, cur2, r, t);
            }
        }
    } else {
        assert(changed_within(cur, cur, t));
    }
}

proof fn lemma_y_lines_frame(cur: Seq<WrapView>, ls: Seq<Seq<usize>>, i: int, w: Seq<WrapView>, y: int, t: Seq<usize>)
    requires
        settings_of(cur, w),
        forall|a: int| 0 <= a < ls.len() ==> line_within(#[trigger] ls[a], w, t),
    ensures
        y_lines_from(cur, ls, i, w, y) matches Some(r) ==> changed_within(cur, r, t),
    decreases ls.len() - i,
{
    if 0 <= i < ls.len() {
        lemma_y_set_frame(cur, ls[i], w, 0, y, t);
        if let Some(next) = y_set_from(cur, ls[i], w, 0, y) {
            let below = y + super::passes::line_max_from(ls[i], w, 0);
            if below <= usize::MAX {
                lemma_y_lines_frame(next, ls, i + 1, w, below, t);
                if let Some(r) = y_lines_from(next, ls, i + 1, w, below) {
                    lemma_changed_trans(cur, next, r, t);
                }
            }
        }
    } else {
        assert(changed_within(cur, cur, t));
    }
}

/// Each line of the children `cs` lies within `cs`.
proof fn lemma_lines_within(cs: Seq<usize>, w: Seq<WrapView>)
    requires
        forall|k: int| 0 <= k < cs.len() ==> (#[trigger] cs[k]) < w.len(),
    ensures
        forall|a: int| 0 <= a < lines_of(cs, w).len() ==> line_within(#[trigger] lines_of(cs, w)[a], w, cs),
{
    lemma_lines_of(cs, w);
    let ls = lines_of(cs, w);
    assert forall|a: int| 0 <= a < ls.len() implies line_within(#[trigger] ls[a], w, cs) by {
        assert forall|k: int| 0 <= k < ls[a].len() implies (#[trigger] ls[a][k]) < w.len() && cs.contains(ls[a][k]) by {
            assert(cs.contains(ls[a][k]));
            let j = choose|j: int| 0 <= j < cs.len() && cs[j] == ls[a][k];
            assert(cs[j] < w.len());
        }
    }
}

/// A visit of node `p`, in any pass, changes computed values of `p`'s children only.
proof fn lemma_node_frame(w: Seq<WrapView>, p: int, cs: Seq<usize>)
    requires
        0 <= p < w.len(),
        forall|k: int| 0 <= k < cs.len() ==> (#[trigger] cs[k]) < w.len(),
    ensures
        grid_node(w, p, cs) matches Some(r) ==> changed_within(w, r, cs),
        width_node(w, p, cs) matches Some(r) ==> changed_within(w, r, cs),
        x_node(w, p, cs) matches Some(r) ==> changed_within(w, r, cs),
        height_node(w, p, cs) matches Some(r) ==> changed_within(w, r, cs),
        y_node(w, p, cs) matches Some(r) ==> changed_within(w, r, cs),
{
    let ls = lines_of(cs, w);
    lemma_lines_within(cs, w);
    assert(settings_of(w, w));
    assert(line_within(cs, w, cs)) by {
        assert forall|k: int| 0 <= k < cs.len() implies (#[trigger] cs[k]) < w.len() && cs.contains(cs[k]) by {
            assert(cs.contains(cs[k]));
        }
    }
    if let Some(pgw) = w[p].computed_grid_width {
        lemma_grid_run_frame(w, cs, 0, 0, pgw as int);
    }
    if let Some(width) = w[p].computed_width {
        lemma_width_lines_frame(w, ls, 0, w, width as int, cs);
        if let Some(x) = w[p].computed_x {
            lemma_x_lines_frame(w, ls, 0, w, x as int, width as int, w[p].align, cs);
        }
    }
    if let Some(h) = w[p].computed_height {
        lemma_height_lines_frame(w, ls, 0, w, h as int, cs);
        if let Some(y) = w[p].computed_y {
            let used = super::passes::lines_height_to(ls, w, ls.len() as int);
            let start = y + super::passes::vertical_offset(
                w[p].vertical_align,
                if h > used { h - used } else { 0 },
            );
            lemma_y_lines_frame(w, ls, 0, w, start, cs);
        }
    }
    if ls.len() == 0 {
        assert(changed_within(w, w, cs));
    }
}

/// The children of every node come after it, so no visit changes the root.
pub open spec fn children_after(ch: Seq<Seq<usize>>, n: int) -> bool {
    &&& ch.len() == n
    &&& forall|q: int, k: int| 0 <= q < ch.len() && 0 <= k < ch[q].len() ==> q < #[trigger] ch[q][k] < n
}

/// The root is never changed, and no wrap's settings are.
pub open spec fn root_and_settings_kept(w: Seq<WrapView>, r: Seq<WrapView>) -> bool {
    &&& r.len() == w.len()
    &&& r[0] == w[0]
    &&& forall|i: int| #![trigger r[i]] 0 <= i < w.len() ==> same_settings(w[i], r[i])
}

proof fn lemma_child_not_root(ch: Seq<Seq<usize>>, n: int, p: int)
    requires
        children_after(ch, n),
        0 <= p < ch.len(),
    ensures
        !ch[p].contains(0usize),
        forall|k: int| 0 <= k < ch[p].len() ==> (#[trigger] ch[p][k]) < n,
{
    if ch[p].contains(0usize) {
        let k = choose|k: int| 0 <= k < ch[p].len() && ch[p][k] == 0usize;
        assert(p < ch[p][k]);
    }
}

proof fn lemma_passes_keep_root(w: Seq<WrapView>, ch: Seq<Seq<usize>>, p: int)
    requires
        w.len() > 0,
        children_after(ch, w.len() as int),
        0 <= p,
    ensures
        grid_from(w, ch, p) matches Some(r) ==> root_and_settings_kept(w, r),
        width_from(w, ch, p) matches Some(r) ==> root_and_settings_kept(w, r),
        x_from(w, ch, p) matches Some(r) ==> root_and_settings_kept(w, r),
        height_from(w, ch, p) matches Some(r) ==> root_and_settings_kept(w, r),
        y_from(w, ch, p) matches Some(r) ==> root_and_settings_kept(w, r),
    decreases ch.len() - p,
{
    if p < ch.len() {
        lemma_child_not_root(ch, w.len() as int, p);
        lemma_node_frame(w, p, ch[p]);
        if let Some(w2) = grid_node(w, p, ch[p]) {
            lemma_passes_keep_root(w2, ch, p + 1);
            assert(w2[0] == w[0]);
        }
        if let Some(w2) = width_node(w, p, ch[p]) {
            lemma_passes_keep_root(w2, ch, p + 1);
            assert(w2[0] == w[0]);
        }
        if let Some(w2) = x_node(w, p, ch[p]) {
            lemma_passes_keep_root(w2, ch, p + 1);
            assert(w2[0] == w[0]);
        }
        if let Some(w2) = height_node(w, p, ch[p]) {
            lemma_passes_keep_root(w2, ch, p + 1);
            assert(w2[0] == w[0]);
        }
        if let Some(w2) = y_node(w, p, ch[p]) {
            lemma_passes_keep_root(w2, ch, p + 1);
            assert(w2[0] == w[0]);
        }
    }
}

/// After `flush_changes` the root's outside area is the whole screen, and every wrap keeps its
/// own settings (name, grid width and size asked for, margin, padding, border, alignment): the
/// passes only compute.
pub proof fn lemma_flush_fills_screen(size: Size, wraps: Seq<WrapView>, ch: Seq<Seq<usize>>)
    requires
        (LayoutView { size: size, wraps: wraps, children: ch }).wf(),
        flushed(size, wraps, ch) is Some,
    ensures
        ({
            let r = flushed(size, wraps, ch).unwrap();
            let e = wraps[0].outside_extent();
            &&& r.len() == wraps.len()
            &&& r[0] == root_fitted(wraps[0], size).unwrap()
            &&& WrapView::grown(r[0].computed_width, e) == Some(size.width as int)
            &&& WrapView::grown(r[0].computed_height, e) == Some(size.height as int)
            &&& WrapView::moved_back(r[0].computed_x, e) == Some(0int)
            &&& WrapView::moved_back(r[0].computed_y, e) == Some(0int)
            &&& forall|i: int| 0 <= i < wraps.len() ==> same_settings(wraps[i], #[trigger] r[i])
        }),
{
    let root = root_fitted(wraps[0], size).unwrap();
    let w0 = wraps.update(0, root);
    assert(children_after(ch, w0.len() as int));
    lemma_passes_keep_root(w0, ch, 0);
    let w1 = grid_from(w0, ch, 0).unwrap();
    lemma_passes_keep_root(w1, ch, 0);
    let w2 = width_from(w1, ch, 0).unwrap();
    lemma_passes_keep_root(w2, ch, 0);
    let w3 = x_from(w2, ch, 0).unwrap();
    lemma_passes_keep_root(w3, ch, 0);
    let w4 = height_from(w3, ch, 0).unwrap();
    lemma_passes_keep_root(w4, ch, 0);
    let r = y_from(w4, ch, 0).unwrap();
    assert(r[0] == root);
    assert forall|i: int| 0 <= i < wraps.len() implies same_settings(wraps[i], #[trigger] r[i]) by {
        assert(same_settings(wraps[i], w0[i]));
        assert(same_settings(w0[i], w1[i]));
        assert(same_settings(w1[i], w2[i]));
        assert(same_settings(w2[i], w3[i]));
        assert(same_settings(w3[i], w4[i]));
        assert(same_settings(w4[i], r[i]));
    }
}

/// A node's lines are placed one below the other from a first row that its vertical alignment
/// decides, `used` being the rows the lines take and `h` the node's height, when they fit in it:
/// at the node's top row for `Top`; `h - used` rows lower for `Bottom`, so that the last line
/// ends on the node's last row; and half of those rows lower, rounded up, for `Middle`.
pub proof fn lemma_lines_start_where_aligned(w: Seq<WrapView>, p: int, cs: Seq<usize>)
    requires
        0 <= p < w.len(),
        w[p].computed_height is Some,
        w[p].computed_y is Some,
        lines_height_to(lines_of(cs, w), w, lines_of(cs, w).len() as int) <= w[p].computed_height.unwrap(),
    ensures
        ({
            let ls = lines_of(cs, w);
            let used = lines_height_to(ls, w, ls.len() as int);
            let h = w[p].computed_height.unwrap() as int;
            let y = w[p].computed_y.unwrap() as int;
            let start = match w[p].vertical_align {
                VerticalAlign::Top => y,
                VerticalAlign::Middle => y + (h - used + 1) / 2,
                VerticalAlign::Bottom => y + h - used,
            };
            y_node(w, p, cs) == if heights_known(ls, w) && used <= usize::MAX && start <= usize::MAX {
                y_lines_from(w, ls, 0, w, start)
            } else {
                None
            }
        }),
{
}

/// Some child of `line[k..]` is the wrap at `i`.
pub open spec fn listed_from(line: Seq<usize>, k: int, i: int) -> bool {
    exists|j: int| k <= j < line.len() && #[trigger] line[j] == i as usize
}

/// Setting the y of `line[k..]` from row `y` gives each of those children the row `y` plus its
/// outside extent, and leaves every other wrap as it was.
proof fn lemma_y_set_places(cur: Seq<WrapView>, line: Seq<usize>, w: Seq<WrapView>, k: int, y: int)
    requires
        cur.len() == w.len(),
        0 <= k <= line.len(),
        forall|j: int| 0 <= j < line.len() ==> (#[trigger] line[j]) < w.len(),
    ensures
        y_set_from(cur, line, w, k, y) matches Some(r) ==> {
            &&& r.len() == cur.len()
            &&& forall|j: int|
                k <= j < line.len() ==> (#[trigger] r[line[j] as int]).computed_y == Some(
                    (y + w[line[j] as int].outside_extent()) as usize,
                )
            &&& forall|i: int| 0 <= i < cur.len() && !listed_from(line, k, i) ==> #[trigger] r[i] == cur[i]
        },
    decreases line.len() - k,
{
    if k < line.len() {
        let c = line[k] as int;
        let e = w[c].outside_extent();
        if y + e <= usize::MAX {
            let next = cur.update(c, WrapView { computed_y: Some((y + e) as usize), ..w[c] });
            lemma_y_set_places(next, line, w, k + 1, y);
            if let Some(r) = y_set_from(cur, line, w, k, y) {
                assert forall|i: int| 0 <= i < cur.len() && !listed_from(line, k, i) implies #[trigger] r[i] == cur[i] by {
                    assert(line[k] != i as usize);
                    if listed_from(line, k + 1, i) {
                        let t = choose|t: int| k + 1 <= t < line.len() && #[trigger] line[t] == i as usize;
                        assert(line[t] == i as usize);
                    }
                }
                if listed_from(line, k + 1, c) {
                    let t = choose|t: int| k + 1 <= t < line.len() && #[trigger] line[t] == c as usize;
                    assert(r[line[t] as int].computed_y == Some((y + e) as usize));
                } else {
                    assert(r[c] == next[c]);
                }
            }
        }
    }
}

/// Placing the lines `ls[i..]` from row `y` gives each of their children the row `y`, plus the
/// heights of the lines above its own from `i` on, plus its outside extent, when no child is in two
/// lines; every other wrap is left as it was.
proof fn lemma_y_lines_places(cur: Seq<WrapView>, ls: Seq<Seq<usize>>, i: int, w: Seq<WrapView>, y: int)
    requires
        cur.len() == w.len(),
        0 <= i <= ls.len(),
        forall|a: int, j: int| 0 <= a < ls.len() && 0 <= j < ls[a].len() ==> (#[trigger] ls[a][j]) < w.len(),
        forall|a: int, b: int, j1: int, j2: int|
            0 <= a < ls.len() && 0 <= b < ls.len() && a != b && 0 <= j1 < ls[a].len() && 0 <= j2 < ls[b].len()
                ==> #[trigger] ls[a][j1] != #[trigger] ls[b][j2],
    ensures
        y_lines_from(cur, ls, i, w, y) matches Some(r) ==> {
            &&& r.len() == cur.len()
            &&& forall|a: int, j: int|
                i <= a < ls.len() && 0 <= j < ls[a].len() ==> (#[trigger] r[ls[a][j] as int]).computed_y == Some(
                    (y + lines_height_to(ls, w, a) - lines_height_to(ls, w, i) + w[ls[a][j] as int].outside_extent()) as usize,
                )
            &&& forall|x: int|
                0 <= x < cur.len() && (forall|a: int, j: int| i <= a < ls.len() && 0 <= j < ls[a].len() ==> #[trigger] ls[a][j] != x as usize)
                    ==> #[trigger] r[x] == cur[x]
        },
    decreases ls.len() - i,
{
    if i < ls.len() {
        let line = ls[i];
        assert forall|j: int| 0 <= j < line.len() implies (#[trigger] line[j]) < w.len() by {
            assert(ls[i][j] < w.len());
        }
        lemma_y_set_places(cur, line, w, 0, y);
        if let Some(next) = y_set_from(cur, line, w, 0, y) {
            let below = y + line_max_from(line, w, 0);
            if below <= usize::MAX {
                lemma_y_lines_places(next, ls, i + 1, w, below);
                if let Some(r) = y_lines_from(cur, ls, i, w, y) {
                    assert(lines_height_to(ls, w, i + 1) == lines_height_to(ls, w, i) + line_max_from(ls[i], w, 0));
                    assert forall|a: int, j: int| i <= a < ls.len() && 0 <= j < ls[a].len() implies (#[trigger] r[
                        ls[a][j] as int]).computed_y == Some(
                        (y + lines_height_to(ls, w, a) - lines_height_to(ls, w, i) + w[ls[a][j] as int].outside_extent()) as usize,
                    ) by {
                        if a == i {
                            let c = ls[a][j];
                            assert(line[j] == c);
                            assert forall|b: int, j2: int| i + 1 <= b < ls.len() && 0 <= j2 < ls[b].len() implies #[trigger] ls[b][j2]
                                != (c as int) as usize by {
                                assert(ls[b][j2] != ls[a][j]);
                            }
                            assert(r[c as int] == next[c as int]);
                        }
                    }
                    assert forall|x: int|
                        0 <= x < cur.len() && (forall|a: int, j: int| i <= a < ls.len() && 0 <= j < ls[a].len() ==> #[trigger] ls[a][j] != x as usize)
                        implies #[trigger] r[x] == cur[x] by {
                        assert forall|a: int, j: int| i + 1 <= a < ls.len() && 0 <= j < ls[a].len() implies #[trigger] ls[a][j]
                            != x as usize by {
                            assert(ls[a][j] != x as usize);
                        }
                        assert(!listed_from(line, 0, x)) by {
                            if listed_from(line, 0, x) {
                                let t = choose|t: int| 0 <= t < line.len() && #[trigger] line[t] == x as usize;
                                assert(ls[i][t] == x as usize);
                            }
                        }
                    }
                }
            }
        }
    }
}

/// Children of distinct lines are distinct when no child is listed twice.
proof fn lemma_lines_disjoint(cs: Seq<usize>, w: Seq<WrapView>)
    requires
        cs.no_duplicates(),
    ensures
        forall|a: int, b: int, j1: int, j2: int|
            0 <= a < lines_of(cs, w).len() && 0 <= b < lines_of(cs, w).len() && a != b && 0 <= j1 < lines_of(cs, w)[a].len()
                && 0 <= j2 < lines_of(cs, w)[b].len() ==> #[trigger] lines_of(cs, w)[a][j1] != #[trigger] lines_of(cs, w)[b][j2],
    decreases cs.len(),
{
    if cs.len() > 0 {
        let d = cs.drop_last();
        let c = cs.last();
        let prev = lines_of(d, w);
        let ls = lines_of(cs, w);
        assert(d.no_duplicates());
        lemma_lines_disjoint(d, w);
        lemma_lines_of(d, w);
        assert(!d.contains(c)) by {
            if d.contains(c) {
                let k = choose|k: int| 0 <= k < d.len() && d[k] == c;
                assert(cs[k] == cs[cs.len() - 1]);
            }
        }
        assert forall|a: int, b: int, j1: int, j2: int|
            0 <= a < ls.len() && 0 <= b < ls.len() && a != b && 0 <= j1 < ls[a].len() && 0 <= j2 < ls[b].len()
            implies #[trigger] ls[a][j1] != #[trigger] ls[b][j2] by {
            if prev.len() == 0 || w[c as int].is_new_line {
                if a < prev.len() && b < prev.len() {
                    assert(ls[a] == prev[a] && ls[b] == prev[b]);
                } else if a < prev.len() {
                    assert(ls[a] == prev[a]);
                    assert(d.contains(prev[a][j1]));
                } else {
                    assert(ls[b] == prev[b]);
                    assert(d.contains(prev[b][j2]));
                }
            } else {
                let last = prev.len() - 1;
                if a != last && b != last {
                    assert(ls[a] == prev[a] && ls[b] == prev[b]);
                } else if a == last {
                    assert(ls[b] == prev[b]);
                    assert(d.contains(prev[b][j2]));
                    if j1 < prev[a].len() {
                        assert(ls[a][j1] == prev[a][j1]);
                    } else {
                        assert(ls[a][j1] == c);
                    }
                } else {
                    assert(ls[a] == prev[a]);
                    assert(d.contains(prev[a][j1]));
                    if j2 < prev[b].len() {
                        assert(ls[b][j2] == prev[b][j2]);
                    } else {
                        assert(ls[b][j2] == c);
                    }
                }
            }
        }
    }
}

/// The children of a node go one line below the other, each line as high as its highest child,
/// from the row its vertical alignment decides (see `lemma_lines_start_where_aligned`): a child
/// of line `a` starts, with its margin, on that row plus the heights of the lines above it. With
/// `Bottom` alignment the last line thus ends on the node's last row.
pub proof fn lemma_children_stack_in_lines(w: Seq<WrapView>, p: int, cs: Seq<usize>)
    requires
        0 <= p < w.len(),
        forall|k: int| 0 <= k < cs.len() ==> (#[trigger] cs[k]) < w.len(),
        cs.no_duplicates(),
        w[p].computed_height is Some,
        w[p].computed_y is Some,
        lines_height_to(lines_of(cs, w), w, lines_of(cs, w).len() as int) <= w[p].computed_height.unwrap(),
    ensures
        ({
            let ls = lines_of(cs, w);
            let used = lines_height_to(ls, w, ls.len() as int);
            let h = w[p].computed_height.unwrap() as int;
            let y = w[p].computed_y.unwrap() as int;
            let start = match w[p].vertical_align {
                VerticalAlign::Top => y,
                VerticalAlign::Middle => y + (h - used + 1) / 2,
                VerticalAlign::Bottom => y + h - used,
            };
            y_node(w, p, cs) matches Some(r) ==> forall|a: int, j: int|
                0 <= a < ls.len() && 0 <= j < ls[a].len() ==> (#[trigger] r[ls[a][j] as int]).computed_y == Some(
                    (start + lines_height_to(ls, w, a) + w[ls[a][j] as int].outside_extent()) as usize,
                )
        }),
{
    let ls = lines_of(cs, w);
    lemma_lines_start_where_aligned(w, p, cs);
    lemma_lines_of(cs, w);
    lemma_lines_disjoint(cs, w);
    assert forall|a: int, j: int| 0 <= a < ls.len() && 0 <= j < ls[a].len() implies (#[trigger] ls[a][j]) < w.len() by {
        assert(cs.contains(ls[a][j]));
    }
    let used = lines_height_to(ls, w, ls.len() as int);
    let h = w[p].computed_height.unwrap() as int;
    let y = w[p].computed_y.unwrap() as int;
    let start = match w[p].vertical_align {
        VerticalAlign::Top => y,
        VerticalAlign::Middle => y + (h - used + 1) / 2,
        VerticalAlign::Bottom => y + h - used,
    };
    lemma_y_lines_places(w, ls, 0, w, start);
    assert(lines_height_to(ls, w, 0) == 0);
}

} // verus!
