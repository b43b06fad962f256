use vstd::prelude::*;

use crate::geom::Size;
use super::layout::lines_of;
use super::wrap::WrapView;
use super::wrap_builder::or_else;
use super::{Align, VerticalAlign, GRID_COLUMNS_COUNT};

verus! {

// What each pass of `Layout::flush_changes` does. A pass visits the nodes in the order they were
// added, so a node is visited after its parent, and each visit of a node sets values of the
// node's children from the node's own values. A visit gives `None` where the computation would
// fail (a value missing, or a size too small for the margin, padding and border around it).

/// The smaller of two integers.
pub open spec fn min_int(a: int, b: int) -> int {
    if a < b { a } else { b }
}

/// The root takes the grid width it asks for, starts no line, and fills the screen.
pub open spec fn root_fitted(r: WrapView, size: Size) -> Option<WrapView> {
    let e = r.outside_extent();
    if 2 * e <= size.width && 2 * e <= size.height {
        Some(WrapView {
            computed_grid_width: r.grid_width,
            is_new_line: false,
            computed_width: Some((size.width - 2 * e) as usize),
            computed_x: Some(e as usize),
            computed_height: Some((size.height - 2 * e) as usize),
            computed_y: Some(e as usize),
            ..r
        })
    } else {
        None
    }
}

/// A child of a node whose grid width is `pgw`, when `cols` columns of the current line are
/// taken: it gets the grid width it asks for (a whole row when it asks for none) but no more than
/// `pgw`, and starts a new line when that does not fit beside what is taken. Also gives the
/// columns taken after it.
pub open spec fn grid_fitted(c: WrapView, cols: int, pgw: int) -> (WrapView, int) {
    let gw = min_int(or_else(c.grid_width, GRID_COLUMNS_COUNT) as int, pgw);
    if cols + gw > pgw {
        (WrapView { computed_grid_width: Some(gw as usize), is_new_line: true, ..c }, gw)
    } else {
        (WrapView { computed_grid_width: Some(gw as usize), ..c }, cols + gw)
    }
}

/// The children `cs[j..]` fitted one after the other.
pub open spec fn grid_run(w: Seq<WrapView>, cs: Seq<usize>, j: int, cols: int, pgw: int) -> Seq<
    WrapView,
>
    decreases cs.len() - j,
{
    if 0 <= j < cs.len() {
        let c = cs[j] as int;
        let (cw, next) = grid_fitted(w[c], cols, pgw);
        grid_run(w.update(c, cw), cs, j + 1, next, pgw)
    } else {
        w
    }
}

/// The grid pass at node `p` with children `cs`.
pub open spec fn grid_node(w: Seq<WrapView>, p: int, cs: Seq<usize>) -> Option<Seq<WrapView>> {
    match w[p].computed_grid_width {
        Some(pgw) => Some(grid_run(w, cs, 0, 0, pgw as int)),
        None => None,
    }
}

/// The grid pass at the nodes from `p` on.
pub open spec fn grid_from(w: Seq<WrapView>, ch: Seq<Seq<usize>>, p: int) -> Option<Seq<WrapView>>
    decreases ch.len() - p,
{
    if 0 <= p < ch.len() {
        match grid_node(w, p, ch[p]) {
            Some(w2) => grid_from(w2, ch, p + 1),
            None => None,
        }
    } else {
        Some(w)
    }
}

/// The outside width a child asks for before the line is evened out: its grid columns' share of
/// the parent's inside width `width`, rounded down.
pub open spec fn share(width: int, c: WrapView) -> int {
    width * or_else(c.grid_width, 0) as int / GRID_COLUMNS_COUNT as int
}

/// The shares of the children `line[j..]`, added up.
pub open spec fn shares_from(width: int, line: Seq<usize>, w: Seq<WrapView>, j: int) -> int
    decreases line.len() - j,
{
    if 0 <= j < line.len() {
        share(width, w[line[j] as int]) + shares_from(width, line, w, j + 1)
    } else {
        0
    }
}

/// The grid columns of the children `line[j..]`, added up.
pub open spec fn columns_from(line: Seq<usize>, w: Seq<WrapView>, j: int) -> int
    decreases line.len() - j,
{
    if 0 <= j < line.len() {
        or_else(w[line[j] as int].grid_width, 0) + columns_from(line, w, j + 1)
    } else {
        0
    }
}

/// The columns a line should fill: its grid columns' share of the parent's width, rounded to
/// the nearest (halves up), and no more than the parent's width.
pub open spec fn line_target(width: int, line: Seq<usize>, w: Seq<WrapView>) -> int {
    min_int(
        (2 * width * columns_from(line, w, 0) + GRID_COLUMNS_COUNT as int) / (2
            * GRID_COLUMNS_COUNT as int),
        width,
    )
}

/// The columns that rounding the shares down left over in a line.
pub open spec fn spare(width: int, line: Seq<usize>, w: Seq<WrapView>) -> int {
    let t = line_target(width, line, w);
    let s = shares_from(width, line, w, 0);
    if t > s {
        t - s
    } else {
        0
    }
}

/// What rounding a child's share down loses, in twelfths of a column.
pub open spec fn share_loss(width: int, c: WrapView) -> int {
    width * or_else(c.grid_width, 0) as int % GRID_COLUMNS_COUNT as int
}

/// How many of `keys[i..]` come before `keys[k]` when the keys are ordered from the largest to
/// the smallest, equal keys kept in their order.
pub open spec fn key_rank(keys: Seq<int>, k: int, i: int) -> int
    decreases keys.len() - i,
{
    if 0 <= i < keys.len() {
        (if keys[i] > keys[k] || (keys[i] == keys[k] && i < k) {
            1int
        } else {
            0int
        }) + key_rank(keys, k, i + 1)
    } else {
        0
    }
}

/// What rounding loses of each child's share, in line order.
pub open spec fn line_losses(width: int, line: Seq<usize>, w: Seq<WrapView>) -> Seq<int> {
    Seq::new(line.len(), |j: int| share_loss(width, w[line[j] as int]))
}

/// How many of the children `line[i..]` come before child `k` when the line is ordered from the
/// child that rounding loses the most to the one it loses the least, children that lose the
/// same kept in line order.
pub open spec fn share_rank_from(width: int, line: Seq<usize>, w: Seq<WrapView>, k: int, i: int) -> int {
    key_rank(line_losses(width, line, w), k, i)
}

/// The outside width child `k` of the line gets: its share, and one column more when it is among
/// the first `spare` children that rounding loses the most to.
pub open spec fn line_width_of(width: int, line: Seq<usize>, w: Seq<WrapView>, k: int) -> int {
    share(width, w[line[k] as int]) + if share_rank_from(width, line, w, k, 0) < spare(
        width,
        line,
        w,
    ) {
        1int
    } else {
        0int
    }
}

/// Child `k` of the line asks for grid columns, and its width holds its margin, padding and
/// border and fits a `usize`.
pub open spec fn width_fits(width: int, line: Seq<usize>, w: Seq<WrapView>, k: int) -> bool {
    let c = w[line[k] as int];
    let v = line_width_of(width, line, w, k);
    &&& c.grid_width is Some
    &&& 2 * c.outside_extent() <= v <= usize::MAX
}

/// The children `line[k..]` given their widths, one after the other.
pub open spec fn width_set_from(
    cur: Seq<WrapView>,
    line: Seq<usize>,
    w: Seq<WrapView>,
    width: int,
    k: int,
) -> Seq<WrapView>
    decreases line.len() - k,
{
    if 0 <= k < line.len() {
        let c = line[k] as int;
        let v = line_width_of(width, line, w, k);
        width_set_from(
            cur.update(
                c,
                WrapView { computed_width: Some((v - 2 * w[c].outside_extent()) as usize), ..w[c] },
            ),
            line,
            w,
            width,
            k + 1,
        )
    } else {
        cur
    }
}

/// The lines `ls[i..]` given their widths, one after the other; `w` is the wraps before the
/// first line.
pub open spec fn width_lines_from(
    cur: Seq<WrapView>,
    ls: Seq<Seq<usize>>,
    i: int,
    w: Seq<WrapView>,
    width: int,
) -> Option<Seq<WrapView>>
    decreases ls.len() - i,
{
    if 0 <= i < ls.len() {
        if forall|k: int| 0 <= k < ls[i].len() ==> #[trigger] width_fits(width, ls[i], w, k) {
            width_lines_from(width_set_from(cur, ls[i], w, width, 0), ls, i + 1, w, width)
        } else {
            None
        }
    } else {
        Some(cur)
    }
}

/// The width pass at node `p` with children `cs`.
pub open spec fn width_node(w: Seq<WrapView>, p: int, cs: Seq<usize>) -> Option<Seq<WrapView>> {
    match w[p].computed_width {
        Some(width) => width_lines_from(w, lines_of(cs, w), 0, w, width as int),
        None => None,
    }
}

/// The width pass at the nodes from `p` on.
pub open spec fn width_from(w: Seq<WrapView>, ch: Seq<Seq<usize>>, p: int) -> Option<Seq<WrapView>>
    decreases ch.len() - p,
{
    if 0 <= p < ch.len() {
        match width_node(w, p, ch[p]) {
            Some(w2) => width_from(w2, ch, p + 1),
            None => None,
        }
    } else {
        Some(w)
    }
}

/// The outside width of a wrap: its computed width with margin, padding and border on both sides.
pub open spec fn outside_w(c: WrapView) -> int {
    or_else(c.computed_width, 0) + 2 * c.outside_extent()
}

/// The outside widths of the children `line[j..]`, added up.
pub open spec fn outside_widths_from(line: Seq<usize>, w: Seq<WrapView>, j: int) -> int
    decreases line.len() - j,
{
    if 0 <= j < line.len() {
        outside_w(w[line[j] as int]) + outside_widths_from(line, w, j + 1)
    } else {
        0
    }
}

/// How far in from the start a line of children goes when `unused` cells are left over.
pub open spec fn align_offset(align: Align, unused: int) -> int {
    match align {
        Align::Left => 0,
        Align::Center => (unused + 1) / 2,
        Align::Right => unused,
    }
}

/// Where a line starts, in a node whose inside area starts at `x` and is `width` wide.
pub open spec fn x_line_start(x: int, width: int, align: Align, line: Seq<usize>, w: Seq<WrapView>) -> int {
    let used = outside_widths_from(line, w, 0);
    x + align_offset(align, if width > used { width - used } else { 0 })
}

/// The children `line[k..]` placed one after the other from `x`: each one's outside area starts
/// where the one before it ends.
pub open spec fn x_set_from(cur: Seq<WrapView>, line: Seq<usize>, w: Seq<WrapView>, k: int, x: int) -> Option<
    Seq<WrapView>,
>
    decreases line.len() - k,
{
    if 0 <= k < line.len() {
        let c = line[k] as int;
        let e = w[c].outside_extent();
        if w[c].computed_width is Some && x + outside_w(w[c]) <= usize::MAX && x + e <= usize::MAX {
            x_set_from(
                cur.update(c, WrapView { computed_x: Some((x + e) as usize), ..w[c] }),
                line,
                w,
                k + 1,
                x + outside_w(w[c]),
            )
        } else {
            None
        }
    } else {
        Some(cur)
    }
}

/// The lines `ls[i..]` placed, each from where its alignment puts it.
pub open spec fn x_lines_from(
    cur: Seq<WrapView>,
    ls: Seq<Seq<usize>>,
    i: int,
    w: Seq<WrapView>,
    x: int,
    width: int,
    align: Align,
) -> Option<Seq<WrapView>>
    decreases ls.len() - i,
{
    if 0 <= i < ls.len() {
        match x_set_from(cur, ls[i], w, 0, x_line_start(x, width, align, ls[i], w)) {
            Some(next) => x_lines_from(next, ls, i + 1, w, x, width, align),
            None => None,
        }
    } else {
        Some(cur)
    }
}

/// The x pass at node `p` with children `cs`.
pub open spec fn x_node(w: Seq<WrapView>, p: int, cs: Seq<usize>) -> Option<Seq<WrapView>> {
    match (w[p].computed_width, w[p].computed_x) {
        (Some(width), Some(x)) => x_lines_from(w, lines_of(cs, w), 0, w, x as int, width as int, w[p].align),
        _ => None,
    }
}

/// The x pass at the nodes from `p` on.
pub open spec fn x_from(w: Seq<WrapView>, ch: Seq<Seq<usize>>, p: int) -> Option<Seq<WrapView>>
    decreases ch.len() - p,
{
    if 0 <= p < ch.len() {
        match x_node(w, p, ch[p]) {
            Some(w2) => x_from(w2, ch, p + 1),
            None => None,
        }
    } else {
        Some(w)
    }
}

/// A child that cannot be placed stops the placing of its line wherever it starts.
pub proof fn lemma_x_set_fails(cur: Seq<WrapView>, line: Seq<usize>, w: Seq<WrapView>, j: int, k: int, x: int)
    requires
        0 <= j <= k < line.len(),
        x >= 0,
        w[line[k] as int].computed_width is None || outside_w(w[line[k] as int]) > usize::MAX,
        forall|i: int| 0 <= i < line.len() ==> #[trigger] w[line[i] as int].outside_extent() >= 0,
    ensures
        x_set_from(cur, line, w, j, x) is None,
    decreases k - j,
{
    if j < k {
        let c = line[j] as int;
        let e = w[c].outside_extent();
        if w[c].computed_width is Some && x + outside_w(w[c]) <= usize::MAX && x + e <= usize::MAX {
            assert(outside_w(w[c]) >= 0);
            lemma_x_set_fails(
                cur.update(c, WrapView { computed_x: Some((x + e) as usize), ..w[c] }),
                line,
                w,
                j + 1,
                k,
                x + outside_w(w[c]),
            );
        }
    }
}

/// The height a child asks for, counting one that asks for none as asking for 0.
pub open spec fn height_key(c: WrapView) -> int {
    or_else(c.height, 0) as int
}

/// The greatest height asked for among the children `line[j..]` (0 for none).
pub open spec fn max_key_from(line: Seq<usize>, w: Seq<WrapView>, j: int) -> int
    decreases line.len() - j,
{
    if 0 <= j < line.len() {
        let rest = max_key_from(line, w, j + 1);
        let k = height_key(w[line[j] as int]);
        if k > rest {
            k
        } else {
            rest
        }
    } else {
        0
    }
}

/// A line's height before the node's height is shared out, and whether it is defined: the
/// greatest height a child of the line asks for, the last such child deciding. A line whose
/// children ask for no height, or whose last child asks for none, is undefined, of height 0.
pub open spec fn line_height(line: Seq<usize>, w: Seq<WrapView>) -> (int, bool) {
    let m = max_key_from(line, w, 0);
    if m > 0 {
        (m, true)
    } else {
        (0, w[line.last() as int].height is Some)
    }
}

/// The heights of the lines `ls`.
pub open spec fn line_heights(ls: Seq<Seq<usize>>, w: Seq<WrapView>) -> Seq<(int, bool)> {
    Seq::new(ls.len(), |i: int| line_height(ls[i], w))
}

/// The heights of the first `i` lines, added up.
pub open spec fn heights_to(infos: Seq<(int, bool)>, i: int) -> int
    decreases i,
{
    if 0 < i <= infos.len() {
        heights_to(infos, i - 1) + infos[i - 1].0
    } else {
        0
    }
}

/// How many of the first `i` lines are defined (`want`) or undefined (`!want`).
pub open spec fn kind_before(infos: Seq<(int, bool)>, i: int, want: bool) -> int
    decreases i,
{
    if 0 < i <= infos.len() {
        kind_before(infos, i - 1, want) + if infos[i - 1].1 == want {
            1int
        } else {
            0int
        }
    } else {
        0
    }
}

/// What line `i` keeps of its height, rounded down, when the lines' heights are cut down in
/// proportion to fit `h`.
pub open spec fn cut_floor(infos: Seq<(int, bool)>, h: int, i: int) -> int {
    infos[i].0 * h / heights_to(infos, infos.len() as int)
}

/// What rounding loses of each line's cut height, in line order.
pub open spec fn cut_losses(infos: Seq<(int, bool)>, h: int) -> Seq<int> {
    Seq::new(infos.len(), |j: int| infos[j].0 * h % heights_to(infos, infos.len() as int))
}

/// The cut heights of the first `i` lines, rounded down, added up.
pub open spec fn cut_floors_to(infos: Seq<(int, bool)>, h: int, i: int) -> int
    decreases i,
{
    if 0 < i <= infos.len() {
        cut_floors_to(infos, h, i - 1) + cut_floor(infos, h, i - 1)
    } else {
        0
    }
}

/// The height of line `i` once the node's height `h` is shared out: when the lines take more
/// than `h`, each line's height is cut in proportion, to its height times `h` over what they
/// take, rounded down, and the rows that rounding leaves over go one each to the lines that
/// rounding lost the most to, lines that lost as much in line order; when they take less, what
/// is left is given evenly to the undefined lines, the first of them getting one more each for
/// the remainder.
pub open spec fn shared_height(infos: Seq<(int, bool)>, h: int, i: int) -> int {
    let sum = heights_to(infos, infos.len() as int);
    let (base, defined) = infos[i];
    if sum > h {
        let spare_rows = h - cut_floors_to(infos, h, infos.len() as int);
        cut_floor(infos, h, i) + if key_rank(cut_losses(infos, h), i, 0) < spare_rows {
            1int
        } else {
            0int
        }
    } else if sum < h {
        let cnt = kind_before(infos, infos.len() as int, false);
        if cnt > 0 && !defined {
            let unused = h - sum;
            base + unused / cnt + if kind_before(infos, i, false) < unused % cnt {
                1int
            } else {
                0int
            }
        } else {
            base
        }
    } else {
        base
    }
}

/// The children `line[k..]` given their outside heights in a line of height `lh`: a child that
/// asks for a height gets no more than that.
pub open spec fn height_set_from(cur: Seq<WrapView>, line: Seq<usize>, w: Seq<WrapView>, k: int, lh: int) -> Option<
    Seq<WrapView>,
>
    decreases line.len() - k,
{
    if 0 <= k < line.len() {
        let c = line[k] as int;
        let v = match w[c].height {
            Some(asked) => min_int(asked as int, lh),
            None => lh,
        };
        if 2 * w[c].outside_extent() <= v {
            height_set_from(
                cur.update(
                    c,
                    WrapView { computed_height: Some((v - 2 * w[c].outside_extent()) as usize), ..w[c] },
                ),
                line,
                w,
                k + 1,
                lh,
            )
        } else {
            None
        }
    } else {
        Some(cur)
    }
}

/// The lines `ls[i..]` given their heights, in a node of inside height `h`.
pub open spec fn height_lines_from(
    cur: Seq<WrapView>,
    ls: Seq<Seq<usize>>,
    i: int,
    w: Seq<WrapView>,
    h: int,
) -> Option<Seq<WrapView>>
    decreases ls.len() - i,
{
    if 0 <= i < ls.len() {
        let lh = shared_height(line_heights(ls, w), h, i);
        if lh >= 0 {
            match height_set_from(cur, ls[i], w, 0, lh) {
                Some(next) => height_lines_from(next, ls, i + 1, w, h),
                None => None,
            }
        } else {
            None
        }
    } else {
        Some(cur)
    }
}

/// The height pass at node `p` with children `cs`.
pub open spec fn height_node(w: Seq<WrapView>, p: int, cs: Seq<usize>) -> Option<Seq<WrapView>> {
    let ls = lines_of(cs, w);
    if ls.len() == 0 {
        Some(w)
    } else {
        match w[p].computed_height {
            Some(h) => if heights_to(line_heights(ls, w), ls.len() as int) <= usize::MAX {
                height_lines_from(w, ls, 0, w, h as int)
            } else {
                None
            },
            None => None,
        }
    }
}

/// The height pass at the nodes from `p` on.
pub open spec fn height_from(w: Seq<WrapView>, ch: Seq<Seq<usize>>, p: int) -> Option<Seq<WrapView>>
    decreases ch.len() - p,
{
    if 0 <= p < ch.len() {
        match height_node(w, p, ch[p]) {
            Some(w2) => height_from(w2, ch, p + 1),
            None => None,
        }
    } else {
        Some(w)
    }
}

/// The outside height of a wrap: its computed height with margin, padding and border on both
/// sides.
pub open spec fn outside_h(c: WrapView) -> int {
    or_else(c.computed_height, 0) + 2 * c.outside_extent()
}

/// The greatest outside height among the children `line[j..]` (0 for none).
pub open spec fn line_max_from(line: Seq<usize>, w: Seq<WrapView>, j: int) -> int
    decreases line.len() - j,
{
    if 0 <= j < line.len() {
        let rest = line_max_from(line, w, j + 1);
        let h = outside_h(w[line[j] as int]);
        if h > rest {
            h
        } else {
            rest
        }
    } else {
        0
    }
}

/// The heights of the first `i` lines, each as high as its highest child, added up.
pub open spec fn lines_height_to(ls: Seq<Seq<usize>>, w: Seq<WrapView>, i: int) -> int
    decreases i,
{
    if 0 < i <= ls.len() {
        lines_height_to(ls, w, i - 1) + line_max_from(ls[i - 1], w, 0)
    } else {
        0
    }
}

/// How far down from the top the lines go when `unused` rows are left over.
pub open spec fn vertical_offset(align: VerticalAlign, unused: int) -> int {
    match align {
        VerticalAlign::Top => 0,
        VerticalAlign::Middle => (unused + 1) / 2,
        VerticalAlign::Bottom => unused,
    }
}

/// Every child in the lines has a computed height and an outside height that fits a `usize`.
pub open spec fn heights_known(ls: Seq<Seq<usize>>, w: Seq<WrapView>) -> bool {
    forall|a: int, b: int|
        0 <= a < ls.len() && 0 <= b < ls[a].len() ==> {
            let c = #[trigger] w[ls[a][b] as int];
            c.computed_height is Some && outside_h(c) <= usize::MAX
        }
}

/// The children `line[k..]` given their outside y: all of them start at `y`.
pub open spec fn y_set_from(cur: Seq<WrapView>, line: Seq<usize>, w: Seq<WrapView>, k: int, y: int) -> Option<
    Seq<WrapView>,
>
    decreases line.len() - k,
{
    if 0 <= k < line.len() {
        let c = line[k] as int;
        let e = w[c].outside_extent();
        if y + e <= usize::MAX {
            y_set_from(
                cur.update(c, WrapView { computed_y: Some((y + e) as usize), ..w[c] }),
                line,
                w,
                k + 1,
                y,
            )
        } else {
            None
        }
    } else {
        Some(cur)
    }
}

/// The lines `ls[i..]` placed one below the other from `y`, each as high as its highest child.
pub open spec fn y_lines_from(cur: Seq<WrapView>, ls: Seq<Seq<usize>>, i: int, w: Seq<WrapView>, y: int) -> Option<
    Seq<WrapView>,
>
    decreases ls.len() - i,
{
    if 0 <= i < ls.len() {
        match y_set_from(cur, ls[i], w, 0, y) {
            Some(next) => {
                let below = y + line_max_from(ls[i], w, 0);
                if below <= usize::MAX {
                    y_lines_from(next, ls, i + 1, w, below)
                } else {
                    None
                }
            },
            None => None,
        }
    } else {
        Some(cur)
    }
}

/// The y pass at node `p` with children `cs`.
pub open spec fn y_node(w: Seq<WrapView>, p: int, cs: Seq<usize>) -> Option<Seq<WrapView>> {
    let ls = lines_of(cs, w);
    match (w[p].computed_height, w[p].computed_y) {
        (Some(h), Some(y)) => {
            let used = lines_height_to(ls, w, ls.len() as int);
            let start = y + vertical_offset(
                w[p].vertical_align,
                if h > used {
                    h - used
                } else {
                    0
                },
            );
            if heights_known(ls, w) && used <= usize::MAX && start <= usize::MAX {
                y_lines_from(w, ls, 0, w, start)
            } else {
                None
            }
        },
        _ => None,
    }
}

/// The y pass at the nodes from `p` on.
pub open spec fn y_from(w: Seq<WrapView>, ch: Seq<Seq<usize>>, p: int) -> Option<Seq<WrapView>>
    decreases ch.len() - p,
{
    if 0 <= p < ch.len() {
        match y_node(w, p, ch[p]) {
            Some(w2) => y_from(w2, ch, p + 1),
            None => None,
        }
    } else {
        Some(w)
    }
}

/// What `Layout::flush_changes` makes of the wraps of a layout of the given size and shape: the
/// root fitted to the screen, then the grid, width, x, height and y passes, each over the
/// result of the one before; `None` where one of them fails.
pub open spec fn flushed(size: Size, wraps: Seq<WrapView>, ch: Seq<Seq<usize>>) -> Option<Seq<WrapView>> {
    match root_fitted(wraps[0], size) {
        Some(root) => match grid_from(wraps.update(0, root), ch, 0) {
            Some(w1) => match width_from(w1, ch, 0) {
                Some(w2) => match x_from(w2, ch, 0) {
                    Some(w3) => match height_from(w3, ch, 0) {
                        Some(w4) => y_from(w4, ch, 0),
                        None => None,
                    },
                    None => None,
                },
                None => None,
            },
            None => None,
        },
        None => None,
    }
}

} // verus!
