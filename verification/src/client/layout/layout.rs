use vstd::prelude::*;

use ego_tree::Tree;

use crate::geom::Size;
use super::tree::{tree_append, tree_children, tree_children_of, tree_new, tree_values};
use super::wrap::{Wrap, WrapView};
use super::wrap_builder::{WrapBuilder, WrapBuilderView, or_else};
use super::{Align, VerticalAlign, GRID_COLUMNS_COUNT};
use super::passes::{
    flushed,
    heights_known, line_max_from, lines_height_to, outside_h, vertical_offset, y_from, y_lines_from,
    y_node, y_set_from,
    height_from, height_key, height_lines_from, height_node, height_set_from, heights_to, kind_before,
    line_height, line_heights, max_key_from, min_int, shared_height, cut_floor, cut_losses, cut_floors_to, key_rank,
    align_offset, lemma_x_set_fails, outside_w, outside_widths_from, x_from, x_line_start, x_lines_from,
    x_node, x_set_from,
    line_width_of,
    columns_from, grid_from, grid_node, grid_run, line_target, root_fitted, share, share_loss, share_rank_from,
    shares_from, spare, width_fits, width_from, width_lines_from, width_node, width_set_from,
};

verus! {

broadcast use vstd::string::group_string_axioms;

/// The views of a sequence of wraps.
pub open spec fn wrap_views(s: Seq<Wrap>) -> Seq<WrapView> {
    s.map_values(|w: Wrap| w@)
}

proof fn lemma_wrap_views_update(s: Seq<Wrap>, i: int, x: Wrap)
    requires
        0 <= i < s.len(),
    ensures
        wrap_views(s.update(i, x)) == wrap_views(s).update(i, x@),
{
    assert(wrap_views(s.update(i, x)) =~= wrap_views(s).update(i, x@));
}

/// The views of a sequence of vectors of positions.
pub open spec fn vec_seqs(v: Seq<Vec<usize>>) -> Seq<Seq<usize>> {
    v.map_values(|l: Vec<usize>| l@)
}

/// The children `cs` of a node grouped into lines: a child whose wrap is flagged `is_new_line`
/// starts a new line unless it comes first.
pub open spec fn lines_of(cs: Seq<usize>, w: Seq<WrapView>) -> Seq<Seq<usize>>
    decreases cs.len(),
{
    if cs.len() == 0 {
        Seq::empty()
    } else {
        let prev = lines_of(cs.drop_last(), w);
        let c = cs.last();
        if prev.len() == 0 || w[c as int].is_new_line {
            prev.push(seq![c])
        } else {
            prev.update(prev.len() - 1, prev.last().push(c))
        }
    }
}

/// Every line is non-empty and holds children from `cs` only.
pub proof fn lemma_lines_of(cs: Seq<usize>, w: Seq<WrapView>)
    ensures
        cs.len() == 0 <==> lines_of(cs, w).len() == 0,
        forall|i: int| 0 <= i < lines_of(cs, w).len() ==> #[trigger] lines_of(cs, w)[i].len() > 0,
        forall|i: int, j: int|
            0 <= i < lines_of(cs, w).len() && 0 <= j < lines_of(cs, w)[i].len()
                ==> cs.contains(#[trigger] lines_of(cs, w)[i][j]),
    decreases cs.len(),
{
    if cs.len() > 0 {
        let prev = lines_of(cs.drop_last(), w);
        lemma_lines_of(cs.drop_last(), w);
        let ls = lines_of(cs, w);
        assert forall|i: int, j: int| 0 <= i < ls.len() && 0 <= j < ls[i].len()
            implies cs.contains(#[trigger] ls[i][j]) by {
            if i < prev.len() && j < prev[i].len() {
                assert(cs.drop_last().contains(prev[i][j]));
                let k = choose|k: int| 0 <= k < cs.drop_last().len() && cs.drop_last()[k] == prev[i][j];
                assert(cs[k] == ls[i][j]);
            } else {
                assert(ls[i][j] == cs[cs.len() - 1]);
            }
        }
    }
}

/// The lines `ls` one after the other.
pub open spec fn joined(ls: Seq<Seq<usize>>) -> Seq<usize>
    decreases ls.len(),
{
    if ls.len() == 0 {
        Seq::empty()
    } else {
        joined(ls.drop_last()) + ls.last()
    }
}

/// The lines of a node's children hold every child once, in order: put back together they are
/// the children; and a line after the first starts with a child that asks for a new line.
pub proof fn lemma_lines_partition(cs: Seq<usize>, w: Seq<WrapView>)
    ensures
        joined(lines_of(cs, w)) == cs,
        forall|i: int| 0 < i < lines_of(cs, w).len() ==> w[#[trigger] lines_of(cs, w)[i][0] as int].is_new_line,
    decreases cs.len(),
{
    if cs.len() > 0 {
        let prev = lines_of(cs.drop_last(), w);
        lemma_lines_partition(cs.drop_last(), w);
        lemma_lines_of(cs.drop_last(), w);
        let c = cs.last();
        let ls = lines_of(cs, w);
        if prev.len() == 0 || w[c as int].is_new_line {
            assert(ls.drop_last() =~= prev);
            assert(joined(ls) == joined(prev) + seq![c]);
            assert(cs =~= cs.drop_last() + seq![c]);
        } else {
            let l = prev.last();
            assert(ls.drop_last() =~= prev.drop_last());
            assert(joined(prev) == joined(prev.drop_last()) + l);
            assert(joined(ls) == joined(prev.drop_last()) + l.push(c));
            assert(joined(prev.drop_last()) + l.push(c) =~= (joined(prev.drop_last()) + l).push(c));
            assert(cs =~= cs.drop_last().push(c));
            assert forall|i: int| 0 < i < ls.len() implies w[#[trigger] ls[i][0] as int].is_new_line by {
                if i < prev.len() - 1 {
                    assert(ls[i] == prev[i]);
                } else {
                    assert(prev[i].len() > 0);
                    assert(ls[i][0] == prev[i][0]);
                }
            }
        }
    }
}

/// Wraps `a` are wraps `b` but for their computed widths.
pub open spec fn same_but_widths(a: Seq<WrapView>, b: Seq<WrapView>) -> bool {
    &&& a.len() == b.len()
    &&& forall|i: int|
        0 <= i < a.len() ==> #[trigger] a[i] == (WrapView { computed_width: a[i].computed_width, ..b[i] })
}

/// Wraps `a` are wraps `b` but for their computed x.
pub open spec fn same_but_xs(a: Seq<WrapView>, b: Seq<WrapView>) -> bool {
    &&& a.len() == b.len()
    &&& forall|i: int|
        0 <= i < a.len() ==> #[trigger] a[i] == (WrapView { computed_x: a[i].computed_x, ..b[i] })
}

/// Wraps `a` are wraps `b` but for their computed heights.
pub open spec fn same_but_heights(a: Seq<WrapView>, b: Seq<WrapView>) -> bool {
    &&& a.len() == b.len()
    &&& forall|i: int|
        0 <= i < a.len() ==> #[trigger] a[i] == (WrapView { computed_height: a[i].computed_height, ..b[i] })
}

proof fn lemma_kinds(infos: Seq<(int, bool)>, i: int)
    requires
        0 <= i <= infos.len(),
    ensures
        kind_before(infos, i, true) + kind_before(infos, i, false) == i,
        0 <= kind_before(infos, i, true) <= i,
    decreases i,
{
    if i > 0 {
        lemma_kinds(infos, i - 1);
    }
}

/// With heights that are not negative, the heights of the first `i` lines add up to no more
/// than those of all of them.
proof fn lemma_heights_to_grows(infos: Seq<(int, bool)>, i: int)
    requires
        0 <= i <= infos.len(),
        forall|a: int| 0 <= a < infos.len() ==> #[trigger] infos[a].0 >= 0,
    ensures
        heights_to(infos, i) <= heights_to(infos, infos.len() as int),
    decreases infos.len() - i,
{
    if i < infos.len() {
        lemma_heights_to_grows(infos, i + 1);
    }
}

proof fn lemma_share_out(total: int, cnt: int)
    requires
        total >= 0,
        cnt >= 1,
    ensures
        total / cnt <= total,
        total % cnt >= 1 ==> total / cnt + 1 <= total,
        0 <= total % cnt < cnt,
{
    assert(total / cnt <= total && (total % cnt >= 1 ==> total / cnt + 1 <= total)) by (nonlinear_arith)
        requires
            total >= 0,
            cnt >= 1,
    ;
}

/// Wraps `a` are wraps `b` but for their computed y.
pub open spec fn same_but_ys(a: Seq<WrapView>, b: Seq<WrapView>) -> bool {
    &&& a.len() == b.len()
    &&& forall|i: int|
        0 <= i < a.len() ==> #[trigger] a[i] == (WrapView { computed_y: a[i].computed_y, ..b[i] })
}

proof fn lemma_full_line(width: int, cols: int)
    requires
        width >= 0,
        cols >= 12,
    ensures
        (2 * width * cols + 12) / 24 >= width,
{
    assert(2 * width * cols >= 24 * width) by (nonlinear_arith)
        requires
            width >= 0,
            cols >= 12,
    ;
    assert((2 * width * cols + 12) / 24 >= width) by (nonlinear_arith)
        requires
            2 * width * cols >= 24 * width,
            width >= 0,
    ;
}

proof fn lemma_wide_product(a: u128, b: u128)
    requires
        a <= 0xffff_ffff_ffff_ffff,
        b <= 0xffff_ffff_ffff_ffff,
    ensures
        a * b <= 0xffff_ffff_ffff_fffe_0000_0000_0000_0001,
{
    assert(a * b <= 0xffff_ffff_ffff_ffff * 0xffff_ffff_ffff_ffff) by (nonlinear_arith)
        requires
            a <= 0xffff_ffff_ffff_ffff,
            b <= 0xffff_ffff_ffff_ffff,
    ;
}

/// The root of a grid based box layout: a tree of wraps, each node's children laid out in lines
/// inside it.
#[derive(Debug)]
pub struct Layout {
    pub size: Size,
    tree: Tree<usize>,
    wraps: Vec<Wrap>,
}

/// The mathematical value of a `Layout`: its size, the wrap of each node (the root first, then
/// the nodes in the order they were added) and, for each node, its children by position.
pub struct LayoutView {
    pub size: Size,
    pub wraps: Seq<WrapView>,
    pub children: Seq<Seq<usize>>,
}

impl LayoutView {
    /// There is a root, every node has a list of children, and every child was added after its
    /// parent.
    pub open spec fn wf(self) -> bool {
        &&& self.wraps.len() >= 1
        &&& self.children.len() == self.wraps.len()
        &&& forall|p: int, j: int|
            0 <= p < self.children.len() && 0 <= j < self.children[p].len() ==> p
                < #[trigger] self.children[p][j] < self.wraps.len()
    }
}

impl View for Layout {
    type V = LayoutView;

    closed spec fn view(&self) -> LayoutView {
        LayoutView {
            size: self.size,
            wraps: wrap_views(self.wraps@),
            children: tree_children(self.tree),
        }
    }
}

/// The wrap a new layout starts with: a full row named "root".
pub open spec fn root_wrap() -> WrapView {
    WrapBuilderView {
        name: Some("root"@),
        ..WrapBuilderView::with_grid_width(GRID_COLUMNS_COUNT)
    }.built()
}

impl Layout {
    /// The layout is well formed, and each node of the tree holds its own position.
    pub closed spec fn wf(&self) -> bool {
        &&& self@.wf()
        &&& tree_values(self.tree) == Seq::new(self.wraps@.len(), |i: int| i as usize)
    }

    pub fn new(size: Size) -> (r: Layout)
        ensures
            r.wf(),
            r@ == (LayoutView {
                size: size,
                wraps: seq![root_wrap()],
                children: seq![Seq::<usize>::empty()],
            }),
    {
        let root = WrapBuilder::row().name("root".to_string()).build();
        let tree = tree_new(0);
        let wraps = vec![root];
        let r = Layout { size: size, tree: tree, wraps: wraps };
        assert(wrap_views(r.wraps@) =~= seq![root_wrap()]);
        assert(tree_values(r.tree) =~= Seq::new(1, |i: int| i as usize));
        r
    }

    /// Adds `wrap` as the last child of node `parent` and gives the new node's position.
    pub fn append(&mut self, parent: usize, wrap: Wrap) -> (id: usize)
        requires
            old(self).wf(),
            parent < old(self)@.wraps.len(),
            old(self)@.wraps.len() < usize::MAX,
        ensures
            final(self).wf(),
            id == old(self)@.wraps.len(),
            final(self)@ == (LayoutView {
                size: old(self)@.size,
                wraps: old(self)@.wraps.push(wrap@),
                children: old(self)@.children.update(
                    parent as int,
                    old(self)@.children[parent as int].push(id),
                ).push(Seq::<usize>::empty()),
            }),
    {
        let id = self.wraps.len();
        let ghost w = wrap@;
        tree_append(&mut self.tree, parent, id);
        self.wraps.push(wrap);
        assert(wrap_views(self.wraps@) =~= wrap_views(old(self).wraps@).push(w));
        assert(tree_values(self.tree) =~= Seq::new(self.wraps@.len(), |i: int| i as usize));
        let ghost ch = self@.children;
        assert forall|p: int, j: int| 0 <= p < ch.len() && 0 <= j < ch[p].len() implies p
            < #[trigger] ch[p][j] < self@.wraps.len() by {
            if p == parent && j == old(self)@.children[p].len() {
            } else if p < old(self)@.children.len() {
                assert(ch[p][j] == old(self)@.children[p][j]);
            }
        }
        id
    }

    /// The children of node `p` grouped into lines.
    fn lines(&self, p: usize) -> (r: Vec<Vec<usize>>)
        requires
            self.wf(),
            p < self@.wraps.len(),
        ensures
            vec_seqs(r@) == lines_of(self@.children[p as int], self@.wraps),
    {
        let cs = tree_children_of(&self.tree, p);
        let ghost w = self@.wraps;
        let mut output: Vec<Vec<usize>> = Vec::new();
        let mut line: Vec<usize> = Vec::new();
        let mut i: usize = 0;
        while i < cs.len()
            invariant
                self.wf(),
                w == self@.wraps,
                cs@ == self@.children[p as int],
                p < self@.wraps.len(),
                i <= cs.len(),
                i == 0 ==> output@.len() == 0 && line@.len() == 0,
                i > 0 ==> line@.len() > 0,
                lines_of(cs@.take(i as int), w) == if line@.len() == 0 {
                    vec_seqs(output@)
                } else {
                    vec_seqs(output@).push(line@)
                },
            decreases cs.len() - i,
        {
            let c = cs[i];
            assert(cs@.take(i as int + 1).drop_last() =~= cs@.take(i as int));
            assert(cs@.take(i as int + 1).last() == c);
            assert(p < self@.children[p as int][i as int]);
            let ghost prev = lines_of(cs@.take(i as int), w);
            let ghost old_line = line@;
            let ghost old_out = vec_seqs(output@);
            assert(w[c as int] == self.wraps@[c as int]@);
            if self.wraps[c].is_new_line() && line.len() > 0 {
                output.push(line);
                line = Vec::new();
                assert(vec_seqs(output@) =~= old_out.push(old_line));
                line.push(c);
                assert(line@ =~= seq![c]);
                assert(lines_of(cs@.take(i as int + 1), w) == prev.push(seq![c]));
            } else {
                line.push(c);
                proof {
                    if old_line.len() == 0 {
                        assert(prev.len() == 0);
                        assert(line@ =~= seq![c]);
                        assert(lines_of(cs@.take(i as int + 1), w) == prev.push(seq![c]));
                        assert(prev.push(seq![c]) =~= old_out.push(line@));
                    } else {
                        assert(prev == old_out.push(old_line));
                        assert(prev.last() == old_line);
                        assert(lines_of(cs@.take(i as int + 1), w) == prev.update(prev.len() - 1, old_line.push(c)));
                        assert(prev.update(prev.len() - 1, old_line.push(c)) =~= old_out.push(line@));
                    }
                }
            }
            i = i + 1;
        }
        assert(cs@.take(cs.len() as int) =~= cs@);
        if line.len() > 0 {
            let ghost before = vec_seqs(output@);
            let ghost l = line@;
            output.push(line);
            assert(vec_seqs(output@) =~= before.push(l));
        }
        output
    }

    /// Sets the root's grid width, line and outside area: the whole screen.
    fn update_root_wrap(&mut self) -> (ok: bool)
        requires
            old(self).wf(),
        ensures
            final(self).wf(),
            final(self)@.children == old(self)@.children,
            final(self)@.size == old(self)@.size,
            ok == root_fitted(old(self)@.wraps[0], old(self)@.size) is Some,
            ok ==> final(self)@.wraps == old(self)@.wraps.update(
                0,
                root_fitted(old(self)@.wraps[0], old(self)@.size).unwrap(),
            ),
    {
        let e = self.wraps[0].outside_extent_wide();
        if 2 * e > self.size.width as u128 || 2 * e > self.size.height as u128 {
            return false;
        }
        let width = self.size.width;
        let height = self.size.height;
        let mut root = Wrap::new();
        std::mem::swap(&mut root, &mut self.wraps[0]);
        let ghost before = root@;
        let gw = root.grid_width();
        root.set_computed_grid_width(gw);
        root.set_is_new_line(false);
        root.set_outside_width(Some(width));
        root.set_outside_x(Some(0));
        root.set_outside_height(Some(height));
        root.set_outside_y(Some(0));
        assert(root@ == root_fitted(before, self.size).unwrap());
        proof {
            lemma_wrap_views_update(self.wraps@, 0, root);
        }
        self.wraps.set(0, root);
        assert(self@.wraps == old(self)@.wraps.update(0, root_fitted(old(self)@.wraps[0], old(self)@.size).unwrap()));
        true
    }

    /// The grid pass at node `p`.
    fn grid_node_pass(&mut self, p: usize) -> (ok: bool)
        requires
            old(self).wf(),
            p < old(self)@.wraps.len(),
        ensures
            final(self).wf(),
            final(self)@.children == old(self)@.children,
            final(self)@.size == old(self)@.size,
            ok == grid_node(old(self)@.wraps, p as int, old(self)@.children[p as int]) is Some,
            ok ==> final(self)@.wraps == grid_node(
                old(self)@.wraps,
                p as int,
                old(self)@.children[p as int],
            ).unwrap(),
    {
        let pgw = match self.wraps[p].computed_grid_width() {
            Some(g) => g,
            None => return false,
        };
        let cs = tree_children_of(&self.tree, p);
        let mut cols: usize = 0;
        let mut j: usize = 0;
        while j < cs.len()
            invariant
                self.wf(),
                self@.children == old(self)@.children,
                self@.size == old(self)@.size,
                p < self@.wraps.len(),
                cs@ == self@.children[p as int],
                j <= cs.len(),
                cols <= pgw,
                grid_run(self@.wraps, cs@, j as int, cols as int, pgw as int) == grid_run(
                    old(self)@.wraps,
                    cs@,
                    0,
                    0,
                    pgw as int,
                ),
            decreases cs.len() - j,
        {
            let c = cs[j];
            assert(p < self@.children[p as int][j as int]);
            let ghost w = self@.wraps;
            let asked = match self.wraps[c].grid_width() {
                Some(g) => g,
                None => GRID_COLUMNS_COUNT,
            };
            let gw = if asked < pgw { asked } else { pgw };
            let mut child = Wrap::new();
            std::mem::swap(&mut child, &mut self.wraps[c]);
            child.set_computed_grid_width(Some(gw));
            if gw > pgw - cols {
                child.set_is_new_line(true);
                cols = gw;
            } else {
                cols = cols + gw;
            }
            proof {
                lemma_wrap_views_update(self.wraps@, c as int, child);
            }
            self.wraps.set(c, child);
            assert(self@.wraps == w.update(c as int, child@));
            j = j + 1;
        }
        true
    }

    /// The grid pass: every node's children get their grid widths and lines.
    fn compute_layout(&mut self) -> (ok: bool)
        requires
            old(self).wf(),
        ensures
            final(self).wf(),
            final(self)@.children == old(self)@.children,
            final(self)@.size == old(self)@.size,
            ok == grid_from(old(self)@.wraps, old(self)@.children, 0) is Some,
            ok ==> final(self)@.wraps == grid_from(old(self)@.wraps, old(self)@.children, 0).unwrap(),
    {
        let n = self.wraps.len();
        let mut p: usize = 0;
        while p < n
            invariant
                self.wf(),
                self@.children == old(self)@.children,
                self@.size == old(self)@.size,
                n == self@.wraps.len(),
                p <= n,
                grid_from(self@.wraps, self@.children, p as int) == grid_from(
                    old(self)@.wraps,
                    old(self)@.children,
                    0,
                ),
            decreases n - p,
        {
            if !self.grid_node_pass(p) {
                return false;
            }
            p = p + 1;
        }
        true
    }

    /// The width pass for one line of a node's children, `width` being the node's inside width
    /// and `w` the wraps when the node's pass began.
    fn width_line(&mut self, line: &Vec<usize>, width: usize, Ghost(w): Ghost<Seq<WrapView>>) -> (ok: bool)
        requires
            old(self).wf(),
            same_but_widths(old(self)@.wraps, w),
            forall|k: int| 0 <= k < line@.len() ==> #[trigger] line@[k] < w.len(),
        ensures
            final(self).wf(),
            final(self)@.children == old(self)@.children,
            final(self)@.size == old(self)@.size,
            same_but_widths(final(self)@.wraps, w),
            ok == (forall|k: int| 0 <= k < line@.len() ==> #[trigger] width_fits(width as int, line@, w, k)),
            ok ==> final(self)@.wraps == width_set_from(old(self)@.wraps, line@, w, width as int, 0),
    {
        let ghost big: int = width as int;
        let ghost l = line@;
        let mut shares: Vec<usize> = Vec::new();
        let mut losses: Vec<u8> = Vec::new();
        let mut total: u128 = 0;
        let mut columns: u128 = 0;
        let mut k: usize = 0;
        while k < line.len()
            invariant
                self@ == old(self)@,
                self.wf(),
                same_but_widths(self@.wraps, w),
                l == line@,
                big == width,
                forall|i: int| 0 <= i < l.len() ==> #[trigger] l[i] < w.len(),
                k <= l.len(),
                shares@.len() == k,
                losses@.len() == k,
                forall|i: int| 0 <= i < k ==> #[trigger] shares@[i] == share(big, w[l[i] as int]),
                forall|i: int| 0 <= i < k ==> #[trigger] losses@[i] == share_loss(big, w[l[i] as int]),
                forall|i: int| 0 <= i < k ==> (#[trigger] w[l[i] as int]).grid_width is Some,
                total + shares_from(big, l, w, k as int) == shares_from(big, l, w, 0),
                columns + columns_from(l, w, k as int) == columns_from(l, w, 0),
                total <= k * 0x1_0000_0000_0000_0000,
                columns <= k * 0x1_0000_0000_0000_0000,
            decreases l.len() - k,
        {
            let c = line[k];
            assert(self@.wraps[c as int] == (WrapView { computed_width: self@.wraps[c as int].computed_width, ..w[c as int] }));
            let gw = match self.wraps[c].grid_width() {
                Some(g) => g,
                None => {
                    assert(!width_fits(big, l, w, k as int));
                    return false;
                },
            };
            proof {
                lemma_wide_product(width as u128, gw as u128);
            }
            let s: u128 = (width as u128) * (gw as u128) / 12;
            let loss: u128 = (width as u128) * (gw as u128) % 12;
            assert(s == share(big, w[c as int]));
            assert(loss == share_loss(big, w[c as int]));
            if s > usize::MAX as u128 {
                assert(!width_fits(big, l, w, k as int));
                return false;
            }
            shares.push(s as usize);
            losses.push(loss as u8);
            total = total + s;
            columns = columns + gw as u128;
            k = k + 1;
        }
        let ghost cols = columns_from(l, w, 0);
        assert(columns == cols);
        assert(total == shares_from(big, l, w, 0));
        let target: u128 = if columns >= 12 {
            proof {
                lemma_full_line(big, cols);
            }
            width as u128
        } else {
            assert(2 * (width as u128) * columns <= 2 * 0xffff_ffff_ffff_ffffu128 * 12) by (nonlinear_arith)
                requires
                    width <= 0xffff_ffff_ffff_ffffu128,
                    columns < 12,
            ;
            let t = (2 * (width as u128) * columns + 12) / 24;
            if t < width as u128 {
                t
            } else {
                width as u128
            }
        };
        assert(target == line_target(big, l, w));
        let spare_cols: u128 = if target > total {
            target - total
        } else {
            0
        };
        assert(spare_cols == spare(big, l, w));
        let mut k: usize = 0;
        while k < line.len()
            invariant
                self.wf(),
                self@.children == old(self)@.children,
                self@.size == old(self)@.size,
                same_but_widths(self@.wraps, w),
                l == line@,
                big == width,
                forall|i: int| 0 <= i < l.len() ==> #[trigger] l[i] < w.len(),
                k <= l.len(),
                shares@.len() == l.len(),
                losses@.len() == l.len(),
                forall|i: int| 0 <= i < l.len() ==> #[trigger] shares@[i] == share(big, w[l[i] as int]),
                forall|i: int| 0 <= i < l.len() ==> #[trigger] losses@[i] == share_loss(big, w[l[i] as int]),
                forall|i: int| 0 <= i < l.len() ==> (#[trigger] w[l[i] as int]).grid_width is Some,
                spare_cols == spare(big, l, w),
                forall|i: int| 0 <= i < k ==> #[trigger] width_fits(big, l, w, i),
                width_set_from(self@.wraps, l, w, big, k as int) == width_set_from(
                    old(self)@.wraps,
                    l,
                    w,
                    big,
                    0,
                ),
            decreases l.len() - k,
        {
            let c = line[k];
            let mut rank: usize = 0;
            let mut i: usize = 0;
            while i < line.len()
                invariant
                    l == line@,
                    k < l.len(),
                    losses@.len() == l.len(),
                    forall|j: int| 0 <= j < l.len() ==> #[trigger] losses@[j] == share_loss(big, w[l[j] as int]),
                    i <= l.len(),
                    rank <= i,
                    rank + share_rank_from(big, l, w, k as int, i as int) == share_rank_from(
                        big,
                        l,
                        w,
                        k as int,
                        0,
                    ),
                decreases l.len() - i,
            {
                if losses[i] > losses[k] || (losses[i] == losses[k] && i < k) {
                    rank = rank + 1;
                }
                i = i + 1;
            }
            let s = shares[k];
            let bonus = (rank as u128) < spare_cols;
            if bonus && s == usize::MAX {
                assert(!width_fits(big, l, w, k as int));
                return false;
            }
            let v: usize = if bonus {
                s + 1
            } else {
                s
            };
            assert(v == line_width_of(big, l, w, k as int));
            assert(self@.wraps[c as int] == (WrapView { computed_width: self@.wraps[c as int].computed_width, ..w[c as int] }));
            let ext = self.wraps[c].outside_extent_wide();
            if 2 * ext > v as u128 {
                assert(!width_fits(big, l, w, k as int));
                return false;
            }
            let ghost before = self@.wraps;
            let mut child = Wrap::new();
            std::mem::swap(&mut child, &mut self.wraps[c]);
            child.set_outside_width(Some(v));
            proof {
                lemma_wrap_views_update(self.wraps@, c as int, child);
            }
            self.wraps.set(c, child);
            assert(self@.wraps == before.update(
                c as int,
                WrapView { computed_width: Some((v - 2 * w[c as int].outside_extent()) as usize), ..w[c as int] },
            ));
            assert(same_but_widths(self@.wraps, w));
            k = k + 1;
        }
        true
    }

    /// The width pass at node `p`.
    fn width_node_pass(&mut self, p: usize) -> (ok: bool)
        requires
            old(self).wf(),
            p < old(self)@.wraps.len(),
        ensures
            final(self).wf(),
            final(self)@.children == old(self)@.children,
            final(self)@.size == old(self)@.size,
            ok == width_node(old(self)@.wraps, p as int, old(self)@.children[p as int]) is Some,
            ok ==> final(self)@.wraps == width_node(
                old(self)@.wraps,
                p as int,
                old(self)@.children[p as int],
            ).unwrap(),
    {
        let width = match self.wraps[p].computed_width() {
            Some(v) => v,
            None => return false,
        };
        let ls = self.lines(p);
        let ghost w = self@.wraps;
        let ghost cs = self@.children[p as int];
        let ghost lines = vec_seqs(ls@);
        assert(w == old(self)@.wraps);
        assert(width_node(old(self)@.wraps, p as int, cs) == width_lines_from(w, lines, 0, w, width as int));
        proof {
            lemma_lines_of(cs, w);
            assert forall|a: int, b: int| 0 <= a < lines.len() && 0 <= b < lines[a].len() implies #[trigger] lines[a][b]
                < w.len() by {
                assert(cs.contains(lines[a][b]));
                let j = choose|j: int| 0 <= j < cs.len() && cs[j] == lines[a][b];
                assert(p < self@.children[p as int][j]);
            }
        }
        let mut i: usize = 0;
        while i < ls.len()
            invariant
                self.wf(),
                self@.children == old(self)@.children,
                self@.size == old(self)@.size,
                lines == vec_seqs(ls@),
                w.len() == self@.wraps.len(),
                forall|a: int, b: int| 0 <= a < lines.len() && 0 <= b < lines[a].len() ==> #[trigger] lines[a][b]
                    < w.len(),
                same_but_widths(self@.wraps, w),
                i <= ls.len(),
                width_lines_from(self@.wraps, lines, i as int, w, width as int) == width_lines_from(
                    w,
                    lines,
                    0,
                    w,
                    width as int,
                ),
                width_node(old(self)@.wraps, p as int, old(self)@.children[p as int]) == width_lines_from(
                    w,
                    lines,
                    0,
                    w,
                    width as int,
                ),
            decreases ls.len() - i,
        {
            assert(ls@[i as int]@ == lines[i as int]);
            assert forall|k: int| 0 <= k < ls@[i as int]@.len() implies #[trigger] ls@[i as int]@[k] < w.len() by {
                assert(lines[i as int][k] < w.len());
            }
            let ghost before = self@.wraps;
            if !self.width_line(&ls[i], width, Ghost(w)) {
                assert(!(forall|k: int| 0 <= k < lines[i as int].len() ==> #[trigger] width_fits(width as int, lines[i as int], w, k)));
                assert(width_lines_from(before, lines, i as int, w, width as int) is None);
                return false;
            }
            i = i + 1;
        }
        true
    }

    /// The width pass: every node's children get their outside widths.
    fn compute_width(&mut self) -> (ok: bool)
        requires
            old(self).wf(),
        ensures
            final(self).wf(),
            final(self)@.children == old(self)@.children,
            final(self)@.size == old(self)@.size,
            ok == width_from(old(self)@.wraps, old(self)@.children, 0) is Some,
            ok ==> final(self)@.wraps == width_from(old(self)@.wraps, old(self)@.children, 0).unwrap(),
    {
        let n = self.wraps.len();
        let mut p: usize = 0;
        while p < n
            invariant
                self.wf(),
                self@.children == old(self)@.children,
                self@.size == old(self)@.size,
                n == self@.wraps.len(),
                p <= n,
                width_from(self@.wraps, self@.children, p as int) == width_from(
                    old(self)@.wraps,
                    old(self)@.children,
                    0,
                ),
            decreases n - p,
        {
            if !self.width_node_pass(p) {
                return false;
            }
            p = p + 1;
        }
        true
    }

    /// The x pass for one line of a node's children: the node's inside area starts at `x` and is
    /// `width` wide; `w` is the wraps when the node's pass began.
    fn x_line(
        &mut self,
        line: &Vec<usize>,
        x: usize,
        width: usize,
        align: Align,
        Ghost(w): Ghost<Seq<WrapView>>,
    ) -> (ok: bool)
        requires
            old(self).wf(),
            same_but_xs(old(self)@.wraps, w),
            forall|k: int| 0 <= k < line@.len() ==> #[trigger] line@[k] < w.len(),
        ensures
            final(self).wf(),
            final(self)@.children == old(self)@.children,
            final(self)@.size == old(self)@.size,
            same_but_xs(final(self)@.wraps, w),
            ok == x_set_from(old(self)@.wraps, line@, w, 0, x_line_start(x as int, width as int, align, line@, w)) is Some,
            ok ==> final(self)@.wraps == x_set_from(
                old(self)@.wraps,
                line@,
                w,
                0,
                x_line_start(x as int, width as int, align, line@, w),
            ).unwrap(),
    {
        let ghost l = line@;
        let ghost start_spec = x_line_start(x as int, width as int, align, l, w);
        assert(start_spec >= 0);
        let mut used: u128 = 0;
        let mut k: usize = 0;
        while k < line.len()
            invariant
                self@ == old(self)@,
                self.wf(),
                same_but_xs(self@.wraps, w),
                l == line@,
                start_spec == x_line_start(x as int, width as int, align, l, w),
                start_spec >= 0,
                forall|i: int| 0 <= i < l.len() ==> #[trigger] l[i] < w.len(),
                k <= l.len(),
                used + outside_widths_from(l, w, k as int) == outside_widths_from(l, w, 0),
                used <= k * 0x1_0000_0000_0000_0000,
            decreases l.len() - k,
        {
            let c = line[k];
            assert(self@.wraps[c as int] == (WrapView { computed_x: self@.wraps[c as int].computed_x, ..w[c as int] }));
            let cw = match self.wraps[c].computed_width() {
                Some(v) => v,
                None => {
                    proof {
                        lemma_x_set_fails(old(self)@.wraps, l, w, 0, k as int, start_spec);
                    }
                    return false;
                },
            };
            let ow: u128 = cw as u128 + 2 * self.wraps[c].outside_extent_wide();
            if ow > usize::MAX as u128 {
                proof {
                    lemma_x_set_fails(old(self)@.wraps, l, w, 0, k as int, start_spec);
                }
                return false;
            }
            used = used + ow;
            k = k + 1;
        }
        let unused: u128 = if width as u128 > used {
            width as u128 - used
        } else {
            0
        };
        let offset: u128 = match align {
            Align::Left => 0,
            Align::Center => (unused + 1) / 2,
            Align::Right => unused,
        };
        let start: u128 = x as u128 + offset;
        assert(start == start_spec);
        let mut cur: u128 = start;
        let mut k: usize = 0;
        while k < line.len()
            invariant
                self.wf(),
                self@.children == old(self)@.children,
                self@.size == old(self)@.size,
                same_but_xs(self@.wraps, w),
                l == line@,
                forall|i: int| 0 <= i < l.len() ==> #[trigger] l[i] < w.len(),
                k <= l.len(),
                k > 0 ==> cur <= usize::MAX,
                k == 0 ==> cur == start,
                start <= 0xffff_ffff_ffff_ffff * 2 + 1,
                start == x_line_start(x as int, width as int, align, l, w),
                x_set_from(self@.wraps, l, w, k as int, cur as int) == x_set_from(
                    old(self)@.wraps,
                    l,
                    w,
                    0,
                    start as int,
                ),
            decreases l.len() - k,
        {
            let c = line[k];
            assert(self@.wraps[c as int] == (WrapView { computed_x: self@.wraps[c as int].computed_x, ..w[c as int] }));
            let cw = match self.wraps[c].computed_width() {
                Some(v) => v,
                None => return false,
            };
            let e = self.wraps[c].outside_extent_wide();
            let ow: u128 = cw as u128 + 2 * e;
            assert(ow == outside_w(w[c as int]));
            if cur + ow > usize::MAX as u128 || cur + e > usize::MAX as u128 {
                return false;
            }
            let ghost before = self@.wraps;
            let mut child = Wrap::new();
            std::mem::swap(&mut child, &mut self.wraps[c]);
            child.set_outside_x(Some(cur as usize));
            proof {
                lemma_wrap_views_update(self.wraps@, c as int, child);
            }
            self.wraps.set(c, child);
            assert(self@.wraps == before.update(
                c as int,
                WrapView { computed_x: Some((cur + e) as usize), ..w[c as int] },
            ));
            cur = cur + ow;
            k = k + 1;
        }
        true
    }

    /// The x pass at node `p`.
    fn x_node_pass(&mut self, p: usize) -> (ok: bool)
        requires
            old(self).wf(),
            p < old(self)@.wraps.len(),
        ensures
            final(self).wf(),
            final(self)@.children == old(self)@.children,
            final(self)@.size == old(self)@.size,
            ok == x_node(old(self)@.wraps, p as int, old(self)@.children[p as int]) is Some,
            ok ==> final(self)@.wraps == x_node(
                old(self)@.wraps,
                p as int,
                old(self)@.children[p as int],
            ).unwrap(),
    {
        let width = match self.wraps[p].computed_width() {
            Some(v) => v,
            None => return false,
        };
        let x = match self.wraps[p].computed_x() {
            Some(v) => v,
            None => return false,
        };
        let align = self.wraps[p].align();
        let ls = self.lines(p);
        let ghost w = self@.wraps;
        let ghost cs = self@.children[p as int];
        let ghost lines = vec_seqs(ls@);
        assert(w == old(self)@.wraps);
        assert(x_node(old(self)@.wraps, p as int, cs) == x_lines_from(w, lines, 0, w, x as int, width as int, align));
        proof {
            lemma_lines_of(cs, w);
            assert forall|a: int, b: int| 0 <= a < lines.len() && 0 <= b < lines[a].len() implies #[trigger] lines[a][b]
                < w.len() by {
                assert(cs.contains(lines[a][b]));
                let j = choose|j: int| 0 <= j < cs.len() && cs[j] == lines[a][b];
                assert(p < self@.children[p as int][j]);
            }
        }
        let mut i: usize = 0;
        while i < ls.len()
            invariant
                self.wf(),
                self@.children == old(self)@.children,
                self@.size == old(self)@.size,
                lines == vec_seqs(ls@),
                w.len() == self@.wraps.len(),
                forall|a: int, b: int| 0 <= a < lines.len() && 0 <= b < lines[a].len() ==> #[trigger] lines[a][b]
                    < w.len(),
                same_but_xs(self@.wraps, w),
                i <= ls.len(),
                x_lines_from(self@.wraps, lines, i as int, w, x as int, width as int, align) == x_lines_from(
                    w,
                    lines,
                    0,
                    w,
                    x as int,
                    width as int,
                    align,
                ),
                x_node(old(self)@.wraps, p as int, old(self)@.children[p as int]) == x_lines_from(
                    w,
                    lines,
                    0,
                    w,
                    x as int,
                    width as int,
                    align,
                ),
            decreases ls.len() - i,
        {
            assert(ls@[i as int]@ == lines[i as int]);
            assert forall|k: int| 0 <= k < ls@[i as int]@.len() implies #[trigger] ls@[i as int]@[k] < w.len() by {
                assert(lines[i as int][k] < w.len());
            }
            let ghost before = self@.wraps;
            if !self.x_line(&ls[i], x, width, align, Ghost(w)) {
                assert(x_lines_from(before, lines, i as int, w, x as int, width as int, align) is None);
                return false;
            }
            i = i + 1;
        }
        true
    }

    /// The x pass: every node's children get their outside x.
    fn compute_x_position(&mut self) -> (ok: bool)
        requires
            old(self).wf(),
        ensures
            final(self).wf(),
            final(self)@.children == old(self)@.children,
            final(self)@.size == old(self)@.size,
            ok == x_from(old(self)@.wraps, old(self)@.children, 0) is Some,
            ok ==> final(self)@.wraps == x_from(old(self)@.wraps, old(self)@.children, 0).unwrap(),
    {
        let n = self.wraps.len();
        let mut p: usize = 0;
        while p < n
            invariant
                self.wf(),
                self@.children == old(self)@.children,
                self@.size == old(self)@.size,
                n == self@.wraps.len(),
                p <= n,
                x_from(self@.wraps, self@.children, p as int) == x_from(old(self)@.wraps, old(self)@.children, 0),
            decreases n - p,
        {
            if !self.x_node_pass(p) {
                return false;
            }
            p = p + 1;
        }
        true
    }

    /// The height a line of children takes before its node's height is shared out.
    fn line_height_of(&self, line: &Vec<usize>) -> (r: (usize, bool))
        requires
            self.wf(),
            line@.len() > 0,
            forall|k: int| 0 <= k < line@.len() ==> #[trigger] line@[k] < self@.wraps.len(),
        ensures
            (r.0 as int, r.1) == line_height(line@, self@.wraps),
    {
        let ghost l = line@;
        let ghost w = self@.wraps;
        let mut m: usize = 0;
        let mut k: usize = line.len();
        while k > 0
            invariant
                l == line@,
                w == self@.wraps,
                forall|i: int| 0 <= i < l.len() ==> #[trigger] l[i] < w.len(),
                k <= l.len(),
                m == max_key_from(l, w, k as int),
            decreases k,
        {
            k = k - 1;
            let c = line[k];
            let key = match self.wraps[c].height() {
                Some(h) => h,
                None => 0,
            };
            assert(key == height_key(w[c as int]));
            if key > m {
                m = key;
            }
        }
        if m > 0 {
            (m, true)
        } else {
            let last = line[line.len() - 1];
            (0, self.wraps[last].height().is_some())
        }
    }

    /// Sets the outside heights of one line of children, the line being `lh` high; `w` is the
    /// wraps when the node's pass began.
    fn height_line(&mut self, line: &Vec<usize>, lh: usize, Ghost(w): Ghost<Seq<WrapView>>) -> (ok: bool)
        requires
            old(self).wf(),
            same_but_heights(old(self)@.wraps, w),
            forall|k: int| 0 <= k < line@.len() ==> #[trigger] line@[k] < w.len(),
        ensures
            final(self).wf(),
            final(self)@.children == old(self)@.children,
            final(self)@.size == old(self)@.size,
            same_but_heights(final(self)@.wraps, w),
            ok == height_set_from(old(self)@.wraps, line@, w, 0, lh as int) is Some,
            ok ==> final(self)@.wraps == height_set_from(old(self)@.wraps, line@, w, 0, lh as int).unwrap(),
    {
        let ghost l = line@;
        let mut k: usize = 0;
        while k < line.len()
            invariant
                self.wf(),
                self@.children == old(self)@.children,
                self@.size == old(self)@.size,
                same_but_heights(self@.wraps, w),
                l == line@,
                forall|i: int| 0 <= i < l.len() ==> #[trigger] l[i] < w.len(),
                k <= l.len(),
                height_set_from(self@.wraps, l, w, k as int, lh as int) == height_set_from(
                    old(self)@.wraps,
                    l,
                    w,
                    0,
                    lh as int,
                ),
            decreases l.len() - k,
        {
            let c = line[k];
            assert(self@.wraps[c as int] == (WrapView { computed_height: self@.wraps[c as int].computed_height, ..w[c as int] }));
            let v = match self.wraps[c].height() {
                Some(asked) => if asked < lh {
                    asked
                } else {
                    lh
                },
                None => lh,
            };
            let e = self.wraps[c].outside_extent_wide();
            if 2 * e > v as u128 {
                return false;
            }
            let ghost before = self@.wraps;
            let mut child = Wrap::new();
            std::mem::swap(&mut child, &mut self.wraps[c]);
            child.set_outside_height(Some(v));
            proof {
                lemma_wrap_views_update(self.wraps@, c as int, child);
            }
            self.wraps.set(c, child);
            assert(self@.wraps == before.update(
                c as int,
                WrapView { computed_height: Some((v - 2 * w[c as int].outside_extent()) as usize), ..w[c as int] },
            ));
            k = k + 1;
        }
        true
    }

    /// The height pass at node `p`.
    fn height_node_pass(&mut self, p: usize) -> (ok: bool)
        requires
            old(self).wf(),
            p < old(self)@.wraps.len(),
        ensures
            final(self).wf(),
            final(self)@.children == old(self)@.children,
            final(self)@.size == old(self)@.size,
            ok == height_node(old(self)@.wraps, p as int, old(self)@.children[p as int]) is Some,
            ok ==> final(self)@.wraps == height_node(
                old(self)@.wraps,
                p as int,
                old(self)@.children[p as int],
            ).unwrap(),
    {
        let ls = self.lines(p);
        let ghost w = self@.wraps;
        let ghost cs = self@.children[p as int];
        let ghost lines = vec_seqs(ls@);
        assert(w == old(self)@.wraps);
        if ls.len() == 0 {
            return true;
        }
        let big_h = match self.wraps[p].computed_height() {
            Some(v) => v,
            None => return false,
        };
        let ghost infos = line_heights(lines, w);
        proof {
            lemma_lines_of(cs, w);
            assert forall|a: int, b: int| 0 <= a < lines.len() && 0 <= b < lines[a].len() implies #[trigger] lines[a][b]
                < w.len() by {
                assert(cs.contains(lines[a][b]));
                let j = choose|j: int| 0 <= j < cs.len() && cs[j] == lines[a][b];
                assert(p < self@.children[p as int][j]);
            }
        }
        let mut heights: Vec<usize> = Vec::new();
        let mut defined: Vec<bool> = Vec::new();
        let mut sum: u128 = 0;
        let mut cnt_def: usize = 0;
        let mut i: usize = 0;
        while i < ls.len()
            invariant
                self@ == old(self)@,
                self.wf(),
                w == self@.wraps,
                lines == vec_seqs(ls@),
                infos == line_heights(lines, w),
                forall|a: int| 0 <= a < lines.len() ==> #[trigger] lines[a].len() > 0,
                forall|a: int, b: int| 0 <= a < lines.len() && 0 <= b < lines[a].len() ==> #[trigger] lines[a][b]
                    < w.len(),
                i <= ls.len(),
                heights@.len() == i,
                defined@.len() == i,
                forall|j: int| 0 <= j < i ==> #[trigger] heights@[j] == infos[j].0,
                forall|j: int| 0 <= j < i ==> #[trigger] defined@[j] == infos[j].1,
                sum == heights_to(infos, i as int),
                sum <= i * 0x1_0000_0000_0000_0000,
                cnt_def == kind_before(infos, i as int, true),
                cnt_def <= i,
            decreases ls.len() - i,
        {
            assert(ls@[i as int]@ == lines[i as int]);
            assert forall|k: int| 0 <= k < ls@[i as int]@.len() implies #[trigger] ls@[i as int]@[k] < w.len() by {
                assert(lines[i as int][k] < w.len());
            }
            let (h, d) = self.line_height_of(&ls[i]);
            heights.push(h);
            defined.push(d);
            sum = sum + h as u128;
            if d {
                cnt_def = cnt_def + 1;
            }
            i = i + 1;
        }
        if sum > usize::MAX as u128 {
            return false;
        }
        assert(height_node(old(self)@.wraps, p as int, cs) == height_lines_from(w, lines, 0, w, big_h as int));
        proof {
            lemma_kinds(infos, infos.len() as int);
        }
        let cnt_undef: usize = ls.len() - cnt_def;
        let mut floors: Vec<usize> = Vec::new();
        let mut losses: Vec<u128> = Vec::new();
        let mut fl_total: u128 = 0;
        if sum > big_h as u128 {
            let mut j: usize = 0;
            while j < ls.len()
                invariant
                    infos.len() == ls.len(),
                    heights@.len() == ls.len(),
                    forall|a: int| 0 <= a < ls.len() ==> #[trigger] heights@[a] == infos[a].0,
                    sum == heights_to(infos, infos.len() as int),
                    sum <= usize::MAX,
                    sum > big_h,
                    j <= ls.len(),
                    floors@.len() == j,
                    losses@.len() == j,
                    forall|a: int| 0 <= a < j ==> #[trigger] floors@[a] == cut_floor(infos, big_h as int, a),
                    forall|a: int| 0 <= a < j ==> #[trigger] losses@[a] == cut_losses(infos, big_h as int)[a],
                    fl_total == cut_floors_to(infos, big_h as int, j as int),
                    fl_total <= heights_to(infos, j as int),
                decreases ls.len() - j,
            {
                let hj = heights[j];
                proof {
                    lemma_wide_product(hj as u128, big_h as u128);
                }
                let prod: u128 = hj as u128 * big_h as u128;
                let f: u128 = prod / sum;
                let l: u128 = prod % sum;
                assert(f <= hj) by (nonlinear_arith)
                    requires
                        prod == hj * big_h,
                        f == prod / sum,
                        big_h < sum,
                        hj >= 0,
                ;
                assert(f == cut_floor(infos, big_h as int, j as int));
                proof {
                    assert forall|a: int| 0 <= a < infos.len() implies #[trigger] infos[a].0 >= 0 by {
                        assert(heights@[a] == infos[a].0);
                    }
                    lemma_heights_to_grows(infos, j as int + 1);
                }
                assert(l == cut_losses(infos, big_h as int)[j as int]);
                floors.push(f as usize);
                losses.push(l);
                fl_total = fl_total + f;
                j = j + 1;
            }
        }
        let ghost want: bool = sum > big_h;
        let mut seen: usize = 0;
        let mut i: usize = 0;
        while i < ls.len()
            invariant
                self.wf(),
                self@.children == old(self)@.children,
                self@.size == old(self)@.size,
                lines == vec_seqs(ls@),
                w.len() == self@.wraps.len(),
                infos == line_heights(lines, w),
                infos.len() == ls.len(),
                forall|a: int, b: int| 0 <= a < lines.len() && 0 <= b < lines[a].len() ==> #[trigger] lines[a][b]
                    < w.len(),
                same_but_heights(self@.wraps, w),
                heights@.len() == ls.len(),
                defined@.len() == ls.len(),
                forall|j: int| 0 <= j < ls.len() ==> #[trigger] heights@[j] == infos[j].0,
                forall|j: int| 0 <= j < ls.len() ==> #[trigger] defined@[j] == infos[j].1,
                sum == heights_to(infos, infos.len() as int),
                sum <= usize::MAX,
                cnt_def == kind_before(infos, infos.len() as int, true),
                cnt_undef == kind_before(infos, infos.len() as int, false),
                want == (sum > big_h),
                want ==> floors@.len() == ls.len() && losses@.len() == ls.len(),
                want ==> forall|a: int| 0 <= a < ls.len() ==> #[trigger] floors@[a] == cut_floor(infos, big_h as int, a),
                want ==> forall|a: int| 0 <= a < ls.len() ==> #[trigger] losses@[a] == cut_losses(infos, big_h as int)[a],
                want ==> fl_total == cut_floors_to(infos, big_h as int, infos.len() as int),
                want ==> fl_total <= sum,
                i <= ls.len(),
                seen == kind_before(infos, i as int, want),
                seen <= i,
                height_lines_from(self@.wraps, lines, i as int, w, big_h as int) == height_lines_from(
                    w,
                    lines,
                    0,
                    w,
                    big_h as int,
                ),
                height_node(old(self)@.wraps, p as int, old(self)@.children[p as int]) == height_lines_from(
                    w,
                    lines,
                    0,
                    w,
                    big_h as int,
                ),
            decreases ls.len() - i,
        {
            let base = heights[i];
            let ghost lh_spec = shared_height(infos, big_h as int, i as int);
            let lh: usize = if sum > big_h as u128 {
                let ghost keys = cut_losses(infos, big_h as int);
                let mut rank: usize = 0;
                let mut k: usize = 0;
                while k < ls.len()
                    invariant
                        infos.len() == ls.len(),
                        losses@.len() == ls.len(),
                        forall|a: int| 0 <= a < ls.len() ==> #[trigger] losses@[a] == keys[a],
                        keys == cut_losses(infos, big_h as int),
                        i < ls.len(),
                        k <= ls.len(),
                        rank <= k,
                        rank + key_rank(keys, i as int, k as int) == key_rank(keys, i as int, 0),
                    decreases ls.len() - k,
                {
                    if losses[k] > losses[i] || (losses[k] == losses[i] && k < i) {
                        rank = rank + 1;
                    }
                    k = k + 1;
                }
                let f = floors[i];
                let bonus = (rank as u128) + fl_total < big_h as u128;
                if bonus {
                    if base > 0 {
                        assert(f < base) by (nonlinear_arith)
                            requires
                                f == (base * big_h) / (sum as int),
                                big_h < sum,
                                base > 0,
                                big_h >= 0,
                        ;
                    } else {
                        assert(f == 0) by (nonlinear_arith)
                            requires
                                f == (base * big_h) / (sum as int),
                                base == 0,
                                sum > 0,
                        ;
                    }
                    f + 1
                } else {
                    f
                }
            } else if sum < big_h as u128 {
                if cnt_undef > 0 && !defined[i] {
                    let unused = big_h as u128 - sum;
                    let q = unused / (cnt_undef as u128);
                    let r = unused % (cnt_undef as u128);
                    proof {
                        lemma_share_out(unused as int, cnt_undef as int);
                    }
                    let add: u128 = if (seen as u128) < r {
                        q + 1
                    } else {
                        q
                    };
                    assert(base == 0);
                    add as usize
                } else {
                    base
                }
            } else {
                base
            };
            assert(lh == lh_spec);
            if defined[i] == (sum > big_h as u128) {
                seen = seen + 1;
            }
            assert(ls@[i as int]@ == lines[i as int]);
            assert forall|k: int| 0 <= k < ls@[i as int]@.len() implies #[trigger] ls@[i as int]@[k] < w.len() by {
                assert(lines[i as int][k] < w.len());
            }
            let ghost before = self@.wraps;
            if !self.height_line(&ls[i], lh, Ghost(w)) {
                assert(height_lines_from(before, lines, i as int, w, big_h as int) is None);
                return false;
            }
            i = i + 1;
        }
        true
    }

    /// The height pass: every node's children get their outside heights.
    fn compute_height(&mut self) -> (ok: bool)
        requires
            old(self).wf(),
        ensures
            final(self).wf(),
            final(self)@.children == old(self)@.children,
            final(self)@.size == old(self)@.size,
            ok == height_from(old(self)@.wraps, old(self)@.children, 0) is Some,
            ok ==> final(self)@.wraps == height_from(old(self)@.wraps, old(self)@.children, 0).unwrap(),
    {
        let n = self.wraps.len();
        let mut p: usize = 0;
        while p < n
            invariant
                self.wf(),
                self@.children == old(self)@.children,
                self@.size == old(self)@.size,
                n == self@.wraps.len(),
                p <= n,
                height_from(self@.wraps, self@.children, p as int) == height_from(
                    old(self)@.wraps,
                    old(self)@.children,
                    0,
                ),
            decreases n - p,
        {
            if !self.height_node_pass(p) {
                return false;
            }
            p = p + 1;
        }
        true
    }

    /// Sets the outside y of one line of children, all at `y`; `w` is the wraps when the node's
    /// pass began.
    fn y_line(&mut self, line: &Vec<usize>, y: usize, Ghost(w): Ghost<Seq<WrapView>>) -> (ok: bool)
        requires
            old(self).wf(),
            same_but_ys(old(self)@.wraps, w),
            forall|k: int| 0 <= k < line@.len() ==> #[trigger] line@[k] < w.len(),
        ensures
            final(self).wf(),
            final(self)@.children == old(self)@.children,
            final(self)@.size == old(self)@.size,
            same_but_ys(final(self)@.wraps, w),
            ok == y_set_from(old(self)@.wraps, line@, w, 0, y as int) is Some,
            ok ==> final(self)@.wraps == y_set_from(old(self)@.wraps, line@, w, 0, y as int).unwrap(),
    {
        let ghost l = line@;
        let mut k: usize = 0;
        while k < line.len()
            invariant
                self.wf(),
                self@.children == old(self)@.children,
                self@.size == old(self)@.size,
                same_but_ys(self@.wraps, w),
                l == line@,
                forall|i: int| 0 <= i < l.len() ==> #[trigger] l[i] < w.len(),
                k <= l.len(),
                y_set_from(self@.wraps, l, w, k as int, y as int) == y_set_from(
                    old(self)@.wraps,
                    l,
                    w,
                    0,
                    y as int,
                ),
            decreases l.len() - k,
        {
            let c = line[k];
            assert(self@.wraps[c as int] == (WrapView { computed_y: self@.wraps[c as int].computed_y, ..w[c as int] }));
            let e = self.wraps[c].outside_extent_wide();
            if y as u128 + e > usize::MAX as u128 {
                return false;
            }
            let ghost before = self@.wraps;
            let mut child = Wrap::new();
            std::mem::swap(&mut child, &mut self.wraps[c]);
            child.set_outside_y(Some(y));
            proof {
                lemma_wrap_views_update(self.wraps@, c as int, child);
            }
            self.wraps.set(c, child);
            assert(self@.wraps == before.update(c as int, WrapView { computed_y: Some((y + e) as usize), ..w[c as int] }));
            k = k + 1;
        }
        true
    }

    /// The outside height of the highest child of a line.
    fn line_max_height(&self, line: &Vec<usize>) -> (r: Option<usize>)
        requires
            self.wf(),
            forall|k: int| 0 <= k < line@.len() ==> #[trigger] line@[k] < self@.wraps.len(),
        ensures
            match r {
                Some(m) => m == line_max_from(line@, self@.wraps, 0) && forall|k: int|
                    0 <= k < line@.len() ==> {
                        let c = #[trigger] self@.wraps[line@[k] as int];
                        c.computed_height is Some && outside_h(c) <= usize::MAX
                    },
                None => exists|k: int|
                    0 <= k < line@.len() && {
                        let c = #[trigger] self@.wraps[line@[k] as int];
                        !(c.computed_height is Some && outside_h(c) <= usize::MAX)
                    },
            },
    {
        let ghost l = line@;
        let ghost w = self@.wraps;
        let mut m: usize = 0;
        let mut k: usize = line.len();
        while k > 0
            invariant
                l == line@,
                w == self@.wraps,
                forall|i: int| 0 <= i < l.len() ==> #[trigger] l[i] < w.len(),
                k <= l.len(),
                m == line_max_from(l, w, k as int),
                forall|i: int|
                    k <= i < l.len() ==> {
                        let c = #[trigger] w[l[i] as int];
                        c.computed_height is Some && outside_h(c) <= usize::MAX
                    },
            decreases k,
        {
            k = k - 1;
            let c = line[k];
            let ch = match self.wraps[c].computed_height() {
                Some(v) => v,
                None => {
                    assert(!(w[l[k as int] as int].computed_height is Some));
                    return None;
                },
            };
            let oh: u128 = ch as u128 + 2 * self.wraps[c].outside_extent_wide();
            if oh > usize::MAX as u128 {
                assert(outside_h(w[l[k as int] as int]) > usize::MAX);
                return None;
            }
            if oh as usize > m {
                m = oh as usize;
            }
        }
        Some(m)
    }

    /// The y pass at node `p`.
    fn y_node_pass(&mut self, p: usize) -> (ok: bool)
        requires
            old(self).wf(),
            p < old(self)@.wraps.len(),
        ensures
            final(self).wf(),
            final(self)@.children == old(self)@.children,
            final(self)@.size == old(self)@.size,
            ok == y_node(old(self)@.wraps, p as int, old(self)@.children[p as int]) is Some,
            ok ==> final(self)@.wraps == y_node(
                old(self)@.wraps,
                p as int,
                old(self)@.children[p as int],
            ).unwrap(),
    {
        let big_h = match self.wraps[p].computed_height() {
            Some(v) => v,
            None => return false,
        };
        let top = match self.wraps[p].computed_y() {
            Some(v) => v,
            None => return false,
        };
        let valign = self.wraps[p].vertical_align();
        let ls = self.lines(p);
        let ghost w = self@.wraps;
        let ghost cs = self@.children[p as int];
        let ghost lines = vec_seqs(ls@);
        assert(w == old(self)@.wraps);
        proof {
            lemma_lines_of(cs, w);
            assert forall|a: int, b: int| 0 <= a < lines.len() && 0 <= b < lines[a].len() implies #[trigger] lines[a][b]
                < w.len() by {
                assert(cs.contains(lines[a][b]));
                let j = choose|j: int| 0 <= j < cs.len() && cs[j] == lines[a][b];
                assert(p < self@.children[p as int][j]);
            }
        }
        assert(!heights_known(lines, w) ==> y_node(old(self)@.wraps, p as int, cs) is None);
        let mut maxes: Vec<usize> = Vec::new();
        let mut used: u128 = 0;
        let mut i: usize = 0;
        while i < ls.len()
            invariant
                self@ == old(self)@,
                self.wf(),
                w == self@.wraps,
                lines == vec_seqs(ls@),
                forall|a: int, b: int| 0 <= a < lines.len() && 0 <= b < lines[a].len() ==> #[trigger] lines[a][b]
                    < w.len(),
                i <= ls.len(),
                maxes@.len() == i,
                forall|j: int| 0 <= j < i ==> #[trigger] maxes@[j] == line_max_from(lines[j], w, 0),
                forall|a: int, b: int|
                    0 <= a < i && 0 <= b < lines[a].len() ==> {
                        let c = #[trigger] w[lines[a][b] as int];
                        c.computed_height is Some && outside_h(c) <= usize::MAX
                    },
                used == lines_height_to(lines, w, i as int),
                used <= i * 0x1_0000_0000_0000_0000,
                !heights_known(lines, w) ==> y_node(old(self)@.wraps, p as int, old(self)@.children[p as int]) is None,
            decreases ls.len() - i,
        {
            assert(ls@[i as int]@ == lines[i as int]);
            assert forall|k: int| 0 <= k < ls@[i as int]@.len() implies #[trigger] ls@[i as int]@[k] < w.len() by {
                assert(lines[i as int][k] < w.len());
            }
            let m = match self.line_max_height(&ls[i]) {
                Some(m) => m,
                None => {
                    assert(!heights_known(lines, w));
                    return false;
                },
            };
            maxes.push(m);
            used = used + m as u128;
            i = i + 1;
        }
        assert(heights_known(lines, w));
        if used > usize::MAX as u128 {
            return false;
        }
        let unused: u128 = if big_h as u128 > used {
            big_h as u128 - used
        } else {
            0
        };
        let offset: u128 = match valign {
            VerticalAlign::Top => 0,
            VerticalAlign::Middle => (unused + 1) / 2,
            VerticalAlign::Bottom => unused,
        };
        let start: u128 = top as u128 + offset;
        if start > usize::MAX as u128 {
            return false;
        }
        assert(y_node(old(self)@.wraps, p as int, cs) == y_lines_from(w, lines, 0, w, start as int));
        let mut y: u128 = start;
        let mut i: usize = 0;
        while i < ls.len()
            invariant
                self.wf(),
                self@.children == old(self)@.children,
                self@.size == old(self)@.size,
                lines == vec_seqs(ls@),
                w.len() == self@.wraps.len(),
                forall|a: int, b: int| 0 <= a < lines.len() && 0 <= b < lines[a].len() ==> #[trigger] lines[a][b]
                    < w.len(),
                maxes@.len() == ls.len(),
                forall|j: int| 0 <= j < ls.len() ==> #[trigger] maxes@[j] == line_max_from(lines[j], w, 0),
                same_but_ys(self@.wraps, w),
                i <= ls.len(),
                y <= usize::MAX,
                y_lines_from(self@.wraps, lines, i as int, w, y as int) == y_lines_from(
                    w,
                    lines,
                    0,
                    w,
                    start as int,
                ),
                y_node(old(self)@.wraps, p as int, old(self)@.children[p as int]) == y_lines_from(
                    w,
                    lines,
                    0,
                    w,
                    start as int,
                ),
            decreases ls.len() - i,
        {
            assert(ls@[i as int]@ == lines[i as int]);
            assert forall|k: int| 0 <= k < ls@[i as int]@.len() implies #[trigger] ls@[i as int]@[k] < w.len() by {
                assert(lines[i as int][k] < w.len());
            }
            let ghost before = self@.wraps;
            if !self.y_line(&ls[i], y as usize, Ghost(w)) {
                assert(y_lines_from(before, lines, i as int, w, y as int) is None);
                return false;
            }
            let below = y + maxes[i] as u128;
            if below > usize::MAX as u128 {
                return false;
            }
            y = below;
            i = i + 1;
        }
        true
    }

    /// The y pass: every node's children get their outside y.
    fn compute_y_position(&mut self) -> (ok: bool)
        requires
            old(self).wf(),
        ensures
            final(self).wf(),
            final(self)@.children == old(self)@.children,
            final(self)@.size == old(self)@.size,
            ok == y_from(old(self)@.wraps, old(self)@.children, 0) is Some,
            ok ==> final(self)@.wraps == y_from(old(self)@.wraps, old(self)@.children, 0).unwrap(),
    {
        let n = self.wraps.len();
        let mut p: usize = 0;
        while p < n
            invariant
                self.wf(),
                self@.children == old(self)@.children,
                self@.size == old(self)@.size,
                n == self@.wraps.len(),
                p <= n,
                y_from(self@.wraps, self@.children, p as int) == y_from(old(self)@.wraps, old(self)@.children, 0),
            decreases n - p,
        {
            if !self.y_node_pass(p) {
                return false;
            }
            p = p + 1;
        }
        true
    }

    /// Recalculates every computed value of the layout, as `flush_changes` does, where that can
    /// be done; says whether it could. Where it could not, the computed values are left part way.
    pub fn try_flush_changes(&mut self) -> (ok: bool)
        requires
            old(self).wf(),
        ensures
            final(self).wf(),
            final(self)@.children == old(self)@.children,
            final(self)@.size == old(self)@.size,
            ok == flushed(old(self)@.size, old(self)@.wraps, old(self)@.children) is Some,
            ok ==> final(self)@.wraps == flushed(old(self)@.size, old(self)@.wraps, old(self)@.children).unwrap(),
    {
        if !self.update_root_wrap() {
            return false;
        }
        if !self.compute_layout() {
            return false;
        }
        if !self.compute_width() {
            return false;
        }
        if !self.compute_x_position() {
            return false;
        }
        if !self.compute_height() {
            return false;
        }
        self.compute_y_position()
    }

    /// recalculate to account for changes
    pub fn flush_changes(&mut self)
        requires
            old(self).wf(),
            flushed(old(self)@.size, old(self)@.wraps, old(self)@.children) is Some,
        ensures
            final(self).wf(),
            final(self)@ == (LayoutView {
                wraps: flushed(old(self)@.size, old(self)@.wraps, old(self)@.children).unwrap(),
                ..old(self)@
            }),
    {
        self.try_flush_changes();
    }

    /// A well formed layout has a root, and every node's children come after it.
    pub proof fn lemma_wf(&self)
        requires
            self.wf(),
        ensures
            self@.wf(),
    {
    }

    /// The size of the screen the layout fills.
    pub fn screen_size(&self) -> (r: Size)
        ensures
            r == self@.size,
    {
        self.size
    }

    /// The wraps of all nodes, the root first, then in the order the nodes were added.
    pub fn wraps(&self) -> (r: &Vec<Wrap>)
        ensures
            wrap_views(r@) == self@.wraps,
    {
        &self.wraps
    }

    /// The wrap of node `i`, to change it; the shape of the tree stays as it is.
    pub fn wrap_mut(&mut self, i: usize) -> (r: &mut Wrap)
        requires
            old(self).wf(),
            i < old(self)@.wraps.len(),
        ensures
            r@ == old(self)@.wraps[i as int],
            final(self).wf(),
            final(self)@ == (LayoutView { wraps: old(self)@.wraps.update(i as int, final(r)@), ..old(self)@ }),
    {
        proof {
            let s = self.wraps@;
            assert forall|x: Wrap| #[trigger] wrap_views(s.update(i as int, x)) == wrap_views(s).update(i as int, x@) by {
                lemma_wrap_views_update(s, i as int, x);
            }
        }
        &mut self.wraps[i]
    }

    /// Replaces the wrap of node `i`; the shape of the tree stays as it is.
    pub fn set_wrap(&mut self, i: usize, wrap: Wrap)
        requires
            old(self).wf(),
            i < old(self)@.wraps.len(),
        ensures
            final(self).wf(),
            final(self)@ == (LayoutView { wraps: old(self)@.wraps.update(i as int, wrap@), ..old(self)@ }),
    {
        proof {
            lemma_wrap_views_update(self.wraps@, i as int, wrap);
        }
        self.wraps.set(i, wrap);
    }
}

} // verus!
