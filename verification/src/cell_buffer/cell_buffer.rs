use vstd::prelude::*;

use crate::geom::{Pos, Rect, Size};
use super::cell::Cell;

verus! {

/// The cells of a screen, row after row, each knowing its position.
pub struct CellBuffer {
    rect: Rect,
    cells: Vec<Cell>,
}

/// Where the `i`-th cell of a buffer `width` wide is.
pub open spec fn index_pos(i: int, width: int) -> Pos {
    Pos { x: (i % width) as usize, y: (i / width) as usize }
}

pub proof fn lemma_cell_index(x: int, y: int, width: int, height: int)
    requires
        0 <= x < width,
        0 <= y < height,
    ensures
        0 <= y * width + x < width * height,
        (y * width + x) % width == x,
        (y * width + x) / width == y,
{
    assert(0 <= y * width + x < width * height) by (nonlinear_arith)
        requires
            0 <= x < width,
            0 <= y < height,
    ;
    assert((y * width + x) % width == x && (y * width + x) / width == y) by (nonlinear_arith)
        requires
            0 <= x < width,
            0 <= y,
    ;
}

impl CellBuffer {
    /// The buffer covers its rectangle from the origin, one cell per position, each cell at its
    /// own position.
    pub closed spec fn wf(&self) -> bool {
        &&& self.rect.origin == (Pos { x: 0, y: 0 })
        &&& self.cells@.len() == self.rect.size.width * self.rect.size.height
        &&& self.rect.size.width * self.rect.size.height <= usize::MAX
        &&& forall|i: int|
            0 <= i < self.cells@.len() ==> (#[trigger] self.cells@[i]).pos == index_pos(
                i,
                self.rect.size.width as int,
            )
    }

    /// The size of the screen the buffer covers.
    pub closed spec fn size(&self) -> Size {
        self.rect.size
    }

    /// The cells, row after row.
    pub closed spec fn cells(&self) -> Seq<Cell> {
        self.cells@
    }

    /// A well formed buffer has one cell per position of its size, each at its own position.
    pub proof fn lemma_cells(&self)
        requires
            self.wf(),
        ensures
            self.cells().len() == self.size().width * self.size().height,
            self.size().width * self.size().height <= usize::MAX,
            forall|i: int|
                0 <= i < self.cells().len() ==> (#[trigger] self.cells()[i]).pos == index_pos(
                    i,
                    self.size().width as int,
                ),
    {
    }


    /// What `index` reads at `q` once `set_cell` wrote `cell` at `pos`: the written cell at the
    /// written position, and the cell that was there before at every other position.
    pub proof fn lemma_read_after_write(&self, pos: Pos, cell: Cell, q: Pos)
        requires
            self.wf(),
            pos.x < self.size().width,
            pos.y < self.size().height,
            q.x < self.size().width,
            q.y < self.size().height,
        ensures
            self.cells().update(pos.y * self.size().width + pos.x, cell)[q.y * self.size().width + q.x]
                == if q == pos {
                cell
            } else {
                self.cells()[q.y * self.size().width + q.x]
            },
    {
        let w = self.size().width as int;
        let h = self.size().height as int;
        lemma_cell_index(pos.x as int, pos.y as int, w, h);
        lemma_cell_index(q.x as int, q.y as int, w, h);
    }

    /// A buffer of blank, clean cells.
    pub fn new(size: Size) -> (r: CellBuffer)
        requires
            size.width * size.height <= usize::MAX,
        ensures
            r.wf(),
            r.size() == size,
            forall|i: int|
                0 <= i < r.cells().len() ==> (#[trigger] r.cells()[i]).is_blank(index_pos(i, size.width as int))
                    && !r.cells()[i].dirty,
    {
        let n = size.width * size.height;
        let mut cells: Vec<Cell> = Vec::new();
        let mut i: usize = 0;
        while i < n
            invariant
                n == size.width * size.height,
                i <= n,
                cells@.len() == i,
                size.width > 0 || n == 0,
                forall|j: int|
                    0 <= j < i ==> (#[trigger] cells@[j]).is_blank(index_pos(j, size.width as int))
                        && !cells@[j].dirty,
            decreases n - i,
        {
            cells.push(Cell::new(Pos::new(i % size.width, i / size.width)));
            i = i + 1;
        }
        CellBuffer { rect: Rect::new(Pos::new(0, 0), size), cells: cells }
    }

    fn pos_to_index(pos: &Pos, width: usize) -> (r: usize)
        requires
            pos.y * width + pos.x <= usize::MAX,
        ensures
            r == pos.y * width + pos.x,
    {
        (pos.y * width) + pos.x
    }

    /// The cell at `pos`.
    pub fn index(&self, pos: Pos) -> (r: &Cell)
        requires
            self.wf(),
            pos.x < self.size().width,
            pos.y < self.size().height,
        ensures
            *r == self.cells()[pos.y * self.size().width + pos.x],
            r.pos == pos,
    {
        proof {
            lemma_cell_index(pos.x as int, pos.y as int, self.rect.size.width as int, self.rect.size.height as int);
        }
        let i = CellBuffer::pos_to_index(&pos, self.rect.size.width);
        &self.cells[i]
    }

    /// The cell at `pos`, to change it. Its position is kept.
    pub fn set_cell(&mut self, pos: Pos, cell: Cell)
        requires
            old(self).wf(),
            pos.x < old(self).size().width,
            pos.y < old(self).size().height,
            cell.pos == pos,
        ensures
            final(self).wf(),
            final(self).size() == old(self).size(),
            final(self).cells() == old(self).cells().update(pos.y * old(self).size().width + pos.x, cell),
    {
        proof {
            lemma_cell_index(pos.x as int, pos.y as int, self.rect.size.width as int, self.rect.size.height as int);
        }
        let i = CellBuffer::pos_to_index(&pos, self.rect.size.width);
        self.cells.set(i, cell);
    }

    /// The cells, row after row, to change them; the buffer keeps its size.
    pub fn iter_mut(&mut self) -> (r: &mut Vec<Cell>)
        ensures
            r@ == old(self).cells(),
            final(self).cells() == final(r)@,
            final(self).size() == old(self).size(),
    {
        &mut self.cells
    }

    /// The cells, row after row.
    pub fn iter(&self) -> (r: &Vec<Cell>)
        ensures
            r@ == self.cells(),
    {
        &self.cells
    }
}

} // verus!
