use vstd::prelude::*;

use crate::cell_buffer::cell::Cell;
use crate::cell_buffer::cell_buffer::{index_pos, lemma_cell_index, CellBuffer};
use crate::client::main_worker::same_look;
use crate::geom::Size;

verus! {

/// A cell is to be painted: it is dirty and lies on a tty of the given size.
pub open spec fn to_paint(c: Cell, size: Size) -> bool {
    c.dirty && c.pos.x < size.width && c.pos.y < size.height
}

/// `b` is `a` marked clean.
pub open spec fn cleaned(a: Cell, b: Cell) -> bool {
    &&& same_look(a, b)
    &&& b.chars@ == a.chars@
    &&& !b.dirty
}

/// The cells of `cells[..i]` to paint, in order.
pub open spec fn paint_cells(cells: Seq<Cell>, size: Size, i: int) -> Seq<Cell>
    decreases i,
{
    if 0 < i <= cells.len() {
        let prev = paint_cells(cells, size, i - 1);
        if to_paint(cells[i - 1], size) {
            prev.push(cells[i - 1])
        } else {
            prev
        }
    } else {
        Seq::empty()
    }
}

/// The cell marked clean.
fn clean_copy(c: &Cell) -> (r: Cell)
    ensures
        cleaned(*c, r),
        r.pos == c.pos,
{
    Cell {
        bg_palette: c.bg_palette,
        bg_rgb: c.bg_rgb,
        blink: c.blink,
        bold: c.bold,
        chars: c.chars.clone(),
        dhl: c.dhl,
        dirty: false,
        dwl: c.dwl,
        fg_palette: c.fg_palette,
        fg_rgb: c.fg_rgb,
        font: c.font,
        italic: c.italic,
        pos: c.pos,
        reverse: c.reverse,
        strike: c.strike,
        underline: c.underline,
        width: c.width,
    }
}

/// What painting the screen on a tty of the given size draws: the dirty cells that lie on the
/// tty, in the screen's order, each marked clean. Every dirty cell of the screen is marked clean,
/// painted or not; the other cells stay as they are.
pub fn paint_plan(screen: &mut CellBuffer, size: Size) -> (r: Vec<Cell>)
    requires
        old(screen).wf(),
    ensures
        final(screen).wf(),
        final(screen).size() == old(screen).size(),
        final(screen).cells().len() == old(screen).cells().len(),
        forall|i: int|
            0 <= i < old(screen).cells().len() ==> if old(screen).cells()[i].dirty {
                cleaned(old(screen).cells()[i], #[trigger] final(screen).cells()[i])
            } else {
                final(screen).cells()[i] == old(screen).cells()[i]
            },
        r@.len() == paint_cells(old(screen).cells(), size, old(screen).cells().len() as int).len(),
        forall|k: int|
            0 <= k < r@.len() ==> cleaned(
                paint_cells(old(screen).cells(), size, old(screen).cells().len() as int)[k],
                #[trigger] r@[k],
            ),
{
    proof {
        screen.lemma_cells();
    }
    let ghost before = screen.cells();
    let ghost width = screen.size().width as int;
    let ghost height = screen.size().height as int;
    let n = screen.iter().len();
    let mut plan: Vec<Cell> = Vec::new();
    let mut i: usize = 0;
    while i < n
        invariant
            screen.wf(),
            screen.size() == old(screen).size(),
            before == old(screen).cells(),
            width == screen.size().width,
            height == screen.size().height,
            n == before.len(),
            screen.cells().len() == n,
            n == width * height,
            i <= n,
            forall|j: int| 0 <= j < n ==> (#[trigger] before[j]).pos == index_pos(j, width),
            forall|j: int|
                0 <= j < i ==> if before[j].dirty {
                    cleaned(before[j], #[trigger] screen.cells()[j])
                } else {
                    screen.cells()[j] == before[j]
                },
            forall|j: int| i <= j < n ==> #[trigger] screen.cells()[j] == before[j],
            plan@.len() == paint_cells(before, size, i as int).len(),
            forall|k: int| 0 <= k < plan@.len() ==> cleaned(paint_cells(before, size, i as int)[k], #[trigger] plan@[k]),
        decreases n - i,
    {
        let cell = &screen.iter()[i];
        assert(*cell == before[i as int]);
        if cell.dirty {
            let clean = clean_copy(cell);
            let on_tty = cell.pos.x < size.width && cell.pos.y < size.height;
            let pos = cell.pos;
            proof {
                assert(width > 0 && (i as int) / width < height) by (nonlinear_arith)
                    requires
                        i < n,
                        n == width * height,
                        width >= 0,
                ;
                assert(pos == index_pos(i as int, width));
                lemma_cell_index((i as int) % width, (i as int) / width, width, height);
                assert(pos.y * width + pos.x == i) by (nonlinear_arith)
                    requires
                        pos.x == (i as int) % width,
                        pos.y == (i as int) / width,
                        width > 0,
                ;
            }
            let ghost prev_cells = screen.cells();
            if on_tty {
                let copy = clean_copy(&clean);
                plan.push(copy);
            }
            screen.set_cell(pos, clean);
            assert forall|j: int| 0 <= j < i + 1 implies if before[j].dirty {
                cleaned(before[j], #[trigger] screen.cells()[j])
            } else {
                screen.cells()[j] == before[j]
            } by {
                if j != i {
                    assert(screen.cells()[j] == prev_cells[j]);
                }
            }
            assert forall|j: int| i + 1 <= j < n implies #[trigger] screen.cells()[j] == before[j] by {
                assert(screen.cells()[j] == prev_cells[j]);
            }
        }
        proof {
            let p0 = paint_cells(before, size, i as int);
            assert(paint_cells(before, size, i + 1) == if to_paint(before[i as int], size) {
                p0.push(before[i as int])
            } else {
                p0
            });
        }
        i = i + 1;
    }
    plan
}

} // verus!
