use intermix::cell_buffer::cell::Cell;
use intermix::cell_buffer::cell_buffer::CellBuffer;
use intermix::client::paint::tty_painter::paint_plan;
use intermix::geom::{Pos, Size};

fn dirty(buf: &mut CellBuffer, x: usize, y: usize, ch: u8) {
    let mut cell = Cell::new(Pos::new(x, y));
    cell.dirty = true;
    cell.chars = vec![ch];
    buf.set_cell(Pos::new(x, y), cell);
}

#[test]
fn paint_plan_takes_the_dirty_cells_in_order_and_cleans_them() {
    let mut buf = CellBuffer::new(Size::new(3, 2));
    dirty(&mut buf, 2, 1, b'b');
    dirty(&mut buf, 1, 0, b'a');
    let plan = paint_plan(&mut buf, Size::new(3, 2));
    assert_eq!(plan.len(), 2);
    assert_eq!(plan[0].pos, Pos::new(1, 0));
    assert_eq!(plan[0].chars, b"a".to_vec());
    assert!(!plan[0].dirty);
    assert_eq!(plan[1].pos, Pos::new(2, 1));
    assert!(buf.iter().iter().all(|c| !c.dirty));
    assert_eq!(buf.index(Pos::new(1, 0)).chars, b"a".to_vec());
    assert!(paint_plan(&mut buf, Size::new(3, 2)).is_empty());
}

#[test]
fn paint_plan_skips_cells_off_the_tty_but_cleans_them() {
    let mut buf = CellBuffer::new(Size::new(3, 2));
    dirty(&mut buf, 2, 1, b'b');
    dirty(&mut buf, 0, 0, b'a');
    let plan = paint_plan(&mut buf, Size::new(2, 2));
    assert_eq!(plan.len(), 1);
    assert_eq!(plan[0].pos, Pos::new(0, 0));
    assert!(!buf.index(Pos::new(2, 1)).dirty);
}
