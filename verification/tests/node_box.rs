use intermix::cell_buffer::cell::Cell;
use intermix::cell_buffer::cell_buffer::CellBuffer;
use intermix::client::layout::wrap::Wrap;
use intermix::client::node_box::draw_node_box;
use intermix::geom::{Pos, Rect, Size};

fn glyph(buf: &CellBuffer, x: usize, y: usize) -> String {
    String::from_utf8(buf.index(Pos { x: x, y: y }).chars.clone()).unwrap()
}

fn bordered_wrap() -> Wrap {
    let mut w = Wrap::new();
    w.set_has_border(true);
    w.set_computed_x(Some(2));
    w.set_computed_y(Some(1));
    w.set_computed_width(Some(2));
    w.set_computed_height(Some(2));
    w
}

#[test]
fn node_box_draws_a_border_around_the_inside() {
    let size = Size { width: 6, height: 4 };
    let mut buf = CellBuffer::new(size);
    let mut marked = Cell::new(Pos { x: 2, y: 1 });
    marked.chars = vec![b'x'];
    buf.set_cell(Pos { x: 2, y: 1 }, marked);
    let mut outside = Cell::new(Pos { x: 0, y: 0 });
    outside.chars = vec![b'o'];
    buf.set_cell(Pos { x: 0, y: 0 }, outside);

    draw_node_box(&mut buf, &bordered_wrap(), &size);

    assert_eq!(glyph(&buf, 1, 0), "┌");
    assert_eq!(glyph(&buf, 4, 0), "┐");
    assert_eq!(glyph(&buf, 1, 3), "└");
    assert_eq!(glyph(&buf, 4, 3), "┘");
    assert_eq!(glyph(&buf, 2, 0), "─");
    assert_eq!(glyph(&buf, 3, 3), "─");
    assert_eq!(glyph(&buf, 1, 1), "│");
    assert_eq!(glyph(&buf, 4, 2), "│");
    assert_eq!(glyph(&buf, 2, 1), "x");
    assert_eq!(glyph(&buf, 0, 0), "o");
    assert!(buf.index(Pos { x: 1, y: 1 }).dirty);
    assert!(!buf.index(Pos { x: 2, y: 1 }).dirty);
    assert!(!buf.index(Pos { x: 5, y: 2 }).dirty);
}

#[test]
fn node_box_without_border_clears_the_margin() {
    let size = Size { width: 5, height: 5 };
    let mut buf = CellBuffer::new(size);
    let mut c = Cell::new(Pos { x: 0, y: 0 });
    c.chars = vec![b'z'];
    c.bold = true;
    buf.set_cell(Pos { x: 0, y: 0 }, c);
    let mut w = Wrap::new();
    w.set_margin(1);
    w.set_computed_x(Some(1));
    w.set_computed_y(Some(1));
    w.set_computed_width(Some(3));
    w.set_computed_height(Some(3));

    draw_node_box(&mut buf, &w, &size);

    let cleared = buf.index(Pos { x: 0, y: 0 });
    assert!(cleared.chars.is_empty());
    assert!(!cleared.bold);
    assert!(cleared.dirty);
    assert!(!buf.index(Pos { x: 2, y: 2 }).dirty);
    assert!(buf.index(Pos { x: 4, y: 4 }).dirty);
}

#[test]
fn rect_intersection_is_the_shared_cells() {
    let a = Rect { origin: Pos { x: 0, y: 0 }, size: Size { width: 4, height: 4 } };
    let b = Rect { origin: Pos { x: 2, y: 3 }, size: Size { width: 5, height: 5 } };
    assert_eq!(a.intersection(&b), Some(Rect { origin: Pos { x: 2, y: 3 }, size: Size { width: 2, height: 1 } }));
    let c = Rect { origin: Pos { x: 4, y: 0 }, size: Size { width: 1, height: 1 } };
    assert_eq!(a.intersection(&c), None);
    assert!(a.contains(&Pos { x: 3, y: 3 }));
    assert!(!a.contains(&Pos { x: 4, y: 3 }));
}
