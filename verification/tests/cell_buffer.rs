use intermix::cell_buffer::cell::{Cell, ColorRGB, ScreenCell, ScreenCellAttr};
use intermix::cell_buffer::cell_buffer::CellBuffer;
use intermix::geom::{Pos, Size};

#[test]
fn cell_buffer_cells_know_their_positions() {
    let buf = CellBuffer::new(Size { width: 3, height: 2 });
    assert_eq!(buf.iter().len(), 6);
    assert_eq!(buf.index(Pos { x: 2, y: 1 }).pos, Pos { x: 2, y: 1 });
    assert_eq!(buf.iter()[4].pos, Pos { x: 1, y: 1 });
    assert!(buf.iter().iter().all(|c| !c.dirty && c.chars.is_empty() && c.fg_palette == 7));
}

#[test]
fn cell_buffer_set_cell_changes_one_cell() {
    let mut buf = CellBuffer::new(Size { width: 3, height: 2 });
    let mut cell = Cell::new(Pos { x: 0, y: 1 });
    cell.chars = vec![b'q'];
    buf.set_cell(Pos { x: 0, y: 1 }, cell);
    assert_eq!(buf.index(Pos { x: 0, y: 1 }).chars, vec![b'q']);
    assert_eq!(buf.iter()[3].chars, vec![b'q']);
    assert!(buf.iter()[2].chars.is_empty());
}

#[test]
fn cell_buffer_iter_mut_changes_cells_in_place() {
    let mut buf = CellBuffer::new(Size { width: 2, height: 2 });
    for cell in buf.iter_mut().iter_mut() {
        cell.dirty = true;
    }
    assert!(buf.iter().iter().all(|c| c.dirty));
    assert_eq!(buf.index(Pos { x: 1, y: 1 }).pos, Pos { x: 1, y: 1 });
}

#[test]
fn cell_clear_blanks_and_dirties() {
    let mut cell = Cell::new(Pos { x: 5, y: 6 });
    let vt = ScreenCell {
        chars: vec![b'z'],
        width: 1,
        attrs: ScreenCellAttr { bold: true, underline: 1, italic: false, blink: true, reverse: false, strike: false, font: 0, dwl: true, dhl: 1 },
        fg_rgb: ColorRGB { red: 9, green: 9, blue: 9 },
        bg_rgb: ColorRGB { red: 8, green: 8, blue: 8 },
        fg_palette: 1,
        bg_palette: 2,
    };
    cell.update_from_vterm_cell(&vt);
    assert_eq!(cell.chars, vec![b'z']);
    assert!(cell.bold && cell.blink && cell.dwl);
    assert_eq!(cell.dhl, 1);
    assert_eq!(cell.bg_rgb, ColorRGB { red: 8, green: 8, blue: 8 });
    assert_eq!(cell.pos, Pos { x: 5, y: 6 });
    cell.clear();
    assert!(cell.dirty);
    assert!(cell.chars.is_empty() && !cell.bold && !cell.blink);
    assert_eq!(cell.fg_palette, 7);
    assert_eq!(cell.bg_rgb, ColorRGB { red: 5, green: 5, blue: 5 });
    assert_eq!(cell.pos, Pos { x: 5, y: 6 });
}
