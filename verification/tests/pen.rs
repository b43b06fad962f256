use intermix::cell_buffer::cell::{ColorRGB, ScreenCell, ScreenCellAttr};
use intermix::client::paint::pen::{Cap, Pen};
use intermix::geom::{Pos, Size};

#[test]
fn pen_first_flush_sets_everything() {
    let mut pen = Pen::new();
    assert_eq!(
        pen.flush_caps(true),
        vec![Cap::Cup(0, 0), Cap::Sgr0, Cap::Ritm, Cap::Setaf(7), Cap::Setab(0), Cap::Cnorm]
    );
}

#[test]
fn pen_without_italic_support_leaves_italic_alone() {
    let mut pen = Pen::new();
    assert_eq!(pen.flush_caps(false), vec![Cap::Cup(0, 0), Cap::Sgr0, Cap::Setaf(7), Cap::Setab(0), Cap::Cnorm]);
}

#[test]
fn pen_second_flush_sends_nothing() {
    let mut pen = Pen::new();
    pen.flush_caps(true);
    assert!(pen.flush_caps(true).is_empty());
}

#[test]
fn pen_only_changes_are_sent() {
    let mut pen = Pen::new();
    pen.flush_caps(true);
    pen.bold = true;
    assert_eq!(pen.flush_caps(true), vec![Cap::Bold]);
    pen.bold = false;
    assert_eq!(pen.flush_caps(true), vec![Cap::Sgr0]);
    pen.visible = false;
    pen.fg = 3;
    assert_eq!(pen.flush_caps(true), vec![Cap::Civis, Cap::Setaf(3)]);
    pen.visible = true;
    pen.underline = 1;
    pen.pos = Pos { x: 4, y: 2 };
    assert_eq!(pen.flush_caps(true), vec![Cap::Cup(2, 4), Cap::Smul, Cap::Cnorm]);
}

#[test]
fn pen_cap_names_and_params() {
    assert_eq!(Cap::Cup(2, 4).name(), "cup");
    assert_eq!(Cap::Cup(2, 4).params(), vec![2, 4]);
    assert_eq!(Cap::Setab(9).name(), "setab");
    assert_eq!(Cap::Setab(9).params(), vec![9]);
    assert_eq!(Cap::Civis.name(), "civis");
    assert!(Cap::Cnorm.params().is_empty());
}

#[test]
fn pen_advances_along_rows_and_stays_on_the_last_cell() {
    let mut pen = Pen::new();
    pen.flush_caps(true);
    let size = Size { width: 2, height: 2 };
    pen.notify_of_advanced_pos(&size);
    assert_eq!(pen.pos, Pos { x: 1, y: 0 });
    pen.notify_of_advanced_pos(&size);
    assert_eq!(pen.pos, Pos { x: 0, y: 1 });
    pen.notify_of_advanced_pos(&size);
    assert_eq!(pen.pos, Pos { x: 1, y: 1 });
    assert!(pen.flush_caps(true).is_empty() == false);
    pen.notify_of_advanced_pos(&size);
    assert_eq!(pen.pos, Pos { x: 1, y: 1 });
    assert_eq!(pen.flush_caps(true), vec![Cap::Cup(1, 1)]);
}

#[test]
fn pen_takes_attributes_from_a_cell() {
    let mut pen = Pen::new();
    let cell = ScreenCell {
        chars: vec![b'x'],
        width: 1,
        attrs: ScreenCellAttr { bold: true, underline: 2, italic: true, blink: false, reverse: true, strike: true, font: 3, dwl: false, dhl: 0 },
        fg_rgb: ColorRGB { red: 1, green: 2, blue: 3 },
        bg_rgb: ColorRGB { red: 4, green: 5, blue: 6 },
        fg_palette: 2,
        bg_palette: 5,
    };
    pen.update_attrs_from_cell(&cell);
    assert!(pen.bold && pen.italic && pen.reverse && pen.strike && !pen.blink);
    assert_eq!(pen.underline, 2);
    assert_eq!(pen.font, 3);
    assert_eq!(pen.fg, 2);
    assert_eq!(pen.bg, 5);
    assert_eq!(pen.pos, Pos { x: 0, y: 0 });
}

fn terminal(strings: &[(&'static str, &str)]) -> term::terminfo::TermInfo {
    let mut map = std::collections::HashMap::new();
    for (name, s) in strings {
        map.insert(*name, s.as_bytes().to_vec());
    }
    term::terminfo::TermInfo {
        names: vec!["test".to_string()],
        bools: std::collections::HashMap::new(),
        numbers: std::collections::HashMap::new(),
        strings: map,
    }
}

#[test]
fn pen_flush_expands_the_terminal_strings() {
    let t = terminal(&[
        ("cup", "\x1b[%i%p1%d;%p2%dH"),
        ("sgr0", "\x1b[0m"),
        ("setaf", "F%p1%d"),
        ("setab", "B%p1%d"),
        ("cnorm", "N"),
    ]);
    let mut vars = term::terminfo::parm::Variables::new();
    let mut pen = Pen::new();
    let bytes = pen.flush(&t, &mut vars).unwrap();
    assert_eq!(bytes, b"\x1b[1;1H\x1b[0mF7B0N".to_vec());
    assert_eq!(pen.flush(&t, &mut vars).unwrap(), Vec::<u8>::new());
}

#[test]
fn pen_flush_fails_without_a_capability() {
    let t = terminal(&[("cup", "\x1b[%i%p1%d;%p2%dH"), ("sgr0", "\x1b[0m"), ("setaf", "F%p1%d"), ("setab", "B%p1%d")]);
    let mut vars = term::terminfo::parm::Variables::new();
    let mut pen = Pen::new();
    assert!(pen.flush(&t, &mut vars).is_none());
}

#[test]
fn pen_flush_refuses_a_capability_that_could_divide_by_zero() {
    let t = terminal(&[
        ("cup", "\x1b[%i%p1%d;%p2%dH"),
        ("sgr0", "\x1b[0m"),
        ("setaf", "F%p1%{0}%/%d"),
        ("setab", "B%p1%d"),
        ("cnorm", "N"),
    ]);
    let mut vars = term::terminfo::parm::Variables::new();
    let mut pen = Pen::new();
    assert!(pen.flush(&t, &mut vars).is_none());
}

#[test]
fn pen_flush_takes_subtraction_in_a_capability() {
    let t = terminal(&[
        ("cup", "\x1b[%i%p1%d;%p2%dH"),
        ("sgr0", "\x1b[0m"),
        ("setaf", "\x1b[%?%p1%{8}%<%t3%p1%d%e%p1%{16}%<%t9%p1%{8}%-%d%e38;5;%p1%d%;m"),
        ("setab", "B%p1%d"),
        ("cnorm", "N"),
    ]);
    let mut vars = term::terminfo::parm::Variables::new();
    let mut pen = Pen::new();
    assert_eq!(pen.flush(&t, &mut vars).unwrap(), b"\x1b[1;1H\x1b[0m\x1b[37mB0N".to_vec());
}

#[test]
fn pen_flush_takes_bitwise_operators_in_a_capability() {
    let t = terminal(&[
        ("cup", "\x1b[%i%p1%d;%p2%dH"),
        ("sgr0", "\x1b[0m"),
        ("setaf", "F%p1%{8}%|%d"),
        ("setab", "B%p1%{3}%^%{1}%&%~%d"),
        ("cnorm", "N"),
    ]);
    let mut vars = term::terminfo::parm::Variables::new();
    let mut pen = Pen::new();
    assert_eq!(pen.flush(&t, &mut vars).unwrap(), b"\x1b[1;1H\x1b[0mF15B-2N".to_vec());
}
