use intermix::client::draw_worker::draw_border_for_node;
use intermix::client::layout::wrap::Wrap;
use intermix::geom::{Pos, ScreenSize};

fn placed(x: usize, y: usize, width: usize, height: usize) -> Wrap {
    let mut wrap = Wrap::new();
    wrap.set_computed_x(Some(x));
    wrap.set_computed_y(Some(y));
    wrap.set_computed_width(Some(width));
    wrap.set_computed_height(Some(height));
    wrap
}

fn glyph(s: &str) -> Vec<u8> {
    s.as_bytes().to_vec()
}

#[test]
fn draw_border_for_node_draws_corners_then_edges() {
    let mut wrap = placed(1, 1, 2, 1);
    wrap.set_has_border(true);
    let draws = draw_border_for_node(&wrap, &ScreenSize { rows: 10, cols: 10 }).unwrap();
    let expected = vec![
        (Pos::new(0, 0), glyph("┌")),
        (Pos::new(3, 0), glyph("┐")),
        (Pos::new(0, 2), glyph("└")),
        (Pos::new(3, 2), glyph("┘")),
        (Pos::new(1, 0), glyph("─")),
        (Pos::new(1, 2), glyph("─")),
        (Pos::new(2, 0), glyph("─")),
        (Pos::new(2, 2), glyph("─")),
        (Pos::new(0, 1), glyph("│")),
        (Pos::new(3, 1), glyph("│")),
    ];
    assert_eq!(draws.len(), expected.len());
    for (d, e) in draws.iter().zip(expected.iter()) {
        assert_eq!(d.0.x, e.0.x);
        assert_eq!(d.0.y, e.0.y);
        assert_eq!(d.1, e.1);
    }
}

#[test]
fn draw_border_for_node_cuts_the_border_to_the_screen() {
    let mut wrap = placed(0, 0, 20, 1);
    wrap.set_has_border(true);
    let draws = draw_border_for_node(&wrap, &ScreenSize { rows: 5, cols: 5 }).unwrap();
    // top 0, bottom 1, left 0, right 4: four corners, three columns of edges, no rows between
    assert_eq!(draws.len(), 4 + 6);
    assert_eq!((draws[1].0.x, draws[1].0.y), (4, 0));
    assert_eq!((draws[3].0.x, draws[3].0.y), (4, 1));
}

#[test]
fn draw_border_for_node_clears_the_margin_ring() {
    let mut wrap = placed(2, 2, 1, 1);
    wrap.set_margin(1);
    let draws = draw_border_for_node(&wrap, &ScreenSize { rows: 10, cols: 10 }).unwrap();
    // the ring from (1, 1) to (3, 3): three columns on two rows, then one row on two columns
    assert_eq!(draws.len(), 8);
    assert!(draws.iter().all(|d| d.1 == b" ".to_vec()));
    assert_eq!((draws[0].0.x, draws[0].0.y), (1, 1));
    assert_eq!((draws[1].0.x, draws[1].0.y), (1, 3));
    assert_eq!((draws[6].0.x, draws[6].0.y), (1, 2));
    assert_eq!((draws[7].0.x, draws[7].0.y), (3, 2));
}

#[test]
fn draw_border_for_node_draws_nothing_without_border_or_margin() {
    let wrap = placed(2, 2, 1, 1);
    assert_eq!(draw_border_for_node(&wrap, &ScreenSize { rows: 10, cols: 10 }).unwrap().len(), 0);
}

#[test]
fn draw_border_for_node_needs_a_computed_area() {
    let mut wrap = Wrap::new();
    wrap.set_has_border(true);
    assert!(draw_border_for_node(&wrap, &ScreenSize { rows: 10, cols: 10 }).is_none());
}
