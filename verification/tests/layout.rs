use intermix::client::layout::layout::Layout;
use intermix::client::layout::wrap_builder::WrapBuilder;
use intermix::client::layout::Align;
use intermix::geom::Size;

fn screen(width: usize, height: usize) -> Layout {
    Layout::new(Size { width: width, height: height })
}

#[test]
fn layout_new_has_only_the_root() {
    let layout = screen(80, 24);
    assert_eq!(layout.wraps().len(), 1);
    assert_eq!(layout.wraps()[0].name(), "root");
    assert_eq!(layout.wraps()[0].grid_width(), Some(12));
}

#[test]
fn layout_root_fills_the_screen() {
    let mut layout = screen(80, 24);
    layout.flush_changes();
    let root = &layout.wraps()[0];
    assert_eq!(root.outside_x(), Some(0));
    assert_eq!(root.outside_y(), Some(0));
    assert_eq!(root.outside_width(), Some(80));
    assert_eq!(root.outside_height(), Some(24));
    assert_eq!(root.computed_grid_width(), Some(12));
}

#[test]
fn layout_status_line_takes_one_row_of_the_full_width() {
    let mut layout = screen(80, 24);
    let status = WrapBuilder::row().name("status_line".to_string()).height(1).build();
    assert_eq!(layout.append(0, status), 1);
    layout.flush_changes();
    let w = &layout.wraps()[1];
    assert_eq!(w.computed_x(), Some(0));
    assert_eq!(w.computed_y(), Some(0));
    assert_eq!(w.computed_width(), Some(80));
    assert_eq!(w.computed_height(), Some(1));
    assert_eq!(w.computed_grid_width(), Some(12));
    assert!(!w.is_new_line());
}

#[test]
fn layout_second_row_starts_a_new_line_and_the_excess_height_is_cut_in_proportion() {
    let mut layout = screen(80, 24);
    layout.append(0, WrapBuilder::row().name("status_line".to_string()).height(1).build());
    layout.append(0, WrapBuilder::row().name("p1".to_string()).height(24).width(80).margin(1).build());
    layout.flush_changes();
    let status = &layout.wraps()[1];
    let program = &layout.wraps()[2];
    assert!(program.is_new_line());
    // 25 rows asked of 24: 1 * 24 / 25 = 0.96 and 24 * 24 / 25 = 23.04, the spare row going to
    // the status line, which rounding loses the most to
    assert_eq!(status.computed_height(), Some(1));
    assert_eq!(program.computed_x(), Some(1));
    assert_eq!(program.computed_y(), Some(2));
    assert_eq!(program.computed_width(), Some(78));
    assert_eq!(program.computed_height(), Some(21));
    assert_eq!(program.outside_width(), Some(80));
    assert_eq!(program.outside_height(), Some(23));
}

#[test]
fn layout_rounded_off_columns_go_in_line_order_when_the_losses_are_equal() {
    let mut layout = screen(10, 5);
    for name in ["a", "b", "c"] {
        layout.append(0, WrapBuilder::col(4).name(name.to_string()).build());
    }
    assert!(layout.try_flush_changes());
    let ws = layout.wraps();
    assert_eq!(ws[1].computed_width(), Some(4));
    assert_eq!(ws[2].computed_width(), Some(3));
    assert_eq!(ws[3].computed_width(), Some(3));
    assert_eq!(ws[1].computed_x(), Some(0));
    assert_eq!(ws[2].computed_x(), Some(4));
    assert_eq!(ws[3].computed_x(), Some(7));
    assert_eq!(ws[1].computed_height(), Some(5));
    assert_eq!(ws[3].computed_y(), Some(0));
    assert!(!ws[2].is_new_line());
}

#[test]
fn layout_centered_line_is_offset_by_half_the_unused_columns() {
    let mut layout = screen(10, 5);
    layout.wrap_mut(0).set_align(Align::Center);
    layout.append(0, WrapBuilder::col(6).name("a".to_string()).build());
    layout.flush_changes();
    let a = &layout.wraps()[1];
    assert_eq!(a.computed_width(), Some(5));
    assert_eq!(a.computed_x(), Some(3));
}

#[test]
fn layout_child_of_a_child_is_placed_inside_its_parent() {
    let mut layout = screen(20, 10);
    let outer = layout.append(0, WrapBuilder::row().name("outer".to_string()).margin(2).build());
    let inner = layout.append(outer, WrapBuilder::col(6).name("inner".to_string()).build());
    layout.flush_changes();
    let ws = layout.wraps();
    assert_eq!(ws[outer].computed_x(), Some(2));
    assert_eq!(ws[outer].computed_width(), Some(16));
    assert_eq!(ws[inner].computed_x(), Some(2));
    assert_eq!(ws[inner].computed_width(), Some(8));
    assert_eq!(ws[outer].computed_height(), Some(6));
    assert_eq!(ws[inner].computed_height(), Some(6));
    assert_eq!(ws[inner].computed_y(), Some(2));
}

#[test]
fn layout_flush_fails_when_a_margin_does_not_fit() {
    let mut layout = screen(10, 5);
    layout.append(0, WrapBuilder::row().name("wide".to_string()).margin(10).build());
    assert!(!layout.try_flush_changes());
}

#[test]
fn layout_flush_fails_when_the_screen_is_smaller_than_the_root_margin() {
    let mut layout = screen(1, 1);
    layout.wrap_mut(0).set_margin(1);
    assert!(!layout.try_flush_changes());
}

#[test]
fn layout_a_full_line_fills_the_width() {
    let mut layout = screen(37, 5);
    layout.append(0, WrapBuilder::col(5).name("a".to_string()).margin(1).build());
    layout.append(0, WrapBuilder::col(7).name("b".to_string()).build());
    assert!(layout.try_flush_changes());
    let ws = layout.wraps();
    // 37 * 5 / 12 = 15.42 and 37 * 7 / 12 = 21.58: the spare column goes to the larger loss
    assert_eq!(ws[1].outside_width(), Some(15));
    assert_eq!(ws[2].outside_width(), Some(22));
    assert_eq!(ws[1].outside_width().unwrap() + ws[2].outside_width().unwrap(), 37);
    assert_eq!(ws[1].computed_width(), Some(13));
}

#[test]
fn layout_a_part_line_fills_its_rounded_columns() {
    let mut layout = screen(10, 5);
    layout.append(0, WrapBuilder::col(5).name("a".to_string()).build());
    assert!(layout.try_flush_changes());
    // 5 of 12 columns of 10 is 4.17 columns, rounded to 4
    assert_eq!(layout.wraps()[1].outside_width(), Some(4));
}

#[test]
fn layout_rows_without_a_height_share_what_is_left() {
    let mut layout = screen(10, 10);
    layout.append(0, WrapBuilder::row().name("a".to_string()).height(1).build());
    layout.append(0, WrapBuilder::row().name("b".to_string()).build());
    layout.append(0, WrapBuilder::row().name("c".to_string()).build());
    assert!(layout.try_flush_changes());
    let ws = layout.wraps();
    assert_eq!(ws[1].computed_height(), Some(1));
    assert_eq!(ws[2].computed_height(), Some(5));
    assert_eq!(ws[3].computed_height(), Some(4));
    assert_eq!(ws[3].computed_y(), Some(6));
}

#[test]
fn layout_spare_columns_go_to_the_children_rounding_loses_most_to() {
    let mut layout = screen(10, 5);
    layout.append(0, WrapBuilder::col(3).name("a".to_string()).build());
    layout.append(0, WrapBuilder::col(8).name("b".to_string()).build());
    assert!(layout.try_flush_changes());
    let ws = layout.wraps();
    // 2.5 and 6.67 columns: 9 in all, and the spare column goes to the 0.67 loss
    assert_eq!(ws[1].outside_width(), Some(2));
    assert_eq!(ws[2].outside_width(), Some(7));
}

#[test]
fn layout_rows_too_tall_for_the_screen_are_cut_in_proportion_and_always_fit() {
    let mut layout = screen(10, 10);
    layout.append(0, WrapBuilder::row().name("a".to_string()).height(1).build());
    layout.append(0, WrapBuilder::row().name("b".to_string()).height(1).build());
    layout.append(0, WrapBuilder::row().name("c".to_string()).height(20).build());
    assert!(layout.try_flush_changes());
    let ws = layout.wraps();
    // 22 rows asked of 10: 0.45, 0.45 and 9.09; the spare row goes to the first line
    assert_eq!(ws[1].outside_height(), Some(1));
    assert_eq!(ws[2].outside_height(), Some(0));
    assert_eq!(ws[3].outside_height(), Some(9));
    assert_eq!(ws[3].computed_y(), Some(1));
}
