use intermix::client::layout::wrap::Wrap;
use intermix::client::layout::wrap_builder::WrapBuilder;
use intermix::client::layout::{Align, VerticalAlign};

#[test]
fn wrap_new_is_empty() {
    let w = Wrap::new();
    assert_eq!(w.name(), "");
    assert_eq!(w.grid_width(), None);
    assert_eq!(w.computed_width(), None);
    assert_eq!(w.outside_width(), None);
    assert_eq!(w.align(), Align::Left);
    assert_eq!(w.vertical_align(), VerticalAlign::Top);
}

#[test]
fn wrap_outside_adds_margin_padding_and_border() {
    let mut w = Wrap::new();
    w.set_margin(2);
    w.set_padding(1);
    w.set_has_border(true);
    w.set_outside_width(Some(20));
    w.set_outside_height(Some(10));
    w.set_outside_x(Some(3));
    w.set_outside_y(Some(4));
    assert_eq!(w.computed_width(), Some(12));
    assert_eq!(w.computed_height(), Some(2));
    assert_eq!(w.computed_x(), Some(7));
    assert_eq!(w.computed_y(), Some(8));
    assert_eq!(w.outside_width(), Some(20));
    assert_eq!(w.outside_height(), Some(10));
    assert_eq!(w.outside_x(), Some(3));
    assert_eq!(w.outside_y(), Some(4));
    assert_eq!(w.border_width(), Some(16));
    assert_eq!(w.border_height(), Some(6));
    assert_eq!(w.border_x(), Some(5));
    assert_eq!(w.border_y(), Some(6));
    w.set_outside_width(None);
    assert_eq!(w.computed_width(), None);
}

#[test]
fn wrap_builder_applies_its_settings() {
    let w = WrapBuilder::col(4).name("n".to_string()).height(3).width(9).margin(1).padding(2).has_border(true)
        .align(Align::Right).vertical_align(VerticalAlign::Bottom).build();
    assert_eq!(w.grid_width(), Some(4));
    assert_eq!(w.name(), "n");
    assert_eq!(w.height(), Some(3));
    assert_eq!(w.width(), Some(9));
    assert_eq!(w.margin(), 1);
    assert_eq!(w.padding(), 2);
    assert!(w.has_border());
    assert_eq!(w.align(), Align::Right);
    assert_eq!(w.vertical_align(), VerticalAlign::Bottom);
    assert_eq!(WrapBuilder::row().build().grid_width(), Some(12));
    assert!(!WrapBuilder::row().build().is_new_line());
}
