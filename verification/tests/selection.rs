use intermix::client::layout::layout::Layout;
use intermix::client::layout::wrap_builder::WrapBuilder;
use intermix::client::selection::{leaf_names, mark_selected, select_next, select_prev};
use intermix::geom::Size;

fn names(v: &[&str]) -> Vec<String> {
    v.iter().map(|s| s.to_string()).collect()
}

fn layout_with_programs() -> Layout {
    let mut layout = Layout::new(Size { width: 80, height: 24 });
    layout.append(0, WrapBuilder::row().name("status_line".to_string()).height(1).build());
    layout.append(0, WrapBuilder::row().name("p1".to_string()).build());
    layout.append(0, WrapBuilder::row().name("p2".to_string()).build());
    layout
}

#[test]
fn selection_leaf_names_skip_root_and_status_line() {
    let layout = layout_with_programs();
    assert_eq!(leaf_names(&layout), names(&["p1", "p2"]));
}

#[test]
fn selection_next_goes_round() {
    let n = names(&["p1", "p2"]);
    assert_eq!(select_next(&n, &None), Some("p1".to_string()));
    assert_eq!(select_next(&n, &Some("p1".to_string())), Some("p2".to_string()));
    assert_eq!(select_next(&n, &Some("p2".to_string())), Some("p1".to_string()));
    assert_eq!(select_next(&n, &Some("gone".to_string())), Some("p1".to_string()));
    assert_eq!(select_next(&names(&[]), &Some("p1".to_string())), None);
}

#[test]
fn selection_prev_stops_at_the_first() {
    let n = names(&["p1", "p2", "p3"]);
    assert_eq!(select_prev(&n, &Some("p3".to_string())), "p2");
    assert_eq!(select_prev(&n, &Some("p1".to_string())), "p1");
    assert_eq!(select_prev(&n, &None), "p1");
    assert_eq!(select_prev(&n, &Some("gone".to_string())), "p1");
}

#[test]
fn selection_marks_the_selected_program_with_a_border() {
    let mut layout = layout_with_programs();
    mark_selected(&mut layout, &"p2".to_string());
    let ws = layout.wraps();
    assert!(!ws[0].has_border());
    assert!(!ws[1].has_border());
    assert_eq!(ws[1].margin(), 0);
    assert!(!ws[2].has_border());
    assert_eq!(ws[2].margin(), 1);
    assert!(ws[3].has_border());
    assert_eq!(ws[3].margin(), 0);
}
