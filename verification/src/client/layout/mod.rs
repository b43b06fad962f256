use vstd::prelude::*;

pub mod flush_laws;
pub mod layout;
pub mod line_laws;
pub mod node;
pub mod passes;
pub mod screen;
pub mod tree;
pub mod wrap;
pub mod wrap_builder;

verus! {

/// Number of columns in the grid that wraps are sized against.
pub const GRID_COLUMNS_COUNT: usize = 12;

/// Horizontal alignment of the lines of a wrap's children.
#[derive(Debug, Copy, Clone, PartialEq, Eq, Structural)]
pub enum Align {
    Left,
    Center,
    Right,
}

impl Default for Align {
    fn default() -> (r: Align)
        ensures
            r == Align::Left,
    {
        Align::Left
    }
}

/// Vertical alignment of the lines of a wrap's children.
#[derive(Debug, Copy, Clone, PartialEq, Eq, Structural)]
pub enum VerticalAlign {
    Top,
    Middle,
    Bottom,
}

impl Default for VerticalAlign {
    fn default() -> (r: VerticalAlign)
        ensures
            r == VerticalAlign::Top,
    {
        VerticalAlign::Top
    }
}

} // verus!
