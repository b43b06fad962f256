use vstd::prelude::*;

verus! {

/// How many columns of a 12 column grid a node is wide.
#[derive(Debug, Clone, Copy, PartialEq, Eq, Structural)]
pub enum GridWidth {
    /// Fill the width of the parent container
    Max,
    /// Be at most this many grid columns wide.
    Cols(u16),
}

/// Horizontal alignment of a node's children.
#[derive(Debug, Clone, Copy, PartialEq, Eq, Structural)]
pub enum Align {
    Left,
    Center,
    Right,
}

impl Default for Align {
    fn default() -> (r: Align)
        ensures
            r == Align::Left,
    {
        Align::Left
    }
}

/// Vertical alignment of a node's children.
#[derive(Debug, Clone, Copy, PartialEq, Eq, Structural)]
pub enum VerticalAlign {
    Top,
    Middle,
    Bottom,
}

impl Default for VerticalAlign {
    fn default() -> (r: VerticalAlign)
        ensures
            r == VerticalAlign::Top,
    {
        VerticalAlign::Top
    }
}

/// The settings a node is made with.
#[derive(Debug, Clone, Copy, PartialEq, Eq, Structural, Default)]
pub struct NodeOptions {
    pub align: Align,
    pub vertical_align: VerticalAlign,
    pub height: Option<u16>,
    pub width: Option<u16>,
    pub padding: u16,
    pub margin: u16,
    pub has_border: bool,
}

} // verus!
