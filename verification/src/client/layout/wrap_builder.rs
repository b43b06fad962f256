use vstd::prelude::*;

use super::wrap::{Wrap, WrapView};
use super::{Align, VerticalAlign, GRID_COLUMNS_COUNT};

verus! {

/// Collects the settings of a `Wrap` and builds it; settings left unset keep the `Wrap::new()`
/// value.
pub struct WrapBuilder {
    align: Option<Align>,
    grid_width: Option<usize>,
    has_border: Option<bool>,
    height: Option<usize>,
    margin: Option<usize>,
    name: Option<String>,
    padding: Option<usize>,
    vertical_align: Option<VerticalAlign>,
    width: Option<usize>,
}

/// The mathematical value of a `WrapBuilder`.
pub struct WrapBuilderView {
    pub align: Option<Align>,
    pub grid_width: Option<usize>,
    pub has_border: Option<bool>,
    pub height: Option<usize>,
    pub margin: Option<usize>,
    pub name: Option<Seq<char>>,
    pub padding: Option<usize>,
    pub vertical_align: Option<VerticalAlign>,
    pub width: Option<usize>,
}

pub open spec fn or_else<T>(o: Option<T>, d: T) -> T {
    match o {
        Some(v) => v,
        None => d,
    }
}

impl WrapBuilderView {
    /// A builder with only the grid width set.
    pub open spec fn with_grid_width(grid_width: usize) -> WrapBuilderView {
        WrapBuilderView {
            align: None,
            grid_width: Some(grid_width),
            has_border: None,
            height: None,
            margin: None,
            name: None,
            padding: None,
            vertical_align: None,
            width: None,
        }
    }

    /// The wrap that building gives: each set value over the default wrap.
    pub open spec fn built(self) -> WrapView {
        let d = WrapView::empty();
        WrapView {
            align: or_else(self.align, d.align),
            grid_width: if self.grid_width is Some { self.grid_width } else { d.grid_width },
            has_border: or_else(self.has_border, d.has_border),
            height: if self.height is Some { self.height } else { d.height },
            margin: or_else(self.margin, d.margin),
            name: or_else(self.name, d.name),
            padding: or_else(self.padding, d.padding),
            vertical_align: or_else(self.vertical_align, d.vertical_align),
            width: if self.width is Some { self.width } else { d.width },
            ..d
        }
    }
}

impl View for WrapBuilder {
    type V = WrapBuilderView;

    closed spec fn view(&self) -> WrapBuilderView {
        WrapBuilderView {
            align: self.align,
            grid_width: self.grid_width,
            has_border: self.has_border,
            height: self.height,
            margin: self.margin,
            name: match self.name {
                Some(n) => Some(n@),
                None => None,
            },
            padding: self.padding,
            vertical_align: self.vertical_align,
            width: self.width,
        }
    }
}

impl WrapBuilder {
    /// call this to create a column
    pub fn col(val: usize) -> (r: WrapBuilder)
        ensures
            r@ == WrapBuilderView::with_grid_width(val),
    {
        WrapBuilder {
            align: None,
            grid_width: Some(val),
            has_border: None,
            height: None,
            margin: None,
            name: None,
            padding: None,
            vertical_align: None,
            width: None,
        }
    }

    /// call this to create a row
    pub fn row() -> (r: WrapBuilder)
        ensures
            r@ == WrapBuilderView::with_grid_width(GRID_COLUMNS_COUNT),
    {
        WrapBuilder {
            align: None,
            grid_width: Some(GRID_COLUMNS_COUNT),
            has_border: None,
            height: None,
            margin: None,
            name: None,
            padding: None,
            vertical_align: None,
            width: None,
        }
    }

    pub fn align(self, val: Align) -> (r: WrapBuilder)
        ensures
            r@ == (WrapBuilderView { align: Some(val), ..self@ }),
    {
        let mut b = self;
        b.align = Some(val);
        b
    }

    pub fn grid_width(self, val: usize) -> (r: WrapBuilder)
        ensures
            r@ == (WrapBuilderView { grid_width: Some(val), ..self@ }),
    {
        let mut b = self;
        b.grid_width = Some(val);
        b
    }

    pub fn has_border(self, val: bool) -> (r: WrapBuilder)
        ensures
            r@ == (WrapBuilderView { has_border: Some(val), ..self@ }),
    {
        let mut b = self;
        b.has_border = Some(val);
        b
    }

    pub fn height(self, val: usize) -> (r: WrapBuilder)
        ensures
            r@ == (WrapBuilderView { height: Some(val), ..self@ }),
    {
        let mut b = self;
        b.height = Some(val);
        b
    }

    pub fn margin(self, val: usize) -> (r: WrapBuilder)
        ensures
            r@ == (WrapBuilderView { margin: Some(val), ..self@ }),
    {
        let mut b = self;
        b.margin = Some(val);
        b
    }

    pub fn name(self, val: String) -> (r: WrapBuilder)
        ensures
            r@ == (WrapBuilderView { name: Some(val@), ..self@ }),
    {
        let mut b = self;
        b.name = Some(val);
        b
    }

    pub fn padding(self, val: usize) -> (r: WrapBuilder)
        ensures
            r@ == (WrapBuilderView { padding: Some(val), ..self@ }),
    {
        let mut b = self;
        b.padding = Some(val);
        b
    }

    pub fn vertical_align(self, val: VerticalAlign) -> (r: WrapBuilder)
        ensures
            r@ == (WrapBuilderView { vertical_align: Some(val), ..self@ }),
    {
        let mut b = self;
        b.vertical_align = Some(val);
        b
    }

    pub fn width(self, val: usize) -> (r: WrapBuilder)
        ensures
            r@ == (WrapBuilderView { width: Some(val), ..self@ }),
    {
        let mut b = self;
        b.width = Some(val);
        b
    }

    /// Builds the wrap: every setting that was given is applied to a new wrap.
    pub fn build(self) -> (r: Wrap)
        ensures
            r@ == self@.built(),
    {
        let mut wrap = Wrap::new();

        if let Some(v) = self.align {
            wrap.set_align(v);
        }
        if self.grid_width.is_some() {
            wrap.set_grid_width(self.grid_width);
        }
        if let Some(v) = self.has_border {
            wrap.set_has_border(v);
        }
        if self.height.is_some() {
            wrap.set_height(self.height);
        }
        if let Some(v) = self.margin {
            wrap.set_margin(v);
        }
        if let Some(v) = self.name {
            wrap.set_name(v);
        }
        if let Some(v) = self.padding {
            wrap.set_padding(v);
        }
        if let Some(v) = self.vertical_align {
            wrap.set_vertical_align(v);
        }
        if self.width.is_some() {
            wrap.set_width(self.width);
        }

        wrap
    }
}

} // verus!
