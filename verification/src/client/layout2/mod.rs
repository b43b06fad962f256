use vstd::prelude::*;

verus! {

/// Number of grid columns a full-width row spans.
pub const GRID_COLUMNS_COUNT: i16 = 12;

/// A rectangle of the screen layout, sized in whole cells; its computed values are filled in by the layout passes.
#[derive(Debug, Clone)]
pub struct Wrap {
    computed_grid_width: Option<i16>,
    computed_height: Option<i16>,
    computed_width: Option<i16>,
    computed_x: Option<i16>,
    computed_y: Option<i16>,
    grid_width: Option<i16>,
    height: Option<i16>,
    width: Option<i16>,
    is_new_line: bool,
    name: String,
}

/// The mathematical value of a `Wrap`.
pub struct WrapView {
    pub computed_grid_width: Option<i16>,
    pub computed_height: Option<i16>,
    pub computed_width: Option<i16>,
    pub computed_x: Option<i16>,
    pub computed_y: Option<i16>,
    pub grid_width: Option<i16>,
    pub height: Option<i16>,
    pub width: Option<i16>,
    pub is_new_line: bool,
    pub name: Seq<char>,
}

impl WrapView {
    /// The value `Wrap::new()` gives.
    pub open spec fn empty() -> WrapView {
        WrapView {
            computed_grid_width: None,
            computed_height: None,
            computed_width: None,
            computed_x: None,
            computed_y: None,
            grid_width: None,
            height: None,
            width: None,
            is_new_line: false,
            name: Seq::empty(),
        }
    }
}

impl View for Wrap {
    type V = WrapView;

    closed spec fn view(&self) -> WrapView {
        WrapView {
            computed_grid_width: self.computed_grid_width,
            computed_height: self.computed_height,
            computed_width: self.computed_width,
            computed_x: self.computed_x,
            computed_y: self.computed_y,
            grid_width: self.grid_width,
            height: self.height,
            width: self.width,
            is_new_line: self.is_new_line,
            name: self.name@,
        }
    }
}

impl Wrap {
    pub fn new() -> (r: Wrap)
        ensures
            r@ == WrapView::empty(),
    {
        Wrap {
            computed_grid_width: None,
            computed_height: None,
            computed_width: None,
            computed_x: None,
            computed_y: None,
            grid_width: None,
            height: None,
            width: None,
            is_new_line: false,
            name: String::new(),
        }
    }

    pub fn computed_grid_width(&self) -> (r: Option<i16>)
        ensures
            r == self@.computed_grid_width,
    {
        self.computed_grid_width
    }

    pub fn set_computed_grid_width(&mut self, val: i16)
        ensures
            final(self)@ == (WrapView { computed_grid_width: Some(val), ..old(self)@ }),
    {
        self.computed_grid_width = Some(val)
    }

    pub fn computed_height(&self) -> (r: Option<i16>)
        ensures
            r == self@.computed_height,
    {
        self.computed_height
    }

    pub fn set_computed_height(&mut self, val: i16)
        ensures
            final(self)@ == (WrapView { computed_height: Some(val), ..old(self)@ }),
    {
        self.computed_height = Some(val)
    }

    pub fn computed_width(&self) -> (r: Option<i16>)
        ensures
            r == self@.computed_width,
    {
        self.computed_width
    }

    pub fn set_computed_width(&mut self, val: i16)
        ensures
            final(self)@ == (WrapView { computed_width: Some(val), ..old(self)@ }),
    {
        self.computed_width = Some(val)
    }

    pub fn computed_x(&self) -> (r: Option<i16>)
        ensures
            r == self@.computed_x,
    {
        self.computed_x
    }

    pub fn set_computed_x(&mut self, val: i16)
        ensures
            final(self)@ == (WrapView { computed_x: Some(val), ..old(self)@ }),
    {
        self.computed_x = Some(val)
    }

    pub fn computed_y(&self) -> (r: Option<i16>)
        ensures
            r == self@.computed_y,
    {
        self.computed_y
    }

    pub fn set_computed_y(&mut self, val: i16)
        ensures
            final(self)@ == (WrapView { computed_y: Some(val), ..old(self)@ }),
    {
        self.computed_y = Some(val)
    }

    pub fn grid_width(&self) -> (r: Option<i16>)
        ensures
            r == self@.grid_width,
    {
        self.grid_width
    }

    pub fn set_grid_width(&mut self, val: i16)
        ensures
            final(self)@ == (WrapView { grid_width: Some(val), ..old(self)@ }),
    {
        self.grid_width = Some(val)
    }

    pub fn height(&self) -> (r: Option<i16>)
        ensures
            r == self@.height,
    {
        self.height
    }

    pub fn set_height(&mut self, val: i16)
        ensures
            final(self)@ == (WrapView { height: Some(val), ..old(self)@ }),
    {
        self.height = Some(val)
    }

    pub fn width(&self) -> (r: Option<i16>)
        ensures
            r == self@.width,
    {
        self.width
    }

    pub fn set_width(&mut self, val: i16)
        ensures
            final(self)@ == (WrapView { width: Some(val), ..old(self)@ }),
    {
        self.width = Some(val)
    }

    pub fn name(&self) -> (r: &String)
        ensures
            r@ == self@.name,
    {
        &self.name
    }

    pub fn set_name(&mut self, val: String)
        ensures
            final(self)@ == (WrapView { name: val@, ..old(self)@ }),
    {
        self.name = val
    }

    pub fn is_new_line(&self) -> (r: bool)
        ensures
            r == self@.is_new_line,
    {
        self.is_new_line
    }

    /// The height including the box model around it, which is only the computed height so far.
    pub fn outside_height(&self) -> (r: Option<i16>)
        ensures
            r == self@.computed_height,
    {
        self.computed_height()
    }

    /// The width including the box model around it, which is only the computed width so far.
    pub fn outside_width(&self) -> (r: Option<i16>)
        ensures
            r == self@.computed_width,
    {
        self.computed_width()
    }

    pub fn set_is_new_line(&mut self, val: bool)
        ensures
            final(self)@ == (WrapView { is_new_line: val, ..old(self)@ }),
    {
        self.is_new_line = val
    }
}

impl Default for Wrap {
    fn default() -> (r: Wrap)
        ensures
            r@ == WrapView::empty(),
    {
        Wrap::new()
    }
}

/// Collects the settings of a `Wrap` and builds it.
pub struct WrapBuilder {
    name: Option<String>,
    grid_width: Option<i16>,
    height: Option<i16>,
    width: Option<i16>,
}

/// The mathematical value of a `WrapBuilder`.
pub struct WrapBuilderView {
    pub name: Option<Seq<char>>,
    pub grid_width: Option<i16>,
    pub height: Option<i16>,
    pub width: Option<i16>,
}

impl View for WrapBuilder {
    type V = WrapBuilderView;

    closed spec fn view(&self) -> WrapBuilderView {
        WrapBuilderView {
            name: match self.name {
                Some(n) => Some(n@),
                None => None,
            },
            grid_width: self.grid_width,
            height: self.height,
            width: self.width,
        }
    }
}

impl WrapBuilderView {
    /// The wrap that building gives: each set value over a new wrap.
    pub open spec fn built(self) -> WrapView {
        let d = WrapView::empty();
        WrapView {
            name: match self.name {
                Some(n) => n,
                None => d.name,
            },
            grid_width: if self.grid_width is Some { self.grid_width } else { d.grid_width },
            height: if self.height is Some { self.height } else { d.height },
            width: if self.width is Some { self.width } else { d.width },
            ..d
        }
    }
}

impl WrapBuilder {
    /// call this to create a column
    pub fn col(val: i16) -> (r: WrapBuilder)
        ensures
            r@ == (WrapBuilderView { name: None, grid_width: Some(val), height: None, width: None }),
    {
        WrapBuilder { name: None, grid_width: Some(val), height: None, width: None }
    }

    /// call this to create a row
    pub fn row() -> (r: WrapBuilder)
        ensures
            r@ == (WrapBuilderView { name: None, grid_width: Some(GRID_COLUMNS_COUNT), height: None, width: None }),
    {
        WrapBuilder { name: None, grid_width: Some(GRID_COLUMNS_COUNT), height: None, width: None }
    }

    /// call this if you don't want to specifiy a grid width
    pub fn new() -> (r: WrapBuilder)
        ensures
            r@ == (WrapBuilderView { name: None, grid_width: None, height: None, width: None }),
    {
        WrapBuilder { name: None, grid_width: None, height: None, width: None }
    }

    pub fn name(self, name: String) -> (r: WrapBuilder)
        ensures
            r@ == (WrapBuilderView { name: Some(name@), ..self@ }),
    {
        let mut b = self;
        b.name = Some(name);
        b
    }

    pub fn height(self, val: i16) -> (r: WrapBuilder)
        ensures
            r@ == (WrapBuilderView { height: Some(val), ..self@ }),
    {
        let mut b = self;
        b.height = Some(val);
        b
    }

    /// Sets the value that `build` gives as the wrap's height. (The value given here is kept as
    /// the height, not as the width.)
    pub fn width(self, val: i16) -> (r: WrapBuilder)
        ensures
            r@ == (WrapBuilderView { height: Some(val), ..self@ }),
    {
        let mut b = self;
        b.height = Some(val);
        b
    }

    pub fn build(self) -> (r: Wrap)
        ensures
            r@ == self@.built(),
    {
        let mut wrap = Wrap::new();

        if let Some(v) = self.name {
            wrap.set_name(v);
        }
        if let Some(v) = self.grid_width {
            wrap.set_grid_width(v);
        }
        if let Some(v) = self.height {
            wrap.set_height(v);
        }
        if let Some(v) = self.width {
            wrap.set_width(v);
        }

        wrap
    }
}

} // verus!
