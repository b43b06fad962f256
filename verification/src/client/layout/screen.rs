use vstd::prelude::*;

verus! {

/// Number of grid columns a full-width row spans.
pub const GRID_COLUMNS_COUNT: i16 = 12;

/// A rectangle of the screen layout, sized in whole cells; its computed values are filled in by the layout passes.
#[derive(Debug, Clone)]
pub struct Box {
    computed_grid_width: Option<i16>,
    computed_height: Option<i16>,
    computed_width: Option<i16>,
    computed_x: Option<i16>,
    computed_y: Option<i16>,
    grid_width: Option<i16>,
    height: Option<i16>,
    width: Option<i16>,
    is_new_line: bool,
    name: String,
}

/// The mathematical value of a `Box`.
pub struct BoxView {
    pub computed_grid_width: Option<i16>,
    pub computed_height: Option<i16>,
    pub computed_width: Option<i16>,
    pub computed_x: Option<i16>,
    pub computed_y: Option<i16>,
    pub grid_width: Option<i16>,
    pub height: Option<i16>,
    pub width: Option<i16>,
    pub is_new_line: bool,
    pub name: Seq<char>,
}

impl BoxView {
    /// The value `Box::new()` gives.
    pub open spec fn empty() -> BoxView {
        BoxView {
            computed_grid_width: None,
            computed_height: None,
            computed_width: None,
            computed_x: None,
            computed_y: None,
            grid_width: None,
            height: None,
            width: None,
            is_new_line: false,
            name: Seq::empty(),
        }
    }
}

impl View for Box {
    type V = BoxView;

    closed spec fn view(&self) -> BoxView {
        BoxView {
            computed_grid_width: self.computed_grid_width,
            computed_height: self.computed_height,
            computed_width: self.computed_width,
            computed_x: self.computed_x,
            computed_y: self.computed_y,
            grid_width: self.grid_width,
            height: self.height,
            width: self.width,
            is_new_line: self.is_new_line,
            name: self.name@,
        }
    }
}

impl Box {
    pub fn new() -> (r: Box)
        ensures
            r@ == BoxView::empty(),
    {
        Box {
            computed_grid_width: None,
            computed_height: None,
            computed_width: None,
            computed_x: None,
            computed_y: None,
            grid_width: None,
            height: None,
            width: None,
            is_new_line: false,
            name: String::new(),
        }
    }

    pub fn computed_grid_width(&self) -> (r: Option<i16>)
        ensures
            r == self@.computed_grid_width,
    {
        self.computed_grid_width
    }

    pub fn set_computed_grid_width(&mut self, val: i16)
        ensures
            final(self)@ == (BoxView { computed_grid_width: Some(val), ..old(self)@ }),
    {
        self.computed_grid_width = Some(val)
    }

    pub fn computed_height(&self) -> (r: Option<i16>)
        ensures
            r == self@.computed_height,
    {
        self.computed_height
    }

    pub fn set_computed_height(&mut self, val: i16)
        ensures
            final(self)@ == (BoxView { computed_height: Some(val), ..old(self)@ }),
    {
        self.computed_height = Some(val)
    }

    pub fn computed_width(&self) -> (r: Option<i16>)
        ensures
            r == self@.computed_width,
    {
        self.computed_width
    }

    pub fn set_computed_width(&mut self, val: i16)
        ensures
            final(self)@ == (BoxView { computed_width: Some(val), ..old(self)@ }),
    {
        self.computed_width = Some(val)
    }

    pub fn computed_x(&self) -> (r: Option<i16>)
        ensures
            r == self@.computed_x,
    {
        self.computed_x
    }

    pub fn set_computed_x(&mut self, val: i16)
        ensures
            final(self)@ == (BoxView { computed_x: Some(val), ..old(self)@ }),
    {
        self.computed_x = Some(val)
    }

    pub fn computed_y(&self) -> (r: Option<i16>)
        ensures
            r == self@.computed_y,
    {
        self.computed_y
    }

    pub fn set_computed_y(&mut self, val: i16)
        ensures
            final(self)@ == (BoxView { computed_y: Some(val), ..old(self)@ }),
    {
        self.computed_y = Some(val)
    }

    pub fn grid_width(&self) -> (r: Option<i16>)
        ensures
            r == self@.grid_width,
    {
        self.grid_width
    }

    pub fn set_grid_width(&mut self, val: i16)
        ensures
            final(self)@ == (BoxView { grid_width: Some(val), ..old(self)@ }),
    {
        self.grid_width = Some(val)
    }

    pub fn height(&self) -> (r: Option<i16>)
        ensures
            r == self@.height,
    {
        self.height
    }

    pub fn set_height(&mut self, val: i16)
        ensures
            final(self)@ == (BoxView { height: Some(val), ..old(self)@ }),
    {
        self.height = Some(val)
    }

    pub fn width(&self) -> (r: Option<i16>)
        ensures
            r == self@.width,
    {
        self.width
    }

    pub fn set_width(&mut self, val: i16)
        ensures
            final(self)@ == (BoxView { width: Some(val), ..old(self)@ }),
    {
        self.width = Some(val)
    }

    pub fn name(&self) -> (r: &String)
        ensures
            r@ == self@.name,
    {
        &self.name
    }

    pub fn set_name(&mut self, val: String)
        ensures
            final(self)@ == (BoxView { name: val@, ..old(self)@ }),
    {
        self.name = val
    }

    pub fn is_new_line(&self) -> (r: bool)
        ensures
            r == self@.is_new_line,
    {
        self.is_new_line
    }

    /// The height including the box model around it, which is only the computed height so far.
    pub fn outside_height(&self) -> (r: Option<i16>)
        ensures
            r == self@.computed_height,
    {
        self.computed_height()
    }

    /// The width including the box model around it, which is only the computed width so far.
    pub fn outside_width(&self) -> (r: Option<i16>)
        ensures
            r == self@.computed_width,
    {
        self.computed_width()
    }

    pub fn set_is_new_line(&mut self, val: bool)
        ensures
            final(self)@ == (BoxView { is_new_line: val, ..old(self)@ }),
    {
        self.is_new_line = val
    }
}

impl Default for Box {
    fn default() -> (r: Box)
        ensures
            r@ == BoxView::empty(),
    {
        Box::new()
    }
}

} // verus!
