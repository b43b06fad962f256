use vstd::prelude::*;

use super::{Align, VerticalAlign};

verus! {

/// A rectangle of the layout. Its computed values are filled in by the layout passes; the
/// `outside_*` values add margin, padding and border around the computed (inside) area and the
/// `border_*` values add padding and border only.
#[derive(Debug, Clone)]
pub struct Wrap {
    align: Align,
    computed_grid_width: Option<usize>,
    computed_height: Option<usize>,
    computed_width: Option<usize>,
    computed_x: Option<usize>,
    computed_y: Option<usize>,
    grid_width: Option<usize>,
    has_border: bool,
    height: Option<usize>,
    is_new_line: bool,
    margin: usize,
    name: String,
    padding: usize,
    vertical_align: VerticalAlign,
    width: Option<usize>,
}

/// The mathematical value of a `Wrap`: every field, with the name as a character sequence.
pub struct WrapView {
    pub align: Align,
    pub computed_grid_width: Option<usize>,
    pub computed_height: Option<usize>,
    pub computed_width: Option<usize>,
    pub computed_x: Option<usize>,
    pub computed_y: Option<usize>,
    pub grid_width: Option<usize>,
    pub has_border: bool,
    pub height: Option<usize>,
    pub is_new_line: bool,
    pub margin: usize,
    pub name: Seq<char>,
    pub padding: usize,
    pub vertical_align: VerticalAlign,
    pub width: Option<usize>,
}

impl WrapView {
    /// Width of a border: one cell when the wrap has one.
    pub open spec fn border_thickness(self) -> int {
        if self.has_border { 1 } else { 0 }
    }

    /// Distance from the outside edge to the computed (inside) area, on one side.
    pub open spec fn outside_extent(self) -> int {
        self.margin + self.padding + self.border_thickness()
    }

    /// Distance from the border edge to the computed (inside) area, on one side.
    pub open spec fn border_extent(self) -> int {
        self.padding + self.border_thickness()
    }

    /// The wrap a fresh `Wrap::new()` gives.
    pub open spec fn empty() -> WrapView {
        WrapView {
            align: Align::Left,
            computed_grid_width: None,
            computed_height: None,
            computed_width: None,
            computed_x: None,
            computed_y: None,
            grid_width: None,
            has_border: false,
            height: None,
            is_new_line: false,
            margin: 0,
            name: Seq::empty(),
            padding: 0,
            vertical_align: VerticalAlign::Top,
            width: None,
        }
    }

    /// A size grown by the given extent on both sides, if known.
    pub open spec fn grown(v: Option<usize>, extent: int) -> Option<int> {
        match v {
            Some(x) => Some(x + 2 * extent),
            None => None,
        }
    }

    /// A position moved back by the given extent, if known.
    pub open spec fn moved_back(v: Option<usize>, extent: int) -> Option<int> {
        match v {
            Some(x) => Some(x - extent),
            None => None,
        }
    }
}

pub open spec fn opt_int(v: Option<usize>) -> Option<int> {
    match v {
        Some(x) => Some(x as int),
        None => None,
    }
}

/// What `set_outside_width` (or `set_outside_height`) stores, `outside_width` (or
/// `outside_height`) gives back.
pub proof fn lemma_outside_size_round_trip(w: WrapView, v: usize, stored: Option<usize>)
    requires
        v >= 2 * w.outside_extent(),
        opt_int(stored) == WrapView::moved_back(Some(v), 2 * w.outside_extent()),
    ensures
        WrapView::grown(stored, w.outside_extent()) == Some(v as int),
{
}

/// What `set_outside_x` (or `set_outside_y`) stores, `outside_x` (or `outside_y`) gives back.
pub proof fn lemma_outside_pos_round_trip(w: WrapView, v: usize, stored: Option<usize>)
    requires
        v + w.outside_extent() <= usize::MAX,
        opt_int(stored) == WrapView::moved_back(Some(v), -w.outside_extent()),
    ensures
        WrapView::moved_back(stored, w.outside_extent()) == Some(v as int),
{
}

impl View for Wrap {
    type V = WrapView;

    closed spec fn view(&self) -> WrapView {
        WrapView {
            align: self.align,
            computed_grid_width: self.computed_grid_width,
            computed_height: self.computed_height,
            computed_width: self.computed_width,
            computed_x: self.computed_x,
            computed_y: self.computed_y,
            grid_width: self.grid_width,
            has_border: self.has_border,
            height: self.height,
            is_new_line: self.is_new_line,
            margin: self.margin,
            name: self.name@,
            padding: self.padding,
            vertical_align: self.vertical_align,
            width: self.width,
        }
    }
}

impl Wrap {
    pub fn new() -> (r: Wrap)
        ensures
            r@ == WrapView::empty(),
    {
        Wrap {
            align: Align::Left,
            computed_grid_width: None,
            computed_height: None,
            computed_width: None,
            computed_x: None,
            computed_y: None,
            grid_width: None,
            has_border: false,
            height: None,
            is_new_line: false,
            margin: 0,
            name: String::new(),
            padding: 0,
            vertical_align: VerticalAlign::Top,
            width: None,
        }
    }

    pub fn computed_grid_width(&self) -> (r: Option<usize>)
        ensures
            r == self@.computed_grid_width,
    {
        self.computed_grid_width
    }

    pub fn set_computed_grid_width(&mut self, val: Option<usize>)
        ensures
            final(self)@ == (WrapView { computed_grid_width: val, ..old(self)@ }),
    {
        self.computed_grid_width = val
    }

    pub fn computed_height(&self) -> (r: Option<usize>)
        ensures
            r == self@.computed_height,
    {
        self.computed_height
    }

    pub fn set_computed_height(&mut self, val: Option<usize>)
        ensures
            final(self)@ == (WrapView { computed_height: val, ..old(self)@ }),
    {
        self.computed_height = val
    }

    pub fn computed_width(&self) -> (r: Option<usize>)
        ensures
            r == self@.computed_width,
    {
        self.computed_width
    }

    pub fn set_computed_width(&mut self, val: Option<usize>)
        ensures
            final(self)@ == (WrapView { computed_width: val, ..old(self)@ }),
    {
        self.computed_width = val
    }

    pub fn computed_x(&self) -> (r: Option<usize>)
        ensures
            r == self@.computed_x,
    {
        self.computed_x
    }

    pub fn set_computed_x(&mut self, val: Option<usize>)
        ensures
            final(self)@ == (WrapView { computed_x: val, ..old(self)@ }),
    {
        self.computed_x = val
    }

    pub fn computed_y(&self) -> (r: Option<usize>)
        ensures
            r == self@.computed_y,
    {
        self.computed_y
    }

    pub fn set_computed_y(&mut self, val: Option<usize>)
        ensures
            final(self)@ == (WrapView { computed_y: val, ..old(self)@ }),
    {
        self.computed_y = val
    }

    pub fn grid_width(&self) -> (r: Option<usize>)
        ensures
            r == self@.grid_width,
    {
        self.grid_width
    }

    pub fn set_grid_width(&mut self, val: Option<usize>)
        ensures
            final(self)@ == (WrapView { grid_width: val, ..old(self)@ }),
    {
        self.grid_width = val
    }

    pub fn height(&self) -> (r: Option<usize>)
        ensures
            r == self@.height,
    {
        self.height
    }

    pub fn set_height(&mut self, val: Option<usize>)
        ensures
            final(self)@ == (WrapView { height: val, ..old(self)@ }),
    {
        self.height = val
    }

    pub fn width(&self) -> (r: Option<usize>)
        ensures
            r == self@.width,
    {
        self.width
    }

    pub fn set_width(&mut self, val: Option<usize>)
        ensures
            final(self)@ == (WrapView { width: val, ..old(self)@ }),
    {
        self.width = val
    }

    pub fn align(&self) -> (r: Align)
        ensures
            r == self@.align,
    {
        self.align
    }

    pub fn set_align(&mut self, val: Align)
        ensures
            final(self)@ == (WrapView { align: val, ..old(self)@ }),
    {
        self.align = val
    }

    pub fn has_border(&self) -> (r: bool)
        ensures
            r == self@.has_border,
    {
        self.has_border
    }

    pub fn set_has_border(&mut self, val: bool)
        ensures
            final(self)@ == (WrapView { has_border: val, ..old(self)@ }),
    {
        self.has_border = val
    }

    pub fn is_new_line(&self) -> (r: bool)
        ensures
            r == self@.is_new_line,
    {
        self.is_new_line
    }

    pub fn set_is_new_line(&mut self, val: bool)
        ensures
            final(self)@ == (WrapView { is_new_line: val, ..old(self)@ }),
    {
        self.is_new_line = val
    }

    pub fn margin(&self) -> (r: usize)
        ensures
            r == self@.margin,
    {
        self.margin
    }

    pub fn set_margin(&mut self, val: usize)
        ensures
            final(self)@ == (WrapView { margin: val, ..old(self)@ }),
    {
        self.margin = val
    }

    pub fn padding(&self) -> (r: usize)
        ensures
            r == self@.padding,
    {
        self.padding
    }

    pub fn set_padding(&mut self, val: usize)
        ensures
            final(self)@ == (WrapView { padding: val, ..old(self)@ }),
    {
        self.padding = val
    }

    pub fn vertical_align(&self) -> (r: VerticalAlign)
        ensures
            r == self@.vertical_align,
    {
        self.vertical_align
    }

    pub fn set_vertical_align(&mut self, val: VerticalAlign)
        ensures
            final(self)@ == (WrapView { vertical_align: val, ..old(self)@ }),
    {
        self.vertical_align = val
    }

    pub fn name(&self) -> (r: &String)
        ensures
            r@ == self@.name,
    {
        &self.name
    }

    pub fn set_name(&mut self, val: String)
        ensures
            final(self)@ == (WrapView { name: val@, ..old(self)@ }),
    {
        self.name = val
    }

    /// Margin + padding + border on one side.
    fn outside_extent(&self) -> (r: usize)
        requires
            self@.outside_extent() <= usize::MAX,
        ensures
            r == self@.outside_extent(),
    {
        self.margin + self.padding + if self.has_border { 1 } else { 0 }
    }

    /// Padding + border on one side.
    fn border_extent(&self) -> (r: usize)
        requires
            self@.border_extent() <= usize::MAX,
        ensures
            r == self@.border_extent(),
    {
        self.padding + if self.has_border { 1 } else { 0 }
    }

    /// Margin + padding + border on one side, in a type wide enough for any of them.
    pub(crate) fn outside_extent_wide(&self) -> (r: u128)
        ensures
            r == self@.outside_extent(),
    {
        self.margin as u128 + self.padding as u128 + if self.has_border { 1u128 } else { 0u128 }
    }

    /// Padding + border on one side, in a type wide enough for both.
    pub(crate) fn border_extent_wide(&self) -> (r: u128)
        ensures
            r == self@.border_extent(),
    {
        self.padding as u128 + if self.has_border { 1u128 } else { 0u128 }
    }

    pub fn outside_height(&self) -> (r: Option<usize>)
        requires
            self@.computed_height matches Some(h) ==> h + 2 * self@.outside_extent() <= usize::MAX,
        ensures
            opt_int(r) == WrapView::grown(self@.computed_height, self@.outside_extent()),
    {
        if let Some(h) = self.computed_height {
            Some(h + 2 * self.outside_extent())
        } else {
            None
        }
    }

    pub fn set_outside_height(&mut self, val: Option<usize>)
        requires
            val matches Some(v) ==> v >= 2 * old(self)@.outside_extent(),
        ensures
            opt_int(final(self)@.computed_height) == WrapView::moved_back(val, 2 * old(self)@.outside_extent()),
            final(self)@ == (WrapView { computed_height: final(self)@.computed_height, ..old(self)@ }),
    {
        if let Some(v) = val {
            let e = self.outside_extent();
            self.computed_height = Some(v - 2 * e);
        } else {
            self.computed_height = None;
        }
    }

    pub fn outside_width(&self) -> (r: Option<usize>)
        requires
            self@.computed_width matches Some(w) ==> w + 2 * self@.outside_extent() <= usize::MAX,
        ensures
            opt_int(r) == WrapView::grown(self@.computed_width, self@.outside_extent()),
    {
        if let Some(w) = self.computed_width {
            Some(w + 2 * self.outside_extent())
        } else {
            None
        }
    }

    pub fn set_outside_width(&mut self, val: Option<usize>)
        requires
            val matches Some(v) ==> v >= 2 * old(self)@.outside_extent(),
        ensures
            opt_int(final(self)@.computed_width) == WrapView::moved_back(val, 2 * old(self)@.outside_extent()),
            final(self)@ == (WrapView { computed_width: final(self)@.computed_width, ..old(self)@ }),
    {
        if let Some(v) = val {
            let e = self.outside_extent();
            self.computed_width = Some(v - 2 * e);
        } else {
            self.computed_width = None;
        }
    }

    pub fn outside_x(&self) -> (r: Option<usize>)
        requires
            self@.computed_x matches Some(x) ==> x >= self@.outside_extent(),
        ensures
            opt_int(r) == WrapView::moved_back(self@.computed_x, self@.outside_extent()),
    {
        if let Some(x) = self.computed_x {
            Some(x - self.outside_extent())
        } else {
            None
        }
    }

    pub fn set_outside_x(&mut self, val: Option<usize>)
        requires
            val matches Some(v) ==> v + old(self)@.outside_extent() <= usize::MAX,
        ensures
            opt_int(final(self)@.computed_x) == WrapView::moved_back(val, -old(self)@.outside_extent()),
            final(self)@ == (WrapView { computed_x: final(self)@.computed_x, ..old(self)@ }),
    {
        if let Some(v) = val {
            self.computed_x = Some(v + self.outside_extent());
        } else {
            self.computed_x = None;
        }
    }

    pub fn outside_y(&self) -> (r: Option<usize>)
        requires
            self@.computed_y matches Some(y) ==> y >= self@.outside_extent(),
        ensures
            opt_int(r) == WrapView::moved_back(self@.computed_y, self@.outside_extent()),
    {
        if let Some(y) = self.computed_y {
            Some(y - self.outside_extent())
        } else {
            None
        }
    }

    pub fn set_outside_y(&mut self, val: Option<usize>)
        requires
            val matches Some(v) ==> v + old(self)@.outside_extent() <= usize::MAX,
        ensures
            opt_int(final(self)@.computed_y) == WrapView::moved_back(val, -old(self)@.outside_extent()),
            final(self)@ == (WrapView { computed_y: final(self)@.computed_y, ..old(self)@ }),
    {
        if let Some(v) = val {
            self.computed_y = Some(v + self.outside_extent());
        } else {
            self.computed_y = None;
        }
    }

    pub fn border_height(&self) -> (r: Option<usize>)
        requires
            self@.computed_height matches Some(h) ==> h + 2 * self@.border_extent() <= usize::MAX,
        ensures
            opt_int(r) == WrapView::grown(self@.computed_height, self@.border_extent()),
    {
        if let Some(h) = self.computed_height {
            Some(h + 2 * self.border_extent())
        } else {
            None
        }
    }

    pub fn border_width(&self) -> (r: Option<usize>)
        requires
            self@.computed_width matches Some(w) ==> w + 2 * self@.border_extent() <= usize::MAX,
        ensures
            opt_int(r) == WrapView::grown(self@.computed_width, self@.border_extent()),
    {
        if let Some(w) = self.computed_width {
            Some(w + 2 * self.border_extent())
        } else {
            None
        }
    }

    pub fn border_x(&self) -> (r: Option<usize>)
        requires
            self@.computed_x matches Some(x) ==> x >= self@.border_extent(),
        ensures
            opt_int(r) == WrapView::moved_back(self@.computed_x, self@.border_extent()),
    {
        if let Some(x) = self.computed_x {
            Some(x - self.border_extent())
        } else {
            None
        }
    }

    pub fn border_y(&self) -> (r: Option<usize>)
        requires
            self@.computed_y matches Some(y) ==> y >= self@.border_extent(),
        ensures
            opt_int(r) == WrapView::moved_back(self@.computed_y, self@.border_extent()),
    {
        if let Some(y) = self.computed_y {
            Some(y - self.border_extent())
        } else {
            None
        }
    }
}

impl Default for Wrap {
    fn default() -> (r: Wrap)
        ensures
            r@ == WrapView::empty(),
    {
        Wrap::new()
    }
}

} // verus!
