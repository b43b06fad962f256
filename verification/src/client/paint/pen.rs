use vstd::prelude::*;

use term::terminfo::{parm, TermInfo};

use crate::cell_buffer::cell::{ColorPalette, ScreenCell};
use crate::geom::{Pos, Size};
use super::terminfo::{expand, expandable, expansion, is_expandable, opt_bytes, terminfo_string, terminfo_strings};

verus! {

/// A terminfo capability the pen asks the terminal for, with its parameters.
#[derive(Debug, Clone, Copy, PartialEq, Eq, Structural)]
pub enum Cap {
    /// hide the cursor
    Civis,
    /// move the cursor to a row and a column
    Cup(i32, i32),
    /// turn off all attributes
    Sgr0,
    Bold,
    /// start underline
    Smul,
    /// end underline
    Rmul,
    /// start italic
    Sitm,
    /// end italic
    Ritm,
    Blink,
    /// reverse video
    Rev,
    /// set the foreground color
    Setaf(i32),
    /// set the background color
    Setab(i32),
    /// show the cursor
    Cnorm,
}

/// The terminfo name of a capability.
pub open spec fn cap_name(c: Cap) -> Seq<char> {
    match c {
        Cap::Civis => "civis"@,
        Cap::Cup(_, _) => "cup"@,
        Cap::Sgr0 => "sgr0"@,
        Cap::Bold => "bold"@,
        Cap::Smul => "smul"@,
        Cap::Rmul => "rmul"@,
        Cap::Sitm => "sitm"@,
        Cap::Ritm => "ritm"@,
        Cap::Blink => "blink"@,
        Cap::Rev => "rev"@,
        Cap::Setaf(_) => "setaf"@,
        Cap::Setab(_) => "setab"@,
        Cap::Cnorm => "cnorm"@,
    }
}

/// The parameters of a capability.
pub open spec fn cap_params(c: Cap) -> Seq<i32> {
    match c {
        Cap::Cup(row, col) => seq![row, col],
        Cap::Setaf(n) => seq![n],
        Cap::Setab(n) => seq![n],
        _ => Seq::empty(),
    }
}

impl Cap {
    pub fn name(&self) -> (r: &'static str)
        ensures
            r@ == cap_name(*self),
    {
        match self {
            Cap::Civis => "civis",
            Cap::Cup(_, _) => "cup",
            Cap::Sgr0 => "sgr0",
            Cap::Bold => "bold",
            Cap::Smul => "smul",
            Cap::Rmul => "rmul",
            Cap::Sitm => "sitm",
            Cap::Ritm => "ritm",
            Cap::Blink => "blink",
            Cap::Rev => "rev",
            Cap::Setaf(_) => "setaf",
            Cap::Setab(_) => "setab",
            Cap::Cnorm => "cnorm",
        }
    }

    pub fn params(&self) -> (r: Vec<i32>)
        ensures
            r@ == cap_params(*self),
    {
        match self {
            Cap::Cup(row, col) => vec![*row, *col],
            Cap::Setaf(n) => vec![*n],
            Cap::Setab(n) => vec![*n],
            _ => Vec::new(),
        }
    }
}

/// What expanding the named capability gives with the numbers `params` and the variables
/// `vars`: `None`, with the variables untouched, when the terminal has no string for it or the
/// string and numbers are not `expandable`; otherwise what `parm::expand` gives.
pub open spec fn cap_step(strings: Map<Seq<char>, Seq<u8>>, name: Seq<char>, params: Seq<i32>, vars: parm::Variables) -> (
    Option<Seq<u8>>,
    parm::Variables,
) {
    if strings.contains_key(name) && expandable(strings[name], params) {
        expansion(strings[name], params, vars)
    } else {
        (None, vars)
    }
}

/// `p` with `b` in front of its bytes, where it has any.
pub open spec fn prepended(b: Seq<u8>, p: (Option<Seq<u8>>, parm::Variables)) -> (Option<Seq<u8>>, parm::Variables) {
    (
        match p.0 {
            Some(r) => Some(b + r),
            None => None,
        },
        p.1,
    )
}

/// The bytes of the capabilities `caps`, expanded one after the other with the variables each
/// expansion leaves, and the variables left at the end; `None` at the first one that gives none.
pub open spec fn flush_bytes(strings: Map<Seq<char>, Seq<u8>>, caps: Seq<Cap>, vars: parm::Variables) -> (
    Option<Seq<u8>>,
    parm::Variables,
)
    decreases caps.len(),
{
    if caps.len() == 0 {
        (Some(Seq::empty()), vars)
    } else {
        let first = cap_step(strings, cap_name(caps[0]), cap_params(caps[0]), vars);
        match first.0 {
            Some(b) => prepended(b, flush_bytes(strings, caps.drop_first(), first.1)),
            None => (None, first.1),
        }
    }
}

proof fn lemma_prepended_twice(a: Seq<u8>, b: Seq<u8>, p: (Option<Seq<u8>>, parm::Variables))
    ensures
        prepended(a, prepended(b, p)) == prepended(a + b, p),
{
    if let Some(r) = p.0 {
        assert(a + (b + r) =~= (a + b) + r);
    }
}

/// A second flush straight after a flush, on the same terminal, sends no byte and leaves the
/// variables as they are.
pub proof fn lemma_second_flush_sends_nothing(
    p: PenView,
    strings: Map<Seq<char>, Seq<u8>>,
    vars: parm::Variables,
)
    ensures
        ({
            let it = strings.contains_key("sitm"@) && strings.contains_key("ritm"@);
            flush_bytes(strings, p.flush_plan(it).0.flush_plan(it).1, vars) == (Some(Seq::<u8>::empty()), vars)
        }),
{
    let it = strings.contains_key("sitm"@) && strings.contains_key("ritm"@);
    lemma_flush_settles(p, it);
}

/// An object that tracks the state of the physical screen and collects desired changes to it. Can
/// help make the desired changes reality by flushing them as a terminfo byte string.
#[derive(Debug, Clone)]
pub struct Pen {
    pub bg: ColorPalette,
    pub blink: bool,
    pub bold: bool,
    pub dhl: u8,
    pub dwl: bool,
    pub fg: ColorPalette,
    pub font: u8,
    pub visible: bool,
    pub italic: bool,
    pub pos: Pos,
    pub reverse: bool,
    pub strike: bool,
    pub underline: u8,
    pub disp_bg: Option<ColorPalette>,
    pub disp_blink: Option<bool>,
    pub disp_bold: Option<bool>,
    pub disp_dhl: Option<u8>,
    pub disp_dwl: Option<bool>,
    pub disp_fg: Option<ColorPalette>,
    pub disp_font: Option<u8>,
    pub disp_visible: Option<bool>,
    pub disp_italic: Option<bool>,
    pub disp_pos: Option<Pos>,
    pub disp_reverse: Option<bool>,
    pub disp_strike: Option<bool>,
    pub disp_underline: Option<u8>,
}

/// The mathematical value of a `Pen`: what is wanted, and what the terminal is known to show
/// (`None` where that is not known).
pub struct PenView {
    pub bg: ColorPalette,
    pub blink: bool,
    pub bold: bool,
    pub dhl: u8,
    pub dwl: bool,
    pub fg: ColorPalette,
    pub font: u8,
    pub visible: bool,
    pub italic: bool,
    pub pos: Pos,
    pub reverse: bool,
    pub strike: bool,
    pub underline: u8,
    pub disp_bg: Option<ColorPalette>,
    pub disp_blink: Option<bool>,
    pub disp_bold: Option<bool>,
    pub disp_dhl: Option<u8>,
    pub disp_dwl: Option<bool>,
    pub disp_fg: Option<ColorPalette>,
    pub disp_font: Option<u8>,
    pub disp_visible: Option<bool>,
    pub disp_italic: Option<bool>,
    pub disp_pos: Option<Pos>,
    pub disp_reverse: Option<bool>,
    pub disp_strike: Option<bool>,
    pub disp_underline: Option<u8>,
}

impl View for Pen {
    type V = PenView;

    open spec fn view(&self) -> PenView {
        PenView {
            bg: self.bg,
            blink: self.blink,
            bold: self.bold,
            dhl: self.dhl,
            dwl: self.dwl,
            fg: self.fg,
            font: self.font,
            visible: self.visible,
            italic: self.italic,
            pos: self.pos,
            reverse: self.reverse,
            strike: self.strike,
            underline: self.underline,
            disp_bg: self.disp_bg,
            disp_blink: self.disp_blink,
            disp_bold: self.disp_bold,
            disp_dhl: self.disp_dhl,
            disp_dwl: self.disp_dwl,
            disp_fg: self.disp_fg,
            disp_font: self.disp_font,
            disp_visible: self.disp_visible,
            disp_italic: self.disp_italic,
            disp_pos: self.disp_pos,
            disp_reverse: self.disp_reverse,
            disp_strike: self.disp_strike,
            disp_underline: self.disp_underline,
        }
    }
}

/// A flag the terminal is known to show, an unknown one counting as set.
pub open spec fn shown_or_set(d: Option<bool>) -> bool {
    match d {
        Some(b) => b,
        None => true,
    }
}

impl PenView {
    /// A new pen: default colors, cursor visible at the origin, nothing known of the terminal.
    pub open spec fn fresh() -> PenView {
        PenView {
            bg: 0,
            blink: false,
            bold: false,
            dhl: 0,
            dwl: false,
            fg: 7,
            font: 0,
            visible: true,
            italic: false,
            pos: Pos { x: 0, y: 0 },
            reverse: false,
            strike: false,
            underline: 0,
            disp_bg: None,
            disp_blink: None,
            disp_bold: None,
            disp_dhl: None,
            disp_dwl: None,
            disp_fg: None,
            disp_font: None,
            disp_visible: None,
            disp_italic: None,
            disp_pos: None,
            disp_reverse: None,
            disp_strike: None,
            disp_underline: None,
        }
    }

    /// Where the pen is after the terminal advanced its cursor one position: to the next column,
    /// else to the start of the next row; past the last cell of the screen the cursor is taken
    /// to stay on the last cell, and where it is shown is no longer known.
    pub open spec fn advanced(self, size: Size) -> PenView {
        if self.pos.x + 1 < size.width {
            PenView { pos: Pos { x: (self.pos.x + 1) as usize, ..self.pos }, ..self }
        } else if self.pos.y + 1 < size.height {
            PenView { pos: Pos { x: 0, y: (self.pos.y + 1) as usize }, ..self }
        } else {
            PenView {
                pos: Pos { x: (size.width - 1) as usize, y: (size.height - 1) as usize },
                disp_pos: None,
                ..self
            }
        }
    }

    /// Hide the cursor first when it is to be hidden and may be showing.
    pub open spec fn hide_step(self, caps: Seq<Cap>) -> (PenView, Seq<Cap>) {
        if self.disp_visible != Some(false) && !self.visible {
            (PenView { disp_visible: Some(false), ..self }, caps.push(Cap::Civis))
        } else {
            (self, caps)
        }
    }

    /// Move the cursor where it is not known to be.
    pub open spec fn pos_step(self, caps: Seq<Cap>) -> (PenView, Seq<Cap>) {
        if self.disp_pos != Some(self.pos) {
            (
                PenView { disp_pos: Some(self.pos), ..self },
                caps.push(Cap::Cup(self.pos.y as i32, self.pos.x as i32)),
            )
        } else {
            (self, caps)
        }
    }

    /// Turn all attributes off when bold, blink or reverse is to be off and may be on.
    pub open spec fn reset_step(self, caps: Seq<Cap>) -> (PenView, Seq<Cap>) {
        if (shown_or_set(self.disp_bold) && !self.bold) || (shown_or_set(self.disp_blink) && !self.blink)
            || (shown_or_set(self.disp_reverse) && !self.reverse) {
            (
                PenView {
                    disp_blink: Some(false),
                    disp_bold: Some(false),
                    disp_reverse: Some(false),
                    disp_underline: Some(0),
                    ..self
                },
                caps.push(Cap::Sgr0),
            )
        } else {
            (self, caps)
        }
    }

    pub open spec fn bold_step(self, caps: Seq<Cap>) -> (PenView, Seq<Cap>) {
        if self.disp_bold != Some(self.bold) {
            (
                PenView { disp_bold: Some(self.bold), ..self },
                if self.bold { caps.push(Cap::Bold) } else { caps },
            )
        } else {
            (self, caps)
        }
    }

    pub open spec fn underline_step(self, caps: Seq<Cap>) -> (PenView, Seq<Cap>) {
        if self.disp_underline != Some(self.underline) {
            (
                PenView { disp_underline: Some(self.underline), ..self },
                caps.push(if self.underline != 0 { Cap::Smul } else { Cap::Rmul }),
            )
        } else {
            (self, caps)
        }
    }

    /// Italic is only changed on a terminal that can turn it both on and off.
    pub open spec fn italic_step(self, caps: Seq<Cap>, italic_supported: bool) -> (PenView, Seq<Cap>) {
        if italic_supported && self.disp_italic != Some(self.italic) {
            (
                PenView { disp_italic: Some(self.italic), ..self },
                caps.push(if self.italic { Cap::Sitm } else { Cap::Ritm }),
            )
        } else {
            (self, caps)
        }
    }

    pub open spec fn blink_step(self, caps: Seq<Cap>) -> (PenView, Seq<Cap>) {
        if self.disp_blink != Some(self.blink) {
            (
                PenView { disp_blink: Some(self.blink), ..self },
                if self.blink { caps.push(Cap::Blink) } else { caps },
            )
        } else {
            (self, caps)
        }
    }

    pub open spec fn reverse_step(self, caps: Seq<Cap>) -> (PenView, Seq<Cap>) {
        if self.disp_reverse != Some(self.reverse) {
            (
                PenView { disp_reverse: Some(self.reverse), ..self },
                if self.reverse { caps.push(Cap::Rev) } else { caps },
            )
        } else {
            (self, caps)
        }
    }

    pub open spec fn fg_step(self, caps: Seq<Cap>) -> (PenView, Seq<Cap>) {
        if self.disp_fg != Some(self.fg) {
            (PenView { disp_fg: Some(self.fg), ..self }, caps.push(Cap::Setaf(self.fg as i32)))
        } else {
            (self, caps)
        }
    }

    pub open spec fn bg_step(self, caps: Seq<Cap>) -> (PenView, Seq<Cap>) {
        if self.disp_bg != Some(self.bg) {
            (PenView { disp_bg: Some(self.bg), ..self }, caps.push(Cap::Setab(self.bg as i32)))
        } else {
            (self, caps)
        }
    }

    /// Show the cursor last when it is to be shown and may be hidden.
    pub open spec fn show_step(self, caps: Seq<Cap>) -> (PenView, Seq<Cap>) {
        if self.disp_visible != Some(true) && self.visible {
            (PenView { disp_visible: Some(true), ..self }, caps.push(Cap::Cnorm))
        } else {
            (self, caps)
        }
    }

    /// The capabilities that bring the terminal to what the pen wants, in order, and what the
    /// terminal then shows.
    pub open spec fn flush_plan(self, italic_supported: bool) -> (PenView, Seq<Cap>) {
        let (p, c) = self.hide_step(Seq::empty());
        let (p, c) = p.pos_step(c);
        let (p, c) = p.reset_step(c);
        let (p, c) = p.bold_step(c);
        let (p, c) = p.underline_step(c);
        let (p, c) = p.italic_step(c, italic_supported);
        let (p, c) = p.blink_step(c);
        let (p, c) = p.reverse_step(c);
        let (p, c) = p.fg_step(c);
        let (p, c) = p.bg_step(c);
        p.show_step(c)
    }
}

/// The terminal is known to show what the pen wants (italic only where the terminal supports it).
pub open spec fn settled(p: PenView, italic_supported: bool) -> bool {
    &&& p.disp_visible == Some(p.visible)
    &&& p.disp_pos == Some(p.pos)
    &&& p.disp_bold == Some(p.bold)
    &&& p.disp_underline == Some(p.underline)
    &&& (italic_supported ==> p.disp_italic == Some(p.italic))
    &&& p.disp_blink == Some(p.blink)
    &&& p.disp_reverse == Some(p.reverse)
    &&& p.disp_fg == Some(p.fg)
    &&& p.disp_bg == Some(p.bg)
}

#[verifier::rlimit(80)]
proof fn lemma_plan_settles(p: PenView, it: bool)
    ensures
        settled(p.flush_plan(it).0, it),
{
    let (p1, c1) = p.hide_step(Seq::empty());
    let (p2, c2) = p1.pos_step(c1);
    let (p3, c3) = p2.reset_step(c2);
    let (p4, c4) = p3.bold_step(c3);
    let (p5, c5) = p4.underline_step(c4);
    let (p6, c6) = p5.italic_step(c5, it);
    let (p7, c7) = p6.blink_step(c6);
    let (p8, c8) = p7.reverse_step(c7);
    let (p9, c9) = p8.fg_step(c8);
    let (p10, c10) = p9.bg_step(c9);
    let (p11, c11) = p10.show_step(c10);
    assert(p.flush_plan(it).0 == p11);
    assert(p2.disp_pos == Some(p.pos));
    assert(p4.disp_bold == Some(p.bold));
    assert(p5.disp_underline == Some(p.underline));
    assert(it ==> p6.disp_italic == Some(p.italic));
    assert(p7.disp_blink == Some(p.blink));
    assert(p8.disp_reverse == Some(p.reverse));
    assert(p11.disp_visible == Some(p.visible));
}

proof fn lemma_settled_plan(q: PenView, it: bool)
    requires
        settled(q, it),
    ensures
        q.flush_plan(it) == (q, Seq::<Cap>::empty()),
{
    let e = Seq::<Cap>::empty();
    assert(q.hide_step(e) == (q, e));
    assert(q.pos_step(e) == (q, e));
    assert(q.reset_step(e) == (q, e));
    assert(q.bold_step(e) == (q, e));
    assert(q.underline_step(e) == (q, e));
    assert(q.italic_step(e, it) == (q, e));
    assert(q.blink_step(e) == (q, e));
    assert(q.reverse_step(e) == (q, e));
    assert(q.fg_step(e) == (q, e));
    assert(q.bg_step(e) == (q, e));
    assert(q.show_step(e) == (q, e));
}

/// Flushing again straight after a flush sends nothing: a flush brings the terminal to what the
/// pen wants.
pub proof fn lemma_flush_settles(p: PenView, italic_supported: bool)
    ensures
        p.flush_plan(italic_supported).0.flush_plan(italic_supported).1 == Seq::<Cap>::empty(),
        p.flush_plan(italic_supported).0.flush_plan(italic_supported).0 == p.flush_plan(italic_supported).0,
{
    lemma_plan_settles(p, italic_supported);
    lemma_settled_plan(p.flush_plan(italic_supported).0, italic_supported);
}

/// What a terminal shows that the pen's capabilities change: the attributes of the cells it
/// writes next, the colors, the cursor's row and column, and whether the cursor is shown.
pub struct Shown {
    pub bold: bool,
    pub blink: bool,
    pub reverse: bool,
    pub underline: bool,
    pub italic: bool,
    pub fg: int,
    pub bg: int,
    pub row: int,
    pub col: int,
    pub visible: bool,
}

/// What a terminal shows once it got the capability `c`: `sgr0` turns bold, blink, reverse video
/// and underline off; each other capability sets the one thing it names.
pub open spec fn shown_after_cap(t: Shown, c: Cap) -> Shown {
    match c {
        Cap::Civis => Shown { visible: false, ..t },
        Cap::Cup(r, k) => Shown { row: r as int, col: k as int, ..t },
        Cap::Sgr0 => Shown { bold: false, blink: false, reverse: false, underline: false, ..t },
        Cap::Bold => Shown { bold: true, ..t },
        Cap::Smul => Shown { underline: true, ..t },
        Cap::Rmul => Shown { underline: false, ..t },
        Cap::Sitm => Shown { italic: true, ..t },
        Cap::Ritm => Shown { italic: false, ..t },
        Cap::Blink => Shown { blink: true, ..t },
        Cap::Rev => Shown { reverse: true, ..t },
        Cap::Setaf(n) => Shown { fg: n as int, ..t },
        Cap::Setab(n) => Shown { bg: n as int, ..t },
        Cap::Cnorm => Shown { visible: true, ..t },
    }
}

/// What a terminal shows once it got the capabilities, in order.
pub open spec fn shown_after(t: Shown, caps: Seq<Cap>) -> Shown
    decreases caps.len(),
{
    if caps.len() == 0 {
        t
    } else {
        shown_after_cap(shown_after(t, caps.drop_last()), caps.last())
    }
}

/// The terminal shows `t`, as far as the pen knows what it shows.
pub open spec fn agrees(p: PenView, t: Shown) -> bool {
    &&& (p.disp_bold matches Some(b) ==> t.bold == b)
    &&& (p.disp_blink matches Some(b) ==> t.blink == b)
    &&& (p.disp_reverse matches Some(b) ==> t.reverse == b)
    &&& (p.disp_underline matches Some(u) ==> t.underline == (u != 0))
    &&& (p.disp_italic matches Some(b) ==> t.italic == b)
    &&& (p.disp_fg matches Some(f) ==> t.fg == f as i32 as int)
    &&& (p.disp_bg matches Some(f) ==> t.bg == f as i32 as int)
    &&& (p.disp_pos matches Some(q) ==> t.row == q.y as i32 as int && t.col == q.x as i32 as int)
    &&& (p.disp_visible matches Some(v) ==> t.visible == v)
}

/// What the pen wants the terminal to show; italic only where the terminal supports it, and
/// otherwise what it showed before, `t`.
pub open spec fn wanted(p: PenView, italic_supported: bool, t: Shown) -> Shown {
    Shown {
        bold: p.bold,
        blink: p.blink,
        reverse: p.reverse,
        underline: p.underline != 0,
        italic: if italic_supported { p.italic } else { t.italic },
        fg: p.fg as i32 as int,
        bg: p.bg as i32 as int,
        row: p.pos.y as i32 as int,
        col: p.pos.x as i32 as int,
        visible: p.visible,
    }
}

proof fn lemma_shown_after_push(t: Shown, caps: Seq<Cap>, c: Cap)
    ensures
        shown_after(t, caps.push(c)) == shown_after_cap(shown_after(t, caps), c),
{
    assert(caps.push(c).drop_last() =~= caps);
}

/// Step `k` of the flush plan, in the order `flush_plan` takes them.
pub open spec fn plan_step(q: PenView, c: Seq<Cap>, k: int, it: bool) -> (PenView, Seq<Cap>) {
    if k == 0 {
        q.hide_step(c)
    } else if k == 1 {
        q.pos_step(c)
    } else if k == 2 {
        q.reset_step(c)
    } else if k == 3 {
        q.bold_step(c)
    } else if k == 4 {
        q.underline_step(c)
    } else if k == 5 {
        q.italic_step(c, it)
    } else if k == 6 {
        q.blink_step(c)
    } else if k == 7 {
        q.reverse_step(c)
    } else if k == 8 {
        q.fg_step(c)
    } else if k == 9 {
        q.bg_step(c)
    } else {
        q.show_step(c)
    }
}

/// Bold, blink and reverse video that the pen wants off are known to be off.
pub open spec fn off_known(q: PenView) -> bool {
    &&& (!q.bold ==> q.disp_bold == Some(false))
    &&& (!q.blink ==> q.disp_blink == Some(false))
    &&& (!q.reverse ==> q.disp_reverse == Some(false))
}

/// Each step of the plan keeps what the pen knows of the terminal true.
proof fn lemma_plan_step(t: Shown, q: PenView, c: Seq<Cap>, k: int, it: bool)
    requires
        agrees(q, shown_after(t, c)),
        k >= 3 ==> off_known(q),
    ensures
        k >= 2 ==> off_known(plan_step(q, c, k, it).0),
        !it ==> shown_after(t, plan_step(q, c, k, it).1).italic == shown_after(t, c).italic,
        agrees(plan_step(q, c, k, it).0, shown_after(t, plan_step(q, c, k, it).1)),
        plan_step(q, c, k, it).0.bold == q.bold,
        plan_step(q, c, k, it).0.blink == q.blink,
        plan_step(q, c, k, it).0.reverse == q.reverse,
        plan_step(q, c, k, it).0.underline == q.underline,
        plan_step(q, c, k, it).0.italic == q.italic,
        plan_step(q, c, k, it).0.fg == q.fg,
        plan_step(q, c, k, it).0.bg == q.bg,
        plan_step(q, c, k, it).0.pos == q.pos,
        plan_step(q, c, k, it).0.visible == q.visible,
{
    if k == 0 {
        lemma_shown_after_push(t, c, Cap::Civis);
    } else if k == 1 {
        lemma_shown_after_push(t, c, Cap::Cup(q.pos.y as i32, q.pos.x as i32));
    } else if k == 2 {
        lemma_shown_after_push(t, c, Cap::Sgr0);
    } else if k == 3 {
        lemma_shown_after_push(t, c, Cap::Bold);
    } else if k == 4 {
        lemma_shown_after_push(t, c, Cap::Smul);
        lemma_shown_after_push(t, c, Cap::Rmul);
    } else if k == 5 {
        lemma_shown_after_push(t, c, Cap::Sitm);
        lemma_shown_after_push(t, c, Cap::Ritm);
    } else if k == 6 {
        lemma_shown_after_push(t, c, Cap::Blink);
    } else if k == 7 {
        lemma_shown_after_push(t, c, Cap::Rev);
    } else if k == 8 {
        lemma_shown_after_push(t, c, Cap::Setaf(q.fg as i32));
    } else if k == 9 {
        lemma_shown_after_push(t, c, Cap::Setab(q.bg as i32));
    } else {
        lemma_shown_after_push(t, c, Cap::Cnorm);
    }
}

/// The capabilities a flush sends bring the terminal to what the pen wants, whatever it showed
/// where the pen did not know: bold, blink, reverse video, underline, italic (where the terminal
/// supports it; elsewhere italic is left as it was), the colors, the cursor's position and
/// whether the cursor is shown.
#[verifier::rlimit(40)]
pub proof fn lemma_flush_shows_the_pen(p: PenView, italic_supported: bool, t: Shown)
    requires
        agrees(p, t),
    ensures
        shown_after(t, p.flush_plan(italic_supported).1) == wanted(p, italic_supported, t),
{
    let it = italic_supported;
    let r = plan_chain(p, Seq::empty(), 0, it);
    lemma_plan_chain(t, p, Seq::empty(), 0, it);
    lemma_plan_chain_is_the_plan(p, it);
    lemma_plan_settles(p, it);
    lemma_settled_shows(r.0, shown_after(t, r.1), p, it, t);
}

/// A terminal that the pen knows to show everything it wants shows what it wants.
proof fn lemma_settled_shows(q: PenView, u: Shown, p: PenView, it: bool, t: Shown)
    requires
        settled(q, it),
        agrees(q, u),
        q.bold == p.bold && q.blink == p.blink && q.reverse == p.reverse,
        q.underline == p.underline && q.italic == p.italic && q.fg == p.fg && q.bg == p.bg,
        q.pos == p.pos && q.visible == p.visible,
        !it ==> u.italic == t.italic,
    ensures
        u == wanted(p, it, t),
{
}

/// The steps of the flush plan from step `k` on.
pub open spec fn plan_chain(q: PenView, c: Seq<Cap>, k: int, it: bool) -> (PenView, Seq<Cap>)
    decreases 11 - k,
{
    if 0 <= k < 11 {
        let (q2, c2) = plan_step(q, c, k, it);
        plan_chain(q2, c2, k + 1, it)
    } else {
        (q, c)
    }
}

/// The steps from `k` on keep what the pen knows of the terminal true.
proof fn lemma_plan_chain(t: Shown, q: PenView, c: Seq<Cap>, k: int, it: bool)
    requires
        0 <= k <= 11,
        agrees(q, shown_after(t, c)),
        k >= 3 ==> off_known(q),
    ensures
        agrees(plan_chain(q, c, k, it).0, shown_after(t, plan_chain(q, c, k, it).1)),
        plan_chain(q, c, k, it).0.bold == q.bold,
        plan_chain(q, c, k, it).0.blink == q.blink,
        plan_chain(q, c, k, it).0.reverse == q.reverse,
        plan_chain(q, c, k, it).0.underline == q.underline,
        plan_chain(q, c, k, it).0.italic == q.italic,
        plan_chain(q, c, k, it).0.fg == q.fg,
        plan_chain(q, c, k, it).0.bg == q.bg,
        plan_chain(q, c, k, it).0.pos == q.pos,
        plan_chain(q, c, k, it).0.visible == q.visible,
        !it ==> shown_after(t, plan_chain(q, c, k, it).1).italic == shown_after(t, c).italic,
    decreases 11 - k,
{
    if k < 11 {
        lemma_plan_step(t, q, c, k, it);
        let (q2, c2) = plan_step(q, c, k, it);
        lemma_plan_chain(t, q2, c2, k + 1, it);
    }
}

/// Going through the steps one after the other is the flush plan.
proof fn lemma_plan_chain_is_the_plan(p: PenView, it: bool)
    ensures
        plan_chain(p, Seq::empty(), 0, it) == p.flush_plan(it),
{
    reveal_with_fuel(plan_chain, 12);
}

/// Reverse video that the pen wants and the terminal may not show is turned on by a flush;
/// likewise bold and blink.
pub proof fn lemma_flush_turns_on(p: PenView, italic_supported: bool)
    ensures
        p.reverse && p.disp_reverse != Some(true) ==> p.flush_plan(italic_supported).1.contains(Cap::Rev),
        p.bold && p.disp_bold != Some(true) ==> p.flush_plan(italic_supported).1.contains(Cap::Bold),
        p.blink && p.disp_blink != Some(true) ==> p.flush_plan(italic_supported).1.contains(Cap::Blink),
{
    let caps = p.flush_plan(italic_supported).1;
    let t = Shown {
        bold: match p.disp_bold { Some(b) => b, None => false },
        blink: match p.disp_blink { Some(b) => b, None => false },
        reverse: match p.disp_reverse { Some(b) => b, None => false },
        underline: match p.disp_underline { Some(u) => u != 0, None => false },
        italic: match p.disp_italic { Some(b) => b, None => false },
        fg: match p.disp_fg { Some(f) => f as i32 as int, None => 0 },
        bg: match p.disp_bg { Some(f) => f as i32 as int, None => 0 },
        row: match p.disp_pos { Some(q) => q.y as i32 as int, None => 0 },
        col: match p.disp_pos { Some(q) => q.x as i32 as int, None => 0 },
        visible: match p.disp_visible { Some(v) => v, None => false },
    };
    lemma_flush_shows_the_pen(p, italic_supported, t);
    lemma_shown_after_keeps(t, caps);
}

/// An attribute off at first is on after the capabilities only if the one that turns it on is
/// among them.
proof fn lemma_shown_after_keeps(t: Shown, caps: Seq<Cap>)
    ensures
        shown_after(t, caps).bold && !t.bold ==> caps.contains(Cap::Bold),
        shown_after(t, caps).blink && !t.blink ==> caps.contains(Cap::Blink),
        shown_after(t, caps).reverse && !t.reverse ==> caps.contains(Cap::Rev),
    decreases caps.len(),
{
    if caps.len() > 0 {
        let rest = caps.drop_last();
        lemma_shown_after_keeps(t, rest);
        assert(caps.last() == caps[caps.len() - 1]);
        if rest.contains(Cap::Bold) {
            let k = choose|k: int| 0 <= k < rest.len() && rest[k] == Cap::Bold;
            assert(caps[k] == Cap::Bold);
        }
        if rest.contains(Cap::Blink) {
            let k = choose|k: int| 0 <= k < rest.len() && rest[k] == Cap::Blink;
            assert(caps[k] == Cap::Blink);
        }
        if rest.contains(Cap::Rev) {
            let k = choose|k: int| 0 <= k < rest.len() && rest[k] == Cap::Rev;
            assert(caps[k] == Cap::Rev);
        }
    }
}

/// A cursor on the screen stays on the screen when it advances.
pub proof fn lemma_advance_stays_on_screen(p: PenView, size: Size)
    requires
        p.pos.x < size.width,
        p.pos.y < size.height,
    ensures
        p.advanced(size).pos.x < size.width,
        p.advanced(size).pos.y < size.height,
{
}

impl Default for Pen {
    fn default() -> (r: Pen)
        ensures
            r@ == PenView::fresh(),
    {
        Pen {
            bg: 0,
            blink: false,
            bold: false,
            dhl: 0,
            dwl: false,
            fg: 7,
            font: 0,
            visible: true,
            italic: false,
            pos: Pos::new(0, 0),
            reverse: false,
            strike: false,
            underline: 0,
            disp_bg: None,
            disp_blink: None,
            disp_bold: None,
            disp_dhl: None,
            disp_dwl: None,
            disp_fg: None,
            disp_font: None,
            disp_visible: None,
            disp_italic: None,
            disp_pos: None,
            disp_reverse: None,
            disp_strike: None,
            disp_underline: None,
        }
    }
}

impl Pen {
    pub fn new() -> (r: Pen)
        ensures
            r@ == PenView::fresh(),
    {
        Pen::default()
    }

    /// The capabilities that bring the terminal to what the pen wants, in the order they are to
    /// be sent; the pen then takes the terminal to show what it wants.
    pub fn flush_caps(&mut self, italic_supported: bool) -> (caps: Vec<Cap>)
        ensures
            (final(self)@, caps@) == old(self)@.flush_plan(italic_supported),
    {
        let mut caps: Vec<Cap> = Vec::new();
        self.hide_step(&mut caps);
        self.pos_step(&mut caps);
        self.reset_step(&mut caps);
        self.bold_step(&mut caps);
        self.underline_step(&mut caps);
        self.italic_step(&mut caps, italic_supported);
        self.blink_step(&mut caps);
        self.reverse_step(&mut caps);
        self.fg_step(&mut caps);
        self.bg_step(&mut caps);
        self.show_step(&mut caps);
        caps
    }

    fn hide_step(&mut self, caps: &mut Vec<Cap>)
        ensures
            (final(self)@, final(caps)@) == old(self)@.hide_step(old(caps)@),
    {
        if self.disp_visible != Some(false) && !self.visible {
            self.disp_visible = Some(false);
            caps.push(Cap::Civis);
        }
    }

    fn pos_step(&mut self, caps: &mut Vec<Cap>)
        ensures
            (final(self)@, final(caps)@) == old(self)@.pos_step(old(caps)@),
    {
        if self.disp_pos != Some(self.pos) {
            self.disp_pos = Some(self.pos);
            caps.push(Cap::Cup(self.pos.y as i32, self.pos.x as i32));
        }
    }

    fn reset_step(&mut self, caps: &mut Vec<Cap>)
        ensures
            (final(self)@, final(caps)@) == old(self)@.reset_step(old(caps)@),
    {
        let need_reset_bold = match self.disp_bold {
            Some(b) => b,
            None => true,
        } && !self.bold;
        let need_reset_blink = match self.disp_blink {
            Some(b) => b,
            None => true,
        } && !self.blink;
        let need_reset_reverse = match self.disp_reverse {
            Some(b) => b,
            None => true,
        } && !self.reverse;
        if need_reset_bold || need_reset_blink || need_reset_reverse {
            self.disp_blink = Some(false);
            self.disp_bold = Some(false);
            self.disp_reverse = Some(false);
            self.disp_underline = Some(0);
            caps.push(Cap::Sgr0);
        }
    }

    fn bold_step(&mut self, caps: &mut Vec<Cap>)
        ensures
            (final(self)@, final(caps)@) == old(self)@.bold_step(old(caps)@),
    {
        if self.disp_bold != Some(self.bold) {
            self.disp_bold = Some(self.bold);
            if self.bold {
                caps.push(Cap::Bold);
            }
        }
    }

    fn underline_step(&mut self, caps: &mut Vec<Cap>)
        ensures
            (final(self)@, final(caps)@) == old(self)@.underline_step(old(caps)@),
    {
        if self.disp_underline != Some(self.underline) {
            self.disp_underline = Some(self.underline);
            if self.underline != 0 {
                caps.push(Cap::Smul);
            } else {
                caps.push(Cap::Rmul);
            }
        }
    }

    fn italic_step(&mut self, caps: &mut Vec<Cap>, italic_supported: bool)
        ensures
            (final(self)@, final(caps)@) == old(self)@.italic_step(old(caps)@, italic_supported),
    {
        if italic_supported && self.disp_italic != Some(self.italic) {
            self.disp_italic = Some(self.italic);
            if self.italic {
                caps.push(Cap::Sitm);
            } else {
                caps.push(Cap::Ritm);
            }
        }
    }

    fn blink_step(&mut self, caps: &mut Vec<Cap>)
        ensures
            (final(self)@, final(caps)@) == old(self)@.blink_step(old(caps)@),
    {
        if self.disp_blink != Some(self.blink) {
            self.disp_blink = Some(self.blink);
            if self.blink {
                caps.push(Cap::Blink);
            }
        }
    }

    fn reverse_step(&mut self, caps: &mut Vec<Cap>)
        ensures
            (final(self)@, final(caps)@) == old(self)@.reverse_step(old(caps)@),
    {
        if self.disp_reverse != Some(self.reverse) {
            self.disp_reverse = Some(self.reverse);
            if self.reverse {
                caps.push(Cap::Rev);
            }
        }
    }

    fn fg_step(&mut self, caps: &mut Vec<Cap>)
        ensures
            (final(self)@, final(caps)@) == old(self)@.fg_step(old(caps)@),
    {
        if self.disp_fg != Some(self.fg) {
            self.disp_fg = Some(self.fg);
            caps.push(Cap::Setaf(self.fg as i32));
        }
    }

    fn bg_step(&mut self, caps: &mut Vec<Cap>)
        ensures
            (final(self)@, final(caps)@) == old(self)@.bg_step(old(caps)@),
    {
        if self.disp_bg != Some(self.bg) {
            self.disp_bg = Some(self.bg);
            caps.push(Cap::Setab(self.bg as i32));
        }
    }

    fn show_step(&mut self, caps: &mut Vec<Cap>)
        ensures
            (final(self)@, final(caps)@) == old(self)@.show_step(old(caps)@),
    {
        if self.disp_visible != Some(true) && self.visible {
            self.disp_visible = Some(true);
            caps.push(Cap::Cnorm);
        }
    }

    /// flush any accumulated changes and return a byte vec with the terminfo sequences: the
    /// capabilities of the flush plan, italic ones only where the terminal has both `sitm` and
    /// `ritm`, each expanded in turn (see `flush_bytes`); `None` when the terminal lacks one of
    /// them or one cannot be expanded.
    pub fn flush(&mut self, terminfo: &TermInfo, vars: &mut parm::Variables) -> (r: Option<Vec<u8>>)
        ensures
            ({
                let strings = terminfo_strings(*terminfo);
                let it = strings.contains_key("sitm"@) && strings.contains_key("ritm"@);
                &&& final(self)@ == old(self)@.flush_plan(it).0
                &&& (opt_bytes(r), *final(vars)) == flush_bytes(strings, old(self)@.flush_plan(it).1, *old(vars))
            }),
    {
        let italic_supported = self.is_cap_supported("sitm", terminfo) && self.is_cap_supported("ritm", terminfo);
        let caps = self.flush_caps(italic_supported);
        let ghost after = self@;
        let ghost strings = terminfo_strings(*terminfo);
        let ghost v0 = *vars;
        let mut bytes: Vec<u8> = Vec::new();
        let mut i: usize = 0;
        proof {
            assert(caps@.skip(0) =~= caps@);
            assert(Seq::<u8>::empty() + Seq::<u8>::empty() =~= Seq::<u8>::empty());
        }
        while i < caps.len()
            invariant
                i <= caps@.len(),
                self@ == after,
                strings == terminfo_strings(*terminfo),
                italic_supported == (strings.contains_key("sitm"@) && strings.contains_key("ritm"@)),
                (after, caps@) == old(self)@.flush_plan(italic_supported),
                v0 == *old(vars),
                flush_bytes(strings, caps@, v0) == prepended(bytes@, flush_bytes(strings, caps@.skip(i as int), *vars)),
            decreases caps.len() - i,
        {
            let cap = caps[i];
            proof {
                assert(caps@.skip(i as int)[0] == cap);
                assert(caps@.skip(i as int).drop_first() =~= caps@.skip(i + 1));
            }
            let mut seq = match self.apply_cap(cap.name(), terminfo, vars, &cap.params()) {
                Some(s) => s,
                None => return None,
            };
            let ghost before = bytes@;
            let ghost piece = seq@;
            bytes.append(&mut seq);
            proof {
                lemma_prepended_twice(before, piece, flush_bytes(strings, caps@.skip(i + 1), *vars));
            }
            i = i + 1;
        }
        proof {
            assert(caps@.skip(i as int) =~= Seq::<Cap>::empty());
            assert(bytes@ + Seq::<u8>::empty() =~= bytes@);
        }
        Some(bytes)
    }

    /// Updates many pen attributes from the given cell's attributes
    pub fn update_attrs_from_cell(&mut self, cell: &ScreenCell)
        ensures
            final(self)@ == (PenView {
                bg: cell.bg_palette,
                blink: cell.attrs.blink,
                bold: cell.attrs.bold,
                fg: cell.fg_palette,
                font: cell.attrs.font,
                italic: cell.attrs.italic,
                reverse: cell.attrs.reverse,
                strike: cell.attrs.strike,
                underline: cell.attrs.underline,
                ..old(self)@
            }),
    {
        self.bg = cell.bg_palette;
        self.blink = cell.attrs.blink;
        self.bold = cell.attrs.bold;
        self.fg = cell.fg_palette;
        self.font = cell.attrs.font;
        self.italic = cell.attrs.italic;
        self.reverse = cell.attrs.reverse;
        self.strike = cell.attrs.strike;
        self.underline = cell.attrs.underline;
    }

    /// Let the pen know that the physical display advanced the cursor one position
    pub fn notify_of_advanced_pos(&mut self, screen_size: &Size)
        requires
            old(self)@.pos.x < usize::MAX,
            old(self)@.pos.x + 1 >= screen_size.width ==> old(self)@.pos.y < usize::MAX,
            old(self)@.pos.x + 1 >= screen_size.width && old(self)@.pos.y + 1 >= screen_size.height
                ==> screen_size.width > 0 && screen_size.height > 0,
        ensures
            final(self)@ == old(self)@.advanced(*screen_size),
    {
        if self.pos.x + 1 < screen_size.width {
            self.pos.x = self.pos.x + 1;
        } else if self.pos.y + 1 < screen_size.height {
            self.pos.x = 0;
            self.pos.y = self.pos.y + 1;
        } else {
            self.pos.x = screen_size.width - 1;
            self.pos.y = screen_size.height - 1;
            self.disp_pos = None;
        }
    }

    /// The expanded sequence of the named capability, as `cap_step` says, with the variables
    /// it leaves.
    fn apply_cap(&self, cap: &str, terminfo: &TermInfo, vars: &mut parm::Variables, params: &Vec<i32>) -> (r:
        Option<Vec<u8>>)
        ensures
            (opt_bytes(r), *final(vars)) == cap_step(terminfo_strings(*terminfo), cap@, params@, *old(vars)),
    {
        match terminfo_string(terminfo, cap) {
            Some(cmd) => if is_expandable(&cmd, params) {
                expand(&cmd, params, vars)
            } else {
                None
            },
            None => None,
        }
    }

    /// The terminal has the named capability.
    fn is_cap_supported(&self, cap: &str, terminfo: &TermInfo) -> (r: bool)
        ensures
            r == terminfo_strings(*terminfo).contains_key(cap@),
    {
        terminfo_string(terminfo, cap).is_some()
    }
}

} // verus!
