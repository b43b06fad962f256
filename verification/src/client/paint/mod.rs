pub mod pen;
pub mod terminfo;
pub mod tty_painter;
