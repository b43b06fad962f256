pub mod cell;
pub mod cell_buffer;
