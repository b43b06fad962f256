pub mod cell_buffer;
pub mod channels;
pub mod client;
pub mod geom;
pub mod program;
pub mod server;
