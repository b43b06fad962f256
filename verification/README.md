# Intermix

Intermix is a terminal emulator multiplexer: a client lays out the programs it runs on the
screen of a tty, draws their cells, and turns what the user types into commands through a
graph of modes.

The library under `src/` is written in Verus and every function in it is verified against its
contract:

- `geom`: positions, sizes and rectangles.
- `cell_buffer`: the cells of a screen and the buffer that holds one per position.
- `client::layout`: wraps (boxes with a grid width, margin, padding and border), the tree they
  form, and the passes that compute their sizes and positions on the screen.
- `client::modal`: the mode graph, the modal key handler that follows key codes through it,
  and the in-band key detector.
- `client::paint`: the pen that turns cell attributes into terminfo capabilities.
- `client::node_box`, `client::draw_worker`: what drawing a wrap's box puts on the screen.
- `client::selection`, `client::servers`, `client::state`, `client::ids`: the client's state.
- `client::main_worker`: the client's main worker, as a function from a message to the next
  state, the messages it queues for servers, and the step its surroundings take (paint, move
  the cursor, quit).

`app/main.rs` is the program around it: tty modes, reading keys, sending the queued messages to
the servers, and painting with terminfo.
