# ratty

The logic of a terminal emulator that runs a shell in a pseudo-terminal and
draws its screen, written in Verus with its behaviour stated in contracts.

- `src/` is the verified library:
  - `keyboard` turns key presses into the bytes sent to the shell;
  - `emulator` is a character grid driven by printable characters, control
    characters and CSI sequences;
  - `color` maps the xterm 256-colour palette and the colours of a vt100
    screen to text buffer colours and RGBA values;
  - `screen` reads a `vt100::Screen` (the only outside calls of the library);
  - `terminal` holds the redraw flag, the surface's grid and font size, the
    text buffer cells drawn from a screen, and the copy of rendered frames;
  - `rendering` fills RGBA images: the pixmap copy and the debug image of
    the cell grid, specified as a sequence of rectangle fills;
  - `runtime` holds the decisions around the pseudo-terminal.
- `tests/` runs the library on concrete inputs.
- `app/` is the program around it: the pseudo-terminal and its reader thread,
  the Bevy systems, the ratatui widget, the off-screen ratatui terminal that
  shows the grid text, the OBJ cursor model and the floating-point colour
  blend.
