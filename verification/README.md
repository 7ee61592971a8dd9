# rdpterm

A terminal session served over RDP: keys come in, a program runs in a
pseudo-terminal, and its screen is drawn into the client's picture.

The library in `src/` is written in Verus. Every function states in its
contract what it returns or changes, and Verus proves it.

- `app` is a session: what to start the program with, what a key sends, and how
  what the program printed gets into the picture.
- `auth` decides who may connect.
- `input` turns keys into the bytes that a terminal program reads.
- `grid` counts how many cells fit into a picture.
- `single` is binary32 arithmetic in integers, and `framebuffer` the picture
  with its blending: for font sizes from 2^-125 on and below 2^63, pixel
  positions and colours come out as binary32 arithmetic gives them. Other font
  sizes are not accepted.
- `terminal::stream` tells which bytes a terminal has room for, and at which
  cuts between two pieces of output something may be lost.
- `terminal::engine` and `terminal::emulator` wrap the emulation of
  `alacritty_terminal` and read the screen from it; `terminal::color` resolves
  its colours.
- `terminal::renderer` draws the cells that changed, with `terminal::boxes` for
  box drawing, blocks and braille and `terminal::ink` for glyphs and emoji.
  `terminal::redraw` states what holds of the drawing as a whole.
- `terminal::glyphs`, `terminal::requests` and `terminal::fonts` decide which
  glyph to look for, in which font, and what to make of the answer.
  `terminal::charmap` tells which font files can be read.
- `terminal::pty` holds the decisions around the program in the terminal.

Calls into other crates stand behind functions marked `external_body`, in
`terminal::engine` and `terminal::fonts`. What they return is assumed as stated
there; everything else is proved.

`app/` is the program around the library: the command line, the RDP server, the
pseudo-terminal and the font libraries, which work in floating point. The fonts
that are part of the program are expected in `fonts/`.
