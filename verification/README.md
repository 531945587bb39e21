# desk

The desktop shell of PureC OS and its small applications, as a Verus-verified
library (`src/`) and a thin program around it (`app/`).

Library modules:

- `datetime`: the wall clock: calendar arithmetic, the `YYYY-MM-DD HH:MM:SS` text
  format and its parser, advancing by elapsed uptime.
- `decimal`: decimal digits of numbers.
- `display`: drawing commands, framebuffer queries, the text handed to the renderer.
- `calc`, `clock`, `calendar`: the three desk applications (state, keys, drawing).
- `apps`: their windows: stacking, focus, dragging, closing, redraws.
- `personal`: appearance settings: themes, fonts, the configuration file format.
- `desktop`: icon layout, icon dragging and launching, the power menu, started programs.
- `sysabi`: buffers handed to the system interface.
- `wallpaper`: BMP, PPM and PNG readers (with a zlib/deflate decoder), nearest-neighbour
  scaling, and the wallpaper's load and retry state. `wallpaper::prefix_code` proves that
  the code tree built for a set of code lengths meeting the Kraft inequality decodes
  each symbol's canonical code to that symbol.

The program in `app/` performs the input and output: it reads the mouse, the keyboard,
the clock and the files, calls the library for every decision, and draws the commands
the library returns.

The wallpaper pictures that the desktop ships with (`wallpapers/*.png`) are not part
of this crate. The tests that would decode them decode a small gradient PNG held in
`tests/wallpaper_tests.rs` instead, and the end-to-end wallpaper test checks the
decoded picture the library caches rather than a framebuffer.
