# kitty_graphics

The kitty graphics protocol for a terminal multiplexer, verified with Verus: the parser for
the escape sequences that carry images, the images and their placements on a screen, and the
sequences that draw them again.

* `src/` is the library. Every function states what it does in its contract; `laws.rs` and
  `roundtrip.rs` state what holds of several together, for one that the sequences which draw
  an image give that image, pixel for pixel, to whoever reads them.
* `src/codec.rs` holds the calls into `base64`, `flate2` and `image`, with what is believed
  of them.
* `app/` joins the library with what it shares between panes and with the file system.
* `tests/` runs the library on concrete values.

Numbers are machine integers throughout. Where a computation could leave their range, a
condition named `.._in_range` says so, a function named `.._fits` tests it, and a command
that would leave it is refused with `OutOfRange`.
