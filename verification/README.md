# sdesign

The logic of a vector design program, verified with Verus: pages of layers,
groups and boolean groups, paths and text, selection and dragging, undo,
alignment, snapping, the clipboard, and what is drawn of it on the screen and
into exported pictures.

- `src/` is the library. Every function is verified; contracts speak of layers,
  pages and sessions through views over sequences, and of numbers through the
  `Scalar` trait, whose operations each contract names in the order in which
  they are applied. `fixed::Fixed` is the number type of the library itself.
- `tests/` runs the library on single-precision floats, with `geo` for the
  regions of boolean groups and `tiny_skia` and `ab_glyph` for pixels.
- `app/` is the program around it: the window, files, the system clipboard, and
  the calls that turn the library's drawing lists into pixels.

Where to begin reading: `model` (what a layer is), `tree` and `document` (how
layers are found and changed), `history`, then `grouping`, `alignment`,
`transform` and `path_edit` (the operations), `canvas` with `press`, `dragging`,
`dropping` and `clicks` (what the pointer does), `app` (the commands), and
`rendering`, `layer_painting` and `text_rows` (what is drawn).

Facts that hold of several functions together are public proof functions whose
names begin with `law_`. `census` holds those on which layers there are,
`places` those on where they are, `arrangement` those on layers that were
aligned, distributed or tidied, and `records` those on drags, whose last
change is all that counts.
