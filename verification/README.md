# thorn-svg-core

A drawing editor's model over an SVG that twig edits, verified with Verus.
A drawing is the file's own bytes: every gesture is an edit of them
through twig's editor, one undo step each, and what is not touched stays
byte for byte as it was.

## Layout

- `src/` — the library, every function verified against its contract:
  the profile a drawing file is held to (`profile`), the shapes read out of
  twig's tree (`tree`, `shape`, `document`), the editor and its gestures
  (`drawing`), the stylesheet logic (`style`), connectors and the arrows a
  gesture disturbs (`connector`, `settle`), a label's lines (`flow`), the
  number format (`number`), markup and characters (`markup`, `text`). What
  the editor believes of twig and svgtypes is stated in `twig_spec` and
  beside the calls it makes.
- `tests/` — tests of the library on concrete drawings.
- `app/` — the `thorn` command line (`check`, `shapes`, `render`) and the
  gestures that are arithmetic on floating-point coordinates: adding at a
  place, moving, resizing, hit-testing, bending, fitting the page, ink
  outlines. They compute attribute values and hand them to the library's
  verified primitives.
