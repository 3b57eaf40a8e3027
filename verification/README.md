# ascii_campfire

A terminal campfire animation. The library in `src/` holds the parts that decide
what is on screen, each with a proved contract; `app/` is the program that runs the
terminal, the particles and the frame loop around it.

- `renderer` — the double-buffered cell grid (`put`, `put_str`, `clear`, `resize`),
  with every drawing routine specified as the list of glyphs it writes.
- `flush` — the diff-based flush: the terminal commands (cursor moves, colour
  changes, runs of characters) that bring the screen from the frame last shown to the
  new one; the frame counts as shown once the program has written them.
- `terminal` — a model of a terminal in which each character takes one column, and
  the proofs that the planned commands write exactly the changed cells, so that they
  paint the new frame whatever characters it holds, and that an unchanged frame
  writes only an empty synchronized update.
- `scene` — the scene catalogue and the key that selects each scene.
- `sky` — the deterministic star field and the night, dawn and overcast skies.
- `overlay` — the clock (for a reading of the date and time taken by the program),
  the quote and the text-frame animation.
- `badapple` — the animation file format and its player.
- `layout` — the ground row, the fire base, the status line and the key bindings.
- `ambient` — the seated figures, the sleeping cat, the airplane, shooting stars and
  which ambient effects a scene keeps.
- `text` — decimal formatting and conversions between strings and characters.
