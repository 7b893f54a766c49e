# Vuoom

The engine of a screen recorder and editor, written in Verus: capture bookkeeping, automatic
zoom, the project model and its editing with undo, scene layout, GIF encoding, preferences, the frame store
and its recovery.

- `src/` is the verified library. Times are nanoseconds, fractions are billionths, geometry in
  output space is nano-pixels; every function states what it returns or changes, and the public
  proof functions state what holds across functions.
- `tests/` runs the library on concrete values, together with the crates it calls.
- `app/` is the program around it: files, the operating system, the graphics card, the preview
  server and the commands of the user interface.

What the library takes on trust from other crates is marked `external_body`,
`assume_specification` or `external_type_specification`, each with a comment that says what is
claimed.
