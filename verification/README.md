# embedded_fonts

Bitmap fonts for `embedded-graphics` displays, converted from BDF files, with
the font logic verified by Verus.

- `src/` is the verified library: geometry, glyph lookup and the pixels a
  glyph or a string lights (`geometry`, `font`, `style`); the BDF converter
  that selects glyphs, flattens and packs their bitmaps and writes the Rust
  source text that declares the font (`source`, `convert`, `render`, `conv`,
  `util`); the collection of characters from `Text::new` calls (`visitor`)
  and from the command line's range options (`range`); and the properties
  that span these steps (`laws`).
- `app/` is a library around it: the `embedded-graphics` text style
  (`BdfTextStyle` with `CharacterStyle` and `TextRenderer`) that draws what
  the library lays out, so that `Text::new(text, position, style).draw(..)`
  works; the file-reading front end of the converter; the collection of
  characters from `Text::new` calls in Rust sources; and the `convert-bdf`
  command line tool, whose entry point is `cli::main`.
- `tests/` runs the library on concrete fonts.
