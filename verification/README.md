# fontc

A verified core for a font compiler: the parts of it that decide and compute,
with contracts that [Verus](https://github.com/verus-lang/verus) proves.

- `static_metadata`, `coords`, `glyph`, `kerning`, `postscript`: what is known of
  a font, and where it is in design space.
- `instance`, `pin`, `pin_metadata`, `messages`: making one static instance of a
  variable font.
- `glyphs_source`, `source_axes`, `font_info`, `color_glyphs`, `paint`, `toir`:
  reading a Glyphs source.
- `cff`, `cff_build`, `cff2`, `cff2_build`, `post`, `vertical_metrics`,
  `metric_variations`, `work`, `error`: building tables.
- `predicate`: glyph predicates in feature code.
- `args`, `results_cache`: what a comparison run over many fonts builds, and
  where it keeps the results.
- `text`, `lookup`, `numeric`: what the others share.

Real numbers appear in the library as *ranks*, integers that are ordered as the
numbers are. Arithmetic on the numbers themselves is handed in as closures, and
the contracts say what is made of their answers.

Each law of the library is a public proof function whose name starts with `law_`.

`app/` holds what cannot be verified: command line arguments, files, the text
form of metadata, and floating-point arithmetic. `tests/` runs the library
against the real outside crates.
