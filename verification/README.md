# cv_rs

Generates a CV as a PDF or a Word document from a single JSON file. The output
is deliberately plain: one text column, real text, no tables, and a tagged
structure tree, so that it reads well and parses cleanly.

## Layout

- `src/` is the library, verified with Verus. Every public function states
  what it returns in its `ensures`, over spec functions on sequences of
  characters and bytes.
  - `schema`: the CV data model.
  - `document`, `sections`: the format-independent document (sections and
    their blocks) built from a schema, in a fixed order; a section with no
    data is left out, heading included.
  - `text`: character-level helpers (white space, trimming, joining, words).
  - `docx`, `package`: the Word backend: XML escaping, styles, the document
    body and the zip package.
  - `plan`: what each section draws in the PDF, as operations that carry no
    geometry; `layout`, `encoding`, `pagination`: inline-list rows, cutting
    words into lines, the contact row, WinAnsi encoding and kerning in font
    units, and the vertical page cursor in millipoints.
- `tests/`: the tests of the library.
- `app/`: the command-line program: argument handling, reading the JSON file,
  writing the output, and the PDF drawing, which works in floating-point
  points (text measurement, the Knuth & Plass line breaker, placement).

## Commands

```
cv --schema-path cv.json --output-path output/cv.pdf
cv --schema-path cv.json --output-path output/cv.docx
```

The output format follows the extension. `--compress` deflates the PDF's
content streams; `--no-tags` leaves out its structure tree.
