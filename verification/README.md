# fastpack

A texture atlas packer whose core is written in Verus. The functions in `src/`
carry contracts that the verifier proves, except the few marked
`#[verifier::external_body]`: those make calls into other crates or into std
(image decoding and encoding, JSON printing, hashing, hash maps, the clock), and their contracts are trusted.

## Layout

- `src/` — the verified library.
  - `rect`, `sprite`, `image`, `config`, `pixel_format`: the data model and
    settings (size constraints, packing modes, named options).
  - `loader`: decoding image files into sprites.
  - `packer`, `maxrects`, `basic`, `grid`: the packing algorithms, with
    non-overlap, in-bounds and coverage laws.
  - `trim`, `extrude`, `premultiply`, `dither`, `pixel_art`, `alias`: per-sprite
    image processing and duplicate detection.
  - `sheet`, `pipeline`: composing packed sprites into sheets and running a
    whole pack (aliases, multipack, overflow).
  - `dxt`, `compress`: block compression and the PNG/JPEG encoders.
  - `formats`, `json`, `export`: the JSON data files, output file naming and
    sheet preparation.
  - `gui`, `pack_state`, `sprite_list`, `updater`: front-end logic — settings
    and key bindings, applying pack results, the sprite tree, update checks.
- `tests/` — tests run against the compiled library.
- `app/` — a headless command-line front end: reads a project file or a
  source directory and the image files, runs the pack and writes textures and
  JSON data files.
