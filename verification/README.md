# sciproj

Tooling for SCI fan-dub projects, with its logic verified by Verus.

`src/` is the verified library:

- `formats::aseprite` — the Aseprite binary format: raw chunks with their
  encoders and decoders, user-data properties with their writer and the
  serde codec of property maps, the sprite model (with linked cels resolved
  to their pixels), its builder, and the file writer (header, palette,
  layers, tags, cels and their user data).
- `formats::view_import` — the canvas of a game view's cels and the swap of a
  cel's clear color with the sprite's transparent index.
- `formats::ndjson` — framing records as newline-delimited data.
- `book` — voice-over scripts ("books"): the entity tree, navigation handles,
  the JSON book format (reading, flattening, and what a round trip keeps).
- `file`, `resources` — scanning directories of audio samples, sample sets and
  path normalization.
- `collections::indexed_map` — query expressions over an indexed map, and the
  ordered multimap (on an `im` vector) behind its ordered indexes.
- `cli`, `tools` — the decisions of the command line tools: distribution checks,
  where tools are found, project config and the project root, game data checks
  against a manifest
  and import, which lines of a book a target's clips cover, ffmpeg arguments
  and progress parsing.

`app/` holds the command line program: argument parsing, file I/O, and the
serde and JSON Schema copies of the book format types.

`tests/` runs the library on concrete values.
