# pixelforge_core

The sprite document model of an Aseprite-compatible pixel editor, and the
codec of its `.aseprite` files, written in Verus: every operation carries a
contract, and the proofs are checked by Verus.

## Layout

- `src/document/` — the document: colours, palettes and pixel grids
  (`pixels`), layers (`layer`), cels (`cel`), tilesets (`tileset`), slices
  (`slice`), the document itself (`sprite`), and its operations: frames
  (`frames`), editing (`edit`), ordering cels by z-index (`order`), the
  document rules (`validate`) and copies (`copy`). `model` states what the
  operations do over `DocView`, the mathematical view of a document, and
  `laws` proves properties that hold across operations.
- `src/ase/` — the `.aseprite` codec: little-endian encodings (`bytes`), the
  bytes a document becomes (`format`), the writer (`write`), the reader of
  the header, frames, palette, layer and cel chunks (`read`), the zlib
  compression and decompression of cel pixels through `flate2` (`zlib`), and
  what reading gives back of a written file and when writing succeeds
  (`laws`), and whether the link chains that writing follows end (`links`). The trusted functions are the two `flate2` calls and the UTF-8
  decoding of layer names through `String::from_utf8`.
- `src/fixtures.rs` — blank test sprites named `blank_<w>x<h>[_<n>f].aseprite`.
- `src/postprocess.rs` — the post-process pipeline: nearest-neighbour
  downscale, palette quantize and despeckle of RGBA images.
- `app/` — the command-line side: the round-trip checker, the fixture writer,
  the JSON form of documents (serde) and a printable error (thiserror).
- `tests/` — tests of the library on concrete documents and files.
