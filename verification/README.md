# butabuti

An embroidery file library whose decoders and data rules are verified with
Verus, and a small command-line reader around it.

## Layout

- `src/` — the verified library
  - `constants.rs` — stitch command values, masks, command names and types
  - `thread.rs` — threads, colour parsing (hex, named), colour distance,
    nearest-colour search, thread attributes
  - `color_group.rs`, `assoc.rs` — colour groups and the thread grouping
  - `detector.rs` — format detection by content and by file extension
  - `bytes.rs` — little/big-endian values and a bounds-checked byte reader
  - `ops.rs` — the stitch operations that decoders produce, and the step
    framework that record decoders share
  - `text.rs` — character-level helpers (trimming, splitting, number reading)
  - `readers/` — one decoder per file format; each turns the bytes of a file
    into operations, threads and metadata, with a contract stated over a
    specification of the format
- `tests/` — tests of the library
- `app/` — the command-line tool (`info`, `validate`, `list-formats`) and the
  floating-point pattern model: transformations, statistics, trims, the
  transcoder, matrices, colour-space conversions and the serde forms of the
  library's types

Verification: `verus` on `src/lib.rs`; the public functions of `src/`
carry contracts (a few small private helpers only feed their callers'
proofs), and the laws of the library are public proof functions
(`lemma_*`).
