# sekai

Chunk-level deduplicated snapshots for Minecraft Java region files (`.mca`),
with the region codec and the decisions of the command line proved in Verus.

## Layout

- `src/` — the verified library.
  - `endian`, `region`, `reader`, `writer`, `laws`: the region-file format.
    `reader` parses an image and hands out its chunks; `writer` builds an
    image from staged payloads; `laws` proves that an image built by the
    writer reads back as exactly the staged chunks, in slot order, and that
    region file names parse back to their coordinates.
  - `codec`: chunk payload decompression (raw, zlib, gzip, and the block
    streams of Java's `LZ4BlockOutputStream`, not the LZ4 frame format) over
    `miniz_oxide`, `crc32fast`, `twox-hash` and `lz4_flex`.
  - `hash`: BLAKE3 header hashes and custom dimension identifiers.
  - `error`: the codec's errors and their messages.
  - `style`, `report`, `text`: terminal styling, error reports, JSON
    envelopes and escaping, times, decimal text.
  - `restore`, `rollback`, `ops`, `ingest`, `balance`, `flags`, `pair`,
    `area`, `history`, `tags`, `summary`, `diffview`, `timing`: options,
    policies and the per-region state machine of rollback, the split and
    bookkeeping of ingest work across workers, option parsing of
    `--in`/`--region`, snapshot-pair defaults, tag requests, status lines,
    diff decisions and rendering, and the slowest-region table.
- `tests/` — tests run against the compiled library.
- `app/` — the `sekai` binary: argument parsing, terminal and JSON output,
  and the calls into the project's store engine crate (`sekai_app`). That
  crate and the storage, world and NBT crates it builds on are not part of
  this repository, so `app/` builds only together with them.

Every function in `src/` is proved by Verus against its `requires`/`ensures`
contract. Calls into outside crates stand behind small wrappers whose
contracts name what the crate computes; those contracts are assumed.
