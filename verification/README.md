# war3parser

Reading Warcraft III maps (`.w3x` / `.w3m`, campaigns `.w3n`): the optional
`HM3W` prefix, the embedded MPQ archive, the member files it carries, and the
catalogue records built from them. The library's own logic in `src/` is
verified with Verus against a specification of what it reads or computes;
the calls into other crates stand behind trusted wrappers (see below).

Layout:

- `src/mpq/` — the MPQ archive: header search, hash and block tables, the
  Storm cipher and hashes, sector reading, salvage of members whose tables are
  gone, and carving of zlib sectors out of raw bytes.
- `src/reader.rs` — a bounds-checked little-endian reader.
- `src/formats/` — the member formats: `w3i` (map information), `wts` (string
  table), `imp` (imports), `mmp` (minimap icons), `wtg` records.
- `src/model/` — the `HM3W` header, decoded images (with the limits a BLP
  file must keep before it reaches the decoder; JPEG-compressed BLP content
  is refused as unsupported), sorted listings, and
  `War3MapMetadata`, which reads everything a map holds in one call.
- `src/w3x.rs` — a map: header plus archive, member lookup by name.
- `src/carve.rs`, `src/modscan.rs` — metadata salvage from unreadable archives,
  and detection of known script modifications.
- `src/catalog.rs`, `src/record.rs` — catalogue records: display names,
  statuses, covers, content addressing and deduplication.
- `app/main.rs` — the `war3-mpq` command line tool (list, extract, salvage).

Calls into `flate2`, `adler32`, `image`, `image-blp`, `base64`, `sha2` and
std's UTF-8 decoding stand behind small trusted wrappers marked
`#[verifier::external_body]`. Verus believes their contracts without proof;
each contract names or states what the crate returns, and its doc comment
says what is left unsaid.
