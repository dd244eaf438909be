# zim_reader

A pure-Rust, read-only library for [ZIM archive files], the offline content
format used by [Kiwix], written and verified with Verus.

The library opens an archive from the bytes of a file, parses its header and
MIME types, and reads directory entries, clusters, articles and metadata on
demand. Every function states exactly what it returns, errors included, and
that statement is proved. It rests on two things from outside: what the decoders
make of a compressed payload, and, on paths that platforms divide differently,
what the platform takes as the extension of a file name. No function panics on
any bytes: the one footer of an xz stream that makes its decoder panic, where
overflow is checked, is found beforehand, and the error is the one that the
decoder reports where it is not.

## Layout

- `src/` is the verified library.
  - `util`, `text`: bounded little-endian reads, null-terminated strings,
    numbers as text
  - `header`, `mime`, `namespace`, `dirent`, `pointer_list`, `cluster`: the
    parts of the format
  - `archive`, `split`: opening
  - `order`, `search`, `lookup`, `entries`: finding entries and going through
    them
  - `xz`: xz streams, with the one footer that the decoder cannot always take
  - `content`, `article`: clusters, blobs, redirects, articles, metadata
  - `error`: the errors and their descriptions
  - `boundary`: what is believed, without proof, of `core::str::from_utf8`,
    `std::path::Path::extension` and the `lzma-rs` and `ruzstd` decoders
- `tests/` runs the library on archives that are built in memory.
- `app/` is `zim-info`, which memory-maps a file and prints its header and MIME
  types.

## What is proved beyond the single functions

- What is written is read back: numbers, strings, headers, MIME lists, content
  entries, redirects, cluster payloads, whole articles, the main page and
  metadata.
- On sorted pointer lists, searches by path, title and title prefix find exactly
  what is there.
- Redirects end: chains of up to eight entries lead to their content, cycles and
  longer chains are errors.
- The options do not change what opening gives, and a path that ends in `.zim` is
  never taken for one part of a split archive.
- An archive that was opened, from whatever path and with whatever options,
  holds the header and the MIME types that are in the file; its offsets lie
  inside the file, and its checksum is the last 16 bytes.

The checksum itself is not verified on open, and decompressed clusters are not
cached: `ArchiveOptions` accepts both settings, and both are without effect.

[ZIM archive files]: https://wiki.openzim.org/wiki/ZIM_file_format
[Kiwix]: https://www.kiwix.org/
