# picsee_lib

The logic of a desktop picture viewer, verified with Verus: which files are
images, the natural (number-aware) order of file names, settings defaults,
the load policy for large images, BMP header parsing and region sampling,
the system decoder's size reports, and the bookkeeping of the thumbnail
cache.

## Layout

- `src/` — the verified library.
  - `text.rs`: string helpers (ASCII case folding, the file-name and
    extension rules of std's `Path`) and the trusted wrappers around std's
    path and Unicode case functions.
  - `images.rs`: supported extensions, natural ordering (with its laws:
    reflexive, antisymmetric, transitive, `Equal` only on equal names) and
    the ordering of a directory's entries.
  - `settings.rs`: settings enums and the integer-valued settings with their
    defaults; paths of the backup and temporary settings files.
  - `extended_formats.rs`: formats decoded by the system decoder, its size
    limit, and the parser of its size report.
  - `large_image/`: BMP headers and nearest-neighbour region reads (whole,
    row by row, or in bands that provably join to the whole), the load
    policy and the probe results, and the error type.
  - `thumbnails.rs`: the steps of a thumbnail request, cache key (SHA-256
    through `sha2`), EXIF orientation (through `kamadak-exif`), decoding at
    the decoded depth, turning upright (verified), shrinking and WebP
    encoding (through `image`, with `bytemuck` to read wide samples back), error
    codes, and the registry that gives each cache key one generation at a
    time.
- `tests/` — tests of the library.
- `app/` — the file system, child processes, threads, JSON and async
  plumbing around the library, and serializable copies of its types.
