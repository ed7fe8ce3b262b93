# myboot

A library for Android boot images, written in Verus and verified.

It parses boot and vendor boot images (every header version, the DHTB,
blob, NookHD, Acclaim and ChromeOS wrappers, AVB footers, vendor ramdisk
tables, kernels with an appended device tree), repacks them with replaced
parts, reads and writes newc cpio ramdisks, patches device trees, searches
and replaces hex patterns, and computes image ids and signature blocks.
Compression goes through the usual codec crates (flate2, zopfli, lzma-rust2,
bzip2, lz4); the legacy lz4 framing around them is the library's own.

Layout:

- `src/` — the verified library. Each module states its behaviour as
  `requires`/`ensures` over spec functions; the `law_*` proof functions state
  properties that span several operations (for instance that reading back a
  written cpio archive gives back its files).
- `tests/` — tests of the library on concrete inputs.
- `app/` — the `myboot` command line tool: file and memory-map I/O, argument
  parsing and printing around the library.
