# NAND Flash Viewer

A viewer for large NAND flash dump files. A dump is drawn as a grid of
blocks, one pixel per bit and one row per page, served as a pyramid of QOI
tiles; a page-by-page hex view, a page-structure editor (`.case` files),
pattern search and a read-only filesystem view of the dump complete it.

- `src/` is the library, verified with Verus: coordinates and addresses,
  bit, byte and block rendering, the tile pyramid and its codec, the tile
  and metadata caches, the data providers (file, memory, search-filtered,
  concatenated, XOR), the hex view and its navigation, the page-structure
  editor and its `.case` import and export, pattern search and export of
  the matches, the filesystem view's decisions and the registry of open
  dumps.
- `tests/` exercises the library.
- `app/` is the command-line program around it: file and terminal I/O,
  logging, the filesystem mount and the floating-point view geometry.
