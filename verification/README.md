# smallnlo

A library and command-line tool for fastNLO interpolation tables: reading
and writing their text format, stripping, limiting and merging tables,
planning how missing scale-dependent grids are rebuilt, and storing tables
in a compact binary form.

The library in `src/` is verified with Verus:

- `text`, `values`, `reader`, `writer`: the line-based text format. The
  writer's output reads back as the same table (`roundtrip`).
- `storage`, `format`: the four kinds of table file, told apart by their
  first bytes, with gzip and zstd compression.
- `strip`, `merge`, `grids`, `plan`: operations on tables and the decisions
  behind rebuilding and evaluating grids.
- `hoppet`: the bookkeeping around the evolution library (handles, start-up
  order).

`app/` holds the command-line program: file I/O, serialization, the calls
into the Fortran evolution library and all floating-point arithmetic.
