# utree

A directory-tree lister whose listing logic is verified by Verus.

- `src/` is the library: the glob matcher (`pattern`), the walk's
  decisions and its step-by-step traversal of one root (`walk`,
  `traverse`, `sort`), the text, JSON and HTML renderings, and the
  whole listing with its report totals (`output`). Every function carries a contract; the `*_laws` modules
  and the `law_*` proof functions state properties that span several
  functions (encodings that lose nothing, loop protection, a walk that
  always makes progress, one line per listed entry, a -J listing that
  is JSON text, a unique sorted order, ...).
- `app/` is the command: argument handling, reading directories for
  the traversal, and writing the rendered bytes.
- `tests/` runs the library on concrete values.
