# typed_lua

A front end for a typed dialect of Lua, written in Verus: a lexer, a Pratt
parser producing a syntax tree, a name resolution pass producing a tree whose
names are variable ids and whose literals are processed, and a lowering of
simple programs to a flat HIR, together with tree printers and size counters
for each tree.  Every function of the library is verified against its
contract.

Layout:

- `src/parser/`: the lexer (`lexer.rs`), the syntax tree (`ast.rs`), the
  parser (`mod.rs`), and the printer and size counter of syntax trees.
- `src/name_resolution/`: the resolver (`mod.rs`), the name tree
  (`name_tree.rs`), literal processing (`literal.rs`), the statement of which
  ids a tree refers to (`name_tree_refs.rs`), and the printer and size counter
  of name trees.
- `src/hir/`: the HIR, its builder, printer and size counter.
- `src/utils/`: tree printing, byte string formatting and sizes.
- `tests/`: tests of the library.
- `app/`: the command line runner, and the formatting of printed trees that
  needs floating point numbers.
