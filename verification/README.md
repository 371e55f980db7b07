# molten core

The core of the Molten compiler as a verified library.

- `src/types.rs`, `src/ast.rs`: Molten types and syntax trees, with the
  mathematical views that the contracts use.
- `src/scope.rs`: scopes held in a `ScopeTable`, name and type lookup along
  the chain of enclosing scopes, fresh type variables, the builtin scope and
  name binding over a program, with `names_bind` telling beforehand whether
  binding succeeds (a name never found on a cycle of scopes included);
  `src/scope_laws.rs` proves what lookups give back after definitions,
  updates and binding, and that binding goes node by node.
- `src/compiler_c.rs`: the C back end, with `compiles` telling beforehand
  whether compiling succeeds; `src/compiler_laws.rs` proves what compiling
  keeps of the compiler state, how lifted functions are numbered and how
  statement lists are laid out.
- `src/export.rs`: printing types as Molten source and building the
  declaration index of a program.
- `app/lib.rs`: writing the declaration index to a file.
