# laddertypes

Ladder types, verified with Verus: type terms with the *represented-as* constructor
`T1 ~ T2`, their parsing and printing, normal forms, unification, and the search for
morphisms between types.

Every executable function in `src/` carries a contract over a mathematical model of
the data (`TermV` for type terms, `CtxV` for contexts, `MorphTypeV` for morphism types),
and Verus proves each body against it.  Where the computation runs against a budget of
steps (normalization, unification, cost estimation), a `try_` variant returns `None`
exactly where the specification does, and the plain variant asks for the budget in its
`requires`.

Layout of `src/`:

- `term`, `dict`, `desugared`, `term_ops`: type terms, type dictionaries, desugared terms
  and the basic operations on terms (strip, interface and floor types, variables).
- `lexer`, `parser`, `unparser`, `pretty`, `numfmt`: text in and out.
- `curry`, `pnf`, `lnf`, `subtype`: currying, parameter- and ladder-normal forms,
  subtyping by normal forms.
- `substitution`, `semantics`, `saturation`, `constraint_system`, `variable_constraint`:
  substitutions, the specification of normalization and unification, and the
  constraint solver.
- `context`: layered contexts of type names, variables and bindings.
- `morphism`, `instance`, `heuristic`, `base`, `search`: morphism types, instances, cost
  estimates, bases of morphisms and the graph search for a morphism of a given type.
- `unifier`: the law that a successful unification of plain terms gives a unifier.

Laws that relate several functions are public proof functions named `law_*`.

Design notes:

- Contexts are values.  A new scope holds a copy of its parent, so names and bindings
  added through a scope, or through a copy held by a search node, stay with that copy;
  the search passes contexts on explicitly where a later step needs them.
- A context counts its scopes from a number given to `Context::new`, since the library
  keeps no global state.
- The graph search (`search::GraphSearch`, `search::MorphismGraph`) is the one search for
  morphisms; there is no second, breadth-first search over paths of morphisms, no
  separate sugared term type with its own normal form and printing, and no coloured
  printing of morphism instances.
- The budgeted functions ask for their budget in `requires`; callers that cannot show it
  use the `try_` variants, which return `None` where the budget does not suffice.
