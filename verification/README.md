# tc39_decorators

A verified transform of JavaScript classes with decorators into classes without, for the 2023-11 and
the 2022-03 versions of the TC39 decorators proposal.

The decorators of a class and its members are taken off and handed to a runtime helper,
`applyDecs2311` or `applyDecs2203R`, in a call that follows the class. What the helper returns goes
to variables; the functions that run initialisers are called where an instance is made and after the
class.

- `src/ast.rs` is the tree that the transform works on. Parts of a program that it does not look into
  are numbers. `src/model.rs` is the mathematical view of the tree, `src/builder.rs` the nodes that
  the transform builds.
- `src/context.rs` is the symbol table, the reference table and the scope tree, which are those of
  `oxc_traverse`.
- `src/decorator.rs` and the modules under it are the transform: the kinds of members (`kinds`), what
  the helper is told of a member (`members`), taking the decorators off (`transform`), the call of the
  helper (`apply`), the call that runs the initialisers of an instance (`inject`), and what is done at
  the nodes of a program (`visit`).
- `src/laws.rs` states what holds of the transform as a whole.
- `app/` is the transform as a pass over `oxc` trees.
