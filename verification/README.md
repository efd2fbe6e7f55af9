# uiua_modifiers

The compilation of modifiers of the Uiua array language, written and verified in Verus.

A modifier is applied to functions and compiled to code for a stack machine. The crate holds the
state of the compiler (`compiler`), the form of each modifier (`stacking`, `inverse`, `guarded`,
`locals`, `arrays`, `meta`, dispatched by `inline`), function packs (`pack`), macros (`macros`,
`expand`, `placeholder`, `scope`), code that is run or made while compiling (`comptime`, `quote`,
`env`), and the search for pattern matching in code (`pattern`). `modified` ties them together.

The rest of a compiler (compiling words, inverting code, parsing, formatting, running) is the trait
`Toolchain`. Nothing is taken for granted about it: contracts are stated over the relations `did_..`
that hold between what it was asked and what it answered. What the library needs of it in order not
to fail is the predicate `orderly`, and every step of the library keeps the same promises
(`keeping`).

What the code of modifiers does is proved in two ways: `effects` follows the heights of the stacks
and shows that signatures are right, `meaning` follows the values.

Code is held in vectors of the crate `ecow`, and the names of scopes in maps of the crate
`indexmap`; the modules `eco` and `names` state what is relied on.
