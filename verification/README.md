# amy_backend

A code generator. It takes typed s-expressions and gives a native object file
for 64-bit x86, by way of Cranelift. The library under `src/` is verified with
Verus.

## How it works

1. `lower.rs` says which builder steps an expression stands for. `translate.rs`
   and `function.rs` plan them: the plan of a function is the list of its steps,
   each of which may name what an earlier one gave by its place in the list.
   `prefix.rs` proves that a plan only ever grows.
2. `protocol.rs` says which steps Cranelift's function builder takes, and when.
   `accept.rs` proves that it takes every step of every plan.
3. `emit.rs` replays a plan on the builder and on the module. `renaming.rs`
   proves that the builder takes the steps under its own numbers as well.
4. `generator.rs` puts it together: it builds each definition, declares it under
   its symbol (`mangle.rs`), compiles it and writes the object file.

`translatable.rs` says which definitions have a translation, `size.rs` how large
they may be, and `Generator::can_compile` (`check.rs`) finds it out.
`module_log.rs` and `answers.rs` say what a module makes of a request.

What is true of the generator as a whole stands in files of its own:

- `laws.rs`: definitions are exported once, calls meet them, texts and slices are
  laid out alike;
- `repeat.rs`: the same definitions make the same object file, in one go or in
  parts, and definitions with type parameters leave no trace in it;
- `exports.rs`: an object file defines the symbols of its definitions and no
  others;
- `order.rs`: what a module refuses, and that the order of definitions does not
  matter;
- `places.rs`: an element is written where it is read, and a dereference is a load.

What is taken from Cranelift on trust stands in `clif.rs`, `clif_builder.rs` and
`clif_module.rs`, in small functions around the calls: one call each, but for two
that need a few to make what the last one takes. `text.rs` says what the standard
library's `String::push` does.

`app/` is the part that prints and that stops the program on an error.
