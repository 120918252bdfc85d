# saw-spec-gen

Generates SAW scripts from what a compiler knows of a program: override
specifications that allow a callee everything its types and annotations
allow, stubs for virtual methods and trait methods, and scripts that check a
C++ or Rust function against a Cryptol function.

The library under `src/` is written in Verus. Every text that it emits is
given by a specification function, and the code is proved to emit exactly
that text; readers of LLVM IR, MIR dumps, Cryptol signatures and mangled
names are proved against the grammar that their specifications spell out.

| Directory | Contents |
|---|---|
| `src/`   | the library |
| `tests/` | its tests |
| `app/`   | the command line: files, processes, JSON documents |

## Where to start reading

- `constraints`: functions, types and specifications, as the front ends hand
  them over.
- `text`: operations on texts, and decimal numerals.
- `llvm_ir`, `ir_layout`, `mir_json`: functions and types read from IR text
  and from MIR dumps.
- `llvm_spec`, `mir_spec`, `havoc`, `stubs`, `vtable_ir`, `overrides`:
  specifications, adversarial overrides and stubs.
- `bitcode_overrides` and its neighbours: overrides for what a symbolic
  executor cannot run.
- `verify_script` and its steps: the script for a C++ function.
- `gen_verify_rust`, `gen_verify_rust_async`: targets among compiled Rust
  functions.
- `gen_verify_callgraph`: which callees need an override.

Proof functions whose names begin with `law_` state what holds across
functions: that preserved memory is unchanged and havoced memory arbitrary,
that every virtual method has one stub in its slot, that overrides are bound
once, that a relative path leads to its target, and so on.

What is believed without proof is marked `external_body` or
`assume_specification`: the calls into `serde_json`, and the Unicode tables
and `String::push` of the standard library.
