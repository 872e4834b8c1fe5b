# luau_lad_backend

A native **Luau** (`.d.luau`) definition-file backend for
[`bevy_mod_scripting`](https://github.com/makspll/bevy_mod_scripting) (BMS) LAD
(Language Agnostic Definition) files, so Luau game scripts can be type-checked
with [`luau-lsp`](https://github.com/JohnnyMorganz/luau-lsp). The backend is
written in [Verus](https://github.com/verus-lang/verus): what it generates is
stated as a specification and proved.

## What it generates

- Every type that no primitive stands for becomes a `declare extern type … end`,
  under a unique, well-formed name. Fields of a plain struct are not optional;
  named fields of enum variants are, and are merged by name.
- Every enum exports its variant names as a union, and narrows the inherited
  `variant_name` to it where the registry records the function behind it.
- Every type with something to fill in exports a `construct` payload alias
  (`Options::init_types`).
- The `ReflectReference` proxy type becomes a base class that every class
  extends.
- Functions that pair a registration argument with a `ReflectReference` become
  generic over phantom-typed brands (`Reg<T>`, `ResReg<T>`, `TypeReg<T>`), and
  the `types` global becomes a closed table over them.
- Copies of a function that render to the same signature collapse to the
  best-documented one.
- Unions are flattened: each alternative is written once, however deeply it is
  nested.
- Bindings named like a Luau keyword are skipped; fields named like one are
  quoted. What is skipped is reported (`lad_warnings`).
- The order in which a file lists things does not matter, as long as names tell
  them apart.

## Layout

- `src/` is the verified library. `source` reads a LAD file with `ladfile`, `lad`
  holds it, `naming` and `converter` decide names, `kinds`, `types`, `signature`,
  `overloads`, `members`, `fields` and `classes` render its parts, `render` the
  file, and `warnings` lists what was left out. `ident`, `docs`, `text` and
  `order` are the building blocks; `options`, `plugin` and `cli` are what callers
  meet. `render::luau_text` is the specification of the output; `laws`, `alike`
  and `reorder` state what holds of every output.
- `tests/` runs the library on LAD files as `ladfile` parses them.
- `app/` holds the `lad-luau` program (`main.rs`) and the post-processor for
  BMS's generation pipeline (`lib.rs`): arguments, files and logging.

## Usage

```rust
use luau_lad_backend::{lad_to_luau, lad_to_luau_with, parse_lad_file, Options};

let lad = parse_lad_file(json)?;
let defs: String = lad_to_luau(&lad);
let smaller = lad_to_luau_with(&lad, &Options { init_types: false });
```

```bash
lad-luau bindings.lad.json bindings.d.luau   # or omit the output path for stdout
lad-luau --check bindings.lad.json bindings.d.luau   # fail if committed defs are stale
lad-luau --fflags                            # print the analyze flags, one per line
```
