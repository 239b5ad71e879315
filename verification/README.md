# mlua_extras: Lua definition files, verified

Generates definition files (`--- @meta` files) for the Lua language server from a typed
description of Lua values: global values, classes, enumerations, aliases, functions and
modules. The rendering is written in Verus and proved against a specification of the text it
produces.

Layout:

- `src/typed.rs`: the typed description (`Type`, `Param`, `Return`, classes, modules,
  definition groups).
- `src/signature.rs`: type signatures and function/method declaration lines.
- `src/docs.rs`: documentation comments (`--- ` before every line).
- `src/output.rs`: the specification of a whole definition file, as text written and the
  error that stops writing.
- `src/type_file.rs`: the generator, its file iterator and the writer that renders a group
  into a `String`.
- `src/error.rs`: rendering errors and their conversion to `mlua::Error`.
- `src/text.rs`: joining, splitting on newlines, decimal numbers.
- `src/laws.rs`: properties of signatures, documentation and escaping that hold for every
  input.
- `src/layout_laws.rs`: how a file is laid out: its segments, the lines of a class, the
  shape and indentation of a module table.
- `app/lib.rs`: writing rendered files to streams and to disk, and a standard `Iterator`
  over the generated files.
