# blinc_dsl_core

The lowering passes and the runtime tables of the Blinc UI language, written in
Verus. A parsed source goes through a fixed order of passes and comes out as a
program that a code generator can take: signals and state machines are calls of
host functions, components are calls of view functions, and host widgets take
their children, styles and properties by position.

- `src/` is the library. `ast` holds the syntax tree and `model` its views.
  `walk` is the rewriting walk that most passes share; `everywhere`, `notes` and
  `numbering` hold what is proved about such walks. Every pass has a module with its
  meaning as spec functions, its code, and its laws. `engine` puts the passes in
  order, `queries` and `project` answer what is asked around a compilation, and
  `engine_laws`, `project_laws` and `unmarked` state what holds of whole
  compilations. `host` and `abi` are the computing side of the host functions.
- `tests/` runs the library on concrete programs.
- `app/` is ordinary Rust around the library: the grammar, generated code, raw
  pointers, files, and widgets.
