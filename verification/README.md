# hopperscript

A compiler for Hopperscript, a small text language for
[Hopscotch](https://gethopscotch.com) projects, written in Verus: the library's
behaviour is stated in `requires` / `ensures` contracts and proved.

## Layout

- `src/` — the verified library.
  - `text.rs`: character classes and string helpers.
  - `types.rs`: the project structure, the parsed program, and their views.
  - `ast.rs`: the Hopperscript grammar as spec functions, the parser proved
    against it (`generate_ast`, `ast`), and laws of the parser.
  - `utils.rs`: fresh ids, and the resolution of parameters against a project.
  - `generator.rs`: the generator from parsed statements to a project
    (`gen_project_from`, `gen_project`, and their `try_` forms that report
    why a program cannot be generated), and laws of the generated project.
  - `generator_laws.rs`: where each rule goes, and the statements the
    generator passes over.
  - `getdata.rs`: preparation of the block and object data.
  - `typess.rs`, `define.rs`: the small string and `define` parsers.
  - `compiler.rs`: `compile` and `try_compile`, from source text to project.
- `tests/` — tests of the library, some of them against combinator-built
  reference parsers.
- `app/` — the command-line front end: file reading, JSON data loading and
  export, error reports.
