# langs

Small language tools, verified with Verus: front ends, compilers and interpreters for
several toy languages.

- `src/beam`: the beam language: lexer (`parser`), declarations and programs
  (`front`, `program`), an interpreter (`run` over `mach`), and a bytecode compiler
  (`fast`) with its runtime (`rt`).
- `src/bug`: the bug language: lexer (`tokens`), expression and statement parser
  (`parser`, `bug`), and the compiler to intermediate operations with its type
  checker (`compiler`).
- `src/bug_new`: a second bug front end: its lexer, and its types with their sizes.
- `src/miku`: the miku assembly-like language: parsing, linking and translation to C.
- `src/laigo`: a small assembler for ARM and x86 text.
- `src/rust_lisp`: a lisp reader, its compiler, and C output.
- `src/table.rs`, `src/text.rs`, `src/number.rs`: shared tables, text and number
  helpers.
- `app/`: the command-line driver: reading files, writing outputs, and the float
  arithmetic that the verified code hands out.

Each public function states its result as a spec model; the laws are `law_*` proof
functions next to the code they speak of.

What is not here:

- The x86 back end of an older version of the bug compiler: its source imports an
  intermediate-code module, a target description and an x86 encoder that do not exist
  among its files, so it cannot be built, and its types are unknown.
- The raw-memory parts of the beam runtime (a byte-string header and a heap list of
  `malloc`ed blocks): the runtime keeps its stacks, strings and objects in vectors, and
  its collector works on them. The owned slice (`beam::slice`) is kept over a vector,
  with `set` in place of mutable indexing; the collector's header (`rt::GcInfo`) is
  kept, and the timer that prints how long a run took is in `app/`.
- The parser of the second bug front end: only its types are here.
