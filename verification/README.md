# sao2

The front end of a small statically typed language, from source text to a validated intermediate representation,
written in Verus: every function of the library carries a contract. The contracts are proved, but for those of three
functions of the standard library that Verus knows nothing of (`String::push`, `String::from_utf8` and
`String::from_utf8_lossy`), which are believed.

- `source`, `diagnostic`, `text`: source files, spans, and how errors and warnings are shown.
- `lexer`, `grammar`, `ast`, `parser`: tokens and syntax trees. `grammar` says what the parser accepts. A tree is
  parsed under a number that its nodes carry, so facts about one tree are not taken for facts about another.
- `temporary_parser`: a parser for programs of one `print` statement.
- `analysis`: the facts of name and type analysis, which the later stages read.
- `semantic`: the function a program starts in, union syntax and narrowing, the right to change things, control flow,
  and the conditions that a program meets before it is lowered (`semantic::handoff`).
- `lowering`: from such a program to the intermediate representation.
- `ir`: the intermediate representation, its text form and its validity.
- `escape`: which values of a program can outlive the function that made them.
- `host_compiler`, `program`, `driver`: what is said to the host's C compiler, what comes of running a program, and
  what the command line does with the outcome.

In each stage the spec functions state what the stage computes, and the executable code is proved to compute it.
Properties that relate several functions are public proof functions whose names start with `law_`.

`app/` holds what touches files, processes and the terminal.
