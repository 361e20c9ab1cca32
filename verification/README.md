# landed

Finds code that shipped but never runs: functions that the tests can reach and
the running program cannot. The analysis is a library verified with Verus; the
command line around it is ordinary Rust.

## Layout

- `src/` is the library.
  - `ir` is what a frontend hands to the analysis: definitions, edges, symbols.
  - `frontend/` reads source: Rust syntax, the compiler's MIR, and the syntax
    trees of Python, TypeScript and Go.
  - `project`, `targets`, `lang` and `config` say what a directory holds, where
    it starts and what its developers declare.
  - `scanner` goes from a directory to a `scan`, the call graph.
  - `findings`, `regions`, `evidence`, `impact` and `changes` draw conclusions
    from it.
  - `baseline`, `report` and `render` say them.
  - `graph`, `names`, `order`, `seqs`, `text`, `number`, `paths`, `source` and
    `calendar` are what all of it is built from.
- `tests/` runs the library on sources held in memory.
- `app/` is the command line: arguments, files, cargo and git.

## What is proved

The functions of the library state what they return for every input that they
take, over plain models: texts are sequences of characters, a call graph is the
list of its rows and the set of the calls in them, reachability is the existence
of a chain of calls, and the distance of two functions is the length of the
shortest. Public proof functions state what holds across functions, such as that
the regions hold each unreachable function exactly once, that two of them share
a region exactly where calls among unreachable functions join them, that neither
a call guessed from tokens nor one more pattern in the configuration ever adds a
finding, that a declared root and all that it reaches are never reported, and
that a test which crosses a process boundary is always selected.

Some things are not stated:

- What a parser of another crate returns is not proved. Each such call stands
  behind one small function whose comment says what is taken from it: that the
  result is a function of the text, and no more.
- The single steps in which the syntax of a Rust file is listed, one for each
  kind of node that the parser's visitor meets, state nothing. Only the list as a
  whole has a name; what follows from a list is proved.
- Of the clock nothing is known. The date that a baseline carries is proved to be
  that of the seconds that the clock gave.
