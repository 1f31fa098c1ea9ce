# virtual_exec

A sandbox for a small Rust-like expression language. Source text is lexed and
parsed, compiled to a linear list of stack-machine instructions, and run on a
machine that enforces an instruction budget and a limit on virtual memory.
Functions provided by the host can be called from sandboxed code; floating-point
work is handed to the host as well.

The library in `src/` is verified with Verus:

- `lexer`, `parser`, `syntax`, `ast`: text to syntax tree, each stage stated
  against a grammar written as spec functions.
- `compile`, `instructions`: syntax tree to instructions, with the layout of
  every construct stated exactly, and the laws that relocating compiled code
  equals compiling it in place and that no jump leaves the code.
- `mem`, `mapping`: the heap with its accounting and a mark-and-sweep collector
  that frees exactly the cells unreachable from the roots. Unreachable cells
  stay counted until an allocation would not fit; the machine then collects
  (`reserve` states that a refusal leaves live exactly what the machine still
  reaches). The memory in use never exceeds what the machine's view accounts
  for (`accounted`), so an allocation that fits even when every value ever
  allocated is counted is never refused (`law_fitting_allocation_succeeds`).
- `ops`, `exec`, `step`, `eval`: values, operators and the machine; `step` holds
  the model of one instruction and `eval` the code that realizes it.
- `machine`: the execution instance, host functions and the basic library
  functions on lists and strings; every run function is stated as a run of
  protocol steps (`runs`), each an instruction, a served host call or a float
  reply.
- `laws`: properties of every run (budget, termination, timeouts, bindings).
- `recurse`, `render`, `text`: limits for walks over values, values as text
  within those limits, and decimal text of numbers.
- `tree_view`, `repl`: a tree view over values (children, visible rows,
  selection, folding, scrolling) and the decisions of the interactive shell,
  including the code an input runs as.

`app/` is the interactive terminal shell around the library; `tests/` runs the
library on concrete programs.
