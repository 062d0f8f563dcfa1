# Compy

An experimental compiler for a small systems programming language: fixed-width
integers, structs, arrays, slices, raw pointers, modules, compile-time
evaluation and the C ABI. It interprets programs, and it lowers them to LLVM.

`src/` is the compiler proper, written in Verus. Every function states what it
computes over a mathematical model of its arguments, and is proved to terminate
without panicking. `app/` is the command line: it reads and writes files, asks
LLVM for layouts, and hands the library's commands to LLVM.

| Module | What it is about |
| --- | --- |
| `lexer`, `source`, `text` | tokens, positions, text |
| `grammar`, `parser`, `ast` | which tree a list of tokens stands for; the parser |
| `resolution`, `linking`, `modules`, `visibility` | modules, and the one program they make |
| `specialize`, `instances` | generic functions and structs |
| `expansion`, `comptime` | compile-time evaluation, reflection and generation |
| `typing`, `semantic`, `typed`, `typed_eval`, `folding`, `ops`, `integers`, `floats` | the typing rules, semantic analysis, constants |
| `mir`, `deferral` | control flow as blocks |
| `execution`, `interpreter`, `memory` | what running a program means; the interpreter |
| `emission`, `codegen`, `instructions`, `wiring`, `soundness`, `guards` | the commands that build machine code |
| `formatter`, `reformatting`, `separation` | the source formatter |
| `pipeline`, `cli` | the stages in a row; what the command line asks for |
| `laws` | what holds between the stages |

Floating-point numbers are numerals inside the library. The caller supplies
their arithmetic, and likewise the layout of machine types.
