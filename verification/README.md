# jutsu

Jutsu is a small language for orchestrating local language models; `tgn` is
its command-line runtime. This repository holds it in two parts.

`src/` is the `jutsu` library, verified with Verus:

- `lexer` turns source text into tokens; `parser` (with `parser::grammar`,
  the grammar as functions over the token sequence) builds the syntax tree in
  `ast`. `parser::laws` proves how operators group and what let, if, def
  and inference statements yield, including that every function must end
  with a `return`.
- `evaluator` holds the runtime's decisions that do not involve floating
  point: variable scopes (`env`), the shared message queue (`queue`), the text
  built-ins (`builtins`), the document chunking and word matching behind
  `rag` (`rag`), how collections print (`render`), and the text side of
  `veil`/`reply` (`net`).
- `inference` builds the ChatML prompt and keeps the bookkeeping of a
  generation; `memory` maps compression names to llama.cpp file types;
  `tgn_pm` decides where models come from; `cli` reads the command line and
  lays out new projects; `text` defines the text operations everything else
  is specified with.

`app/` is the `tgn` program around it: the console and file runner, the
asynchronous evaluator on Tokio (its values carry `f32` numbers and tensors),
the calls into llama.cpp through `libloading`, and model downloads.

`tests/` exercises the library on concrete inputs.
