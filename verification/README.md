# laya-candle

English Laya decision-model inference with Candle.

A state and a set of questions go in; for each question a typed answer comes
out: a choice among named options, a score on a list of levels, or a noul
(yes or no) probability.

- `src/` is the verified library: reading and rendering questions, loading a
  tokenizer from its description, laying out token sequences, batching,
  temperatures, decoding answers, and what a model is located and loaded by.
- `app/` is the program around it: arguments, files, tensors and floating point.
- `tests/` runs the library.

```bash
laya-candle --demo
laya-candle --state "your text here" --questions questions.json
```

The model defaults to `convaiinnovations/laya` (Hub id or local directory).

The library loads and runs a tokenizer where none of its parts can panic on a text.
Any other one, such as one that searches by a regular expression of its own or
normalizes by a precompiled table, is run by the program, on the texts that the
library hands out.
