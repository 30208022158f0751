# qwen3-rs

Export and inference support for the Qwen3 family of language models, as a library whose behaviour
is stated in contracts and proved with Verus.

- `src/export`: which architecture a published model has, its configuration, and which weights its
  checkpoint is made of, in which order.
- `src/inference`: reading the header and the weights of a checkpoint, the caches of a hybrid model,
  the layout of its forward passes, text generation and chat.
- `src/json.rs`, `src/text.rs`, `src/mask.rs`: JSON trees, texts and numbers, attention masks.
- `app`: files, terminal and floating-point arithmetic around the library.
- `tests`: tests that run the library.

Single-precision numbers pass through the library as their bit patterns. The library decides which
numbers meet, in which order, and where they are kept; the arithmetic on them is in `app`.

Laws about several functions are public proof functions whose names start with `law_`.
