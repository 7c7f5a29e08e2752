# yallma3_llm

A LLaMA inference engine whose file-format parsing, tokenizer and command
line logic are verified with Verus.

- `src/` — the verified library: GGUF metadata and tensor tables, the lm.rs
  and safetensors headers, quantized block unpacking, the BPE tokenizer
  (byte-level and character-level, `tokenizer.json` and `tokenizer.bin`
  loading, chat templates), argument handling, parallelism settings and the
  sampler's random number generator. Each public function states its result
  in its `ensures`; `roundtrip.rs`, `bpe.rs` and `gguf.rs` hold laws that
  span several functions: merges keep the text; skipping a value ends where
  reading it ends; decoding an encoding gives the text back, for byte-level
  and character-level vocabularies that cover the text, and for GPT-2 style
  pre-tokenizers on texts whose pattern matches cover the whole text (the
  regex crate does not promise that, so it is a condition of that law).
  The parsers never panic: inputs the console stops on (a file without the
  GGUF or lm.rs header, metadata that does not describe a LLaMA model, a bad
  alignment) are ruled out by preconditions that come with checking
  functions, and the console checks them first and stops with a message;
  other malformed data gives an error. The console itself still stops on
  missing tensors and on weights that reach past the end of the file.
- `tests/` — tests run against the compiled library.
- `app/` — the inference console: file I/O, the floating-point forward pass,
  sampling, SIMD feature detection and kernels, built on the library.
