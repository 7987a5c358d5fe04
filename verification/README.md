# onnx_http

An HTTP server that serves sentence embeddings from ONNX models through an
OpenAI-compatible `/v1/embeddings` endpoint, with its decisions written as a
Verus library.

- `src/` — the library, verified with Verus:
  - `catalog.rs`: the downloadable models and case-insensitive lookup by name;
  - `batching.rs`: tokenization (truncation to the model's sequence length,
    the tokenizer's encodings named as its results), length ordering, sub-batches whose longest
    text is at most twice the shortest, padded model inputs, and putting
    the model's outputs back in request order;
  - `registry.rs`: loaded models by name, sorted names, the default model;
  - `routes.rs`: requests, responses, the status and message of each
    refused request, and the answers given while the models are loading;
  - `cli.rs`: the command line;
  - `download.rs`: download URLs, file lists, writing and reading back
    `model_config.json`, a model's maximum sequence length, listing lines;
  - `text.rs`: characters, ASCII case folding, lexicographic order, decimal
    numbers, padding, and `usize` parsing.
- `app/` — the program around it: argument and environment reading, file and
  network I/O, ONNX Runtime sessions and mean pooling (floating point), and the
  axum handlers with serde copies of the API types.
- `tests/` — tests of the library on concrete values.
