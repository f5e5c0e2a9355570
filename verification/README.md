# zoea_lm

A small GPT-style language model built on `burn`, with its data handling
written and verified in Verus.

- `src/` is the verified library:
  - `data`: cuts a token sequence into samples of a fixed window, each paired
    with the same window moved one token on;
  - `dataloader`: encodes text with `tiktoken-rs`, pairs each window with the
    next one in a `burn` in-memory data set, and lays a batch out as rows of
    tensor data;
  - `attention`: the causal mask and the head layout of multi-head attention;
  - `encoder`: the sizes of the token and position embedding tables.
- `app/` is the program and the tensor code around the library: the attention
  layer, transformer blocks and the model on a generic `burn` backend, the
  data loader, and the `candle` embeddings.
- `tests/` exercises the library on concrete values.
