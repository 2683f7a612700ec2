# turbovec

Vector search over vectors compressed to two, three or four bits per
coordinate, with the rules of the index proved in Verus.

- `src/` is the library. It holds the positional index (`index`, with its laws in
  `index_laws` and `freshness`; `kernels`, `runtime_cache`, `error`),
  the arrangement of codes for scoring (`pack`), search masks and results
  (`search`), codebook files and where they are kept (`codebook`,
  `codebook_cache`, `bytes`, `text`), and the value checks (`float32`,
  `validate`). Every function has a contract; what holds across several
  operations is stated as a proof function.
- `app/` is ordinary Rust around the library: the environment, files, threads,
  and the floating point that computes a codebook.
- `tests/` runs the library on concrete values.

Numbers are single precision, held as bit patterns. The library never does
arithmetic on them: the rotation, the codebook, the encoding of a batch and the
scoring of queries are functions that the caller hands in. A contract says what
such a function is handed and what becomes of what it gives. An encoder must
give a batch that fits the vectors, and a scorer results that fit the queries;
`EncodedBatch::check` and `check_results` test that.
