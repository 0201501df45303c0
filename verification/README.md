# dsrust

A verified library for programs made of prompted predictors: what such a program is, how it is
saved and loaded, how its calls are traced, charged and observed, and the optimizers that rewrite
its demonstrations and instructions.

- `src/` is the library, verified by Verus. Its contracts are stated over models of the data
  (`XModel` for a type `X`), reached by `deep_view`. What is trusted rather than proved is five
  small functions that call out of the library, and one specification of a function of std: the
  JSON form of a string (`observe::json_string`), canonical decomposition (`normalize::nfd`), and in
  `text` the lower case and the `Debug` form of a text, whether a character is alphanumeric, and
  `String::push`.
  - `text`, `normalize`, `double`, `powers`, `entries`, `sorted`, `duplicate`: texts, numbers and
    maps.
  - `example`, `signature`, `program`: rows, signatures and the predictors of a program.
  - `lm`, `module`, `observe`: chat turns and usage, traces and saved state, and the points that
    observers are told about.
  - `optimize`: the optimizers. Anything that waits on a model is a state machine: it says what to
    run next and is told what came back. Random draws are handed in as indices.
- `app/` is ordinary Rust around the library: futures, spans, schemas, serialization and
  floating-point averages. It hands each listener what the library says it is told.
- `tests/` runs the library on concrete values.

A number that the library orders but never computes with is a `Double`, the bits of a 64-bit float.
