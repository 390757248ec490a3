# ce_envs

Verified cores of three small exercise environments, written in Verus.

- `capitalize`, `sentences`: the capitalizer (every other word in upper case)
  and the random sentences it is tested on.
- `grades`, `command`, `model`, `gradebook`, `challenge2`, `generator`: the
  Danish grade book, its command language, a script runner and a random script
  generator. `model` holds the mathematical tables the grade book is specified
  against.
- `security`, `lattice`, `classify`: flows and their validation, the security
  lattices inputs are drawn from, and the level assignment of a classification.
- `coverage`, `xml`, `runner`: filtering Cobertura coverage reports down to one
  class, and the naming rules of the coverage runner.
- `text`, `random`: shared text utilities and the random-number calls.

`app/` holds what is not verified: JSON types, floating-point statistics,
files and processes. `tests/` exercises the library with the outside crates
linked.
