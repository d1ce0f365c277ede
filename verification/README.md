# vnkey_core

A Vietnamese input method engine (Telex, TelexEx, VNI and VIQR) whose logic is
verified with Verus.

- `src/` is the verified library: text primitives (`text`), the Unicode tables
  (`unicode_map`), syllable parsing (`syllable`), phonology checks
  (`phonology`), tone placement (`tone`), the input methods (`telex`, `vni`,
  `viqr`), shorthands with JSON and CSV import/export (`shorthand`), the word
  dictionary with usage records and completions (`dictionary`), the engine
  itself (`engine`), diacritic removal (`converter`), error messages
  (`error`) and the decisions of the system-wide keyboard hook (`hook`).
  Each function states its behaviour over a mathematical model; the engine's
  behaviour is a set of spec functions over `EngineModel`, and laws such as
  the JSON/CSV round trips are public proof functions.
- `app/` is the platform layer: the C API, the serde/thiserror forms of the
  library's types, floating-point word prediction, reading dictionary files
  and the Windows hook that carries out the library's decisions.
- `tests/` holds the test suites.
