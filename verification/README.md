# kaniran_core

The verified core of a Japanese dictionary segmenter's dictionary layer.
Every function in `src/` is checked by Verus against its contract.

Modules:

- `word`, `segment` — the word and segment data model, lite segment lists,
  scored paths and the bounded, score-ordered top array.
- `synergy` — the rules that bind two adjacent segment lists (noun + particle,
  の + だ, prefixes and suffixes, ...).
- `hint`, `dict_predicates` — kana hint insertion and easy-hint parsing.
- `suffix`, `suffix_load`, `suffix_lookup`, `suffix_rules` — the suffix
  description table and rule registry, the load plan that builds the suffix
  cache, suffix matching in a word or sentence, the unique-match gate, and
  what each suffix rule looks up.
- `substring` — which substrings of a sentence are looked up, and the
  kanji-break positions collected from the words found.
- `loader` — the dictionary loader's decisions: reading rows, sense rows,
  conjugation readings and targets.
- `counter`, `split` — counter recipes and the simple-split engine.
- `context` — the loaded tables and per-call bindings.

`app/` holds the PostgreSQL and XML plumbing that feeds these functions.
