# statsvg_rs

The figures of a GitHub stats card — last-year and lifetime totals,
contribution streaks, the 18-week heatmap, the top-languages chart, star and
fork totals, the most-starred, pinned and contributed-to repositories —
computed from what the GitHub GraphQL API answers, with their contracts
proved by Verus.

- `src/` — the verified library:
  - `model.rs` — the API's data as plain values, the card's values and their views
  - `streaks.rs` — current and longest streak, and laws about them
  - `grid.rs` — the contribution heatmap
  - `text.rs` — splitting, trimming and lowercasing text
  - `languages.rs` — the hidden-languages setting, bytes per language, the top five
  - `repos.rs` — star/fork totals, private/public counts, highlighted repositories
  - `dates.rs` — creation year, lifetime years, yearly windows and lifetime totals
  - `stats.rs` — finding the user, the avatar address, and the whole card
  - `reorder.rs` — the chart does not depend on the order of the repositories
- `tests/` — tests of the library on concrete values.
- `app/` — HTTP requests (reqwest), JSON decoding (serde), concurrency
  (futures), the environment variable `STATSVG_HIDE_LANGS`, and the language
  shares as floating-point percentages.
