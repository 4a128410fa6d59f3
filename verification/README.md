# vibe_coding_tracker

Usage and code-operation statistics for AI coding assistants, with the logic verified by Verus.

- `src/` is the verified library: aggregation of analysis records by model (`batch`), daily
  averages by provider (`averages`, `analysis_averages`), grouping of token usage by day or ISO
  week (`usage`, `period`), the per-model merge of token usage (`usage_merge`), the rows, totals
  and provider averages of the usage tables (`usage_table`, `usage_averages`),
  Gemini session reading (`gemini`), the price tier of a request (`pricing`), number formatting
  (`format`), and the JSON model the rest reads (`json`).
- `app/` is the command-line program around it: argument parsing, JSON (de)serialisation,
  HTTP requests to GitHub, printing, and the floating-point cost and average computations.
- `tests/` exercises the library on concrete values.
