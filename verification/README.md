# codex-cache

Inspect, verify and safely clean the Codex release caches under
`$CODEX_HOME/packages` (or `$HOME/.codex/packages`).

The library in `src/` is written in Verus. It holds every decision the tool
makes, each with a contract that Verus proves:

- `version`: recognising `MAJOR.MINOR.PATCH[-suffix]` release directory names;
- `discover`: turning a listing of `releases/` into release records ordered
  newest first, with warnings, and assembling package and cache scans;
- `model`: size totals, the active and previous release, check counts;
- `plan`: which releases a keep policy removes;
- `layout`: the checks that verify a package store;
- `clean`: when a planned deletion is refused, how a plan is carried out
  release by release and its outcomes recorded, when a cleanup may start, and
  where the Codex root lies;
- `render`, `text`: every report, down to padding and human-readable sizes;
- `order`, `sums`, `paths`, `errors`: orderings, sums, paths and error texts.

The command in `app/` reads the file system, hands what it read to the
library, prints what the library renders, and deletes only the directories
the library accepts.
