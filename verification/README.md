# lau_conservation_guard

Budget enforcement for the LAU construct: every AI operation costs conservation units,
and a guard tracks, checks and reports what was spent.

## Layout

- `src/` — the library, verified with Verus. It holds everything that can be computed
  exactly:
  - `operation.rs`: the operation kinds, their base costs as exact decimals, and the
    names under which a report groups them;
  - `receipt.rs`: receipt identifiers (`cr-` and a counter in decimal), with the proof
    that different counters give different identifiers;
  - `ranking.rs`: the stable descending ranking used for spenders and report sections,
    with the proofs that it is unique and sorted;
  - `report.rs`: the choice and labelling of the top spenders and the line-by-line
    layout of the rendered report.
- `app/` — the guard itself. Its amounts are `f64` values, so the ledger (spend,
  refund, affordability, conservation check, degradation strategies) and the serde
  support live there and call the library for the exact parts.
- `tests/` — tests of the library.
