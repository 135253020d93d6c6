# bc_core

The core of a personal-finance ledger's import pipeline, verified with Verus:
how bank-statement rows become transactions, how metadata values fit their
keys, how a loan amortizes, and what the user interface is shown.

`src/` is the verified library; every function carries a contract that Verus
proves. Calls into `rust_decimal` and `jiff` stand behind small trusted
wrappers whose contracts name what those crates return.

- `account_path`, `commodity`, `resolve`, `plan`, `residual`, `write`,
  `import_exec`, `tags`, `plan_totals`: resolving a document's legs against
  the account tree and commodity registry, allocating occurrence slots,
  deciding per row whether to create, attach or skip, corroborating a
  candidate transaction, tallying what was skipped and why, and the
  per-account totals a dry run reports.
- `metadata`, `coerce`, `storage`, `usage`: metadata entries, the
  coerce-else-flag rule, how values are laid out in their tables, and key
  usage.
- `batch`, `discard`, `profile`, `engine`: import runs, their discard, stored
  profiles, and the per-profile engine decisions.
- `loan`: loan terms and their amortization schedule.
- `ipc`, `audit`, `budget_view`: what the user interface is handed.
- `decimal`, `model`, `text`, `error`: shared values.

`app/` is the ordinary Rust around it: the SQLite services, importer
configuration and registry, serialised forms, and the floating-point annuity
payment. `tests/` exercises the library from outside.
