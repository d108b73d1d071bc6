# stellar_grants

The rules of a grants platform — grants with milestones, amendments and
versions, fees, escrow and clawback approvals, waitlists, timers, milestone
dependency graphs, registries, badges, pauses, templates and audit logs —
written in Verus and verified against their contracts.

Layout:

- `src/` — the verified library. Each module holds one area of the contract
  with its state (plain Rust collections keyed by integers), its operations
  and their `requires`/`ensures`, and the proof functions that state the
  laws spanning several operations. Accounts are `u64` handles, text is held
  as bytes, and the ledger time is passed in.
- `tests/` — ordinary Rust tests of the library.
- `app/` — host glue for Soroban: address handles, the ledger clock,
  authorization, and the token transfers and events that the library's
  results call for.

Soroban's `Map`, `Vec`, `String` and `Address` are handles into the host's
object store: every operation on them is a host call through an `Env`, and
the contract's persistent storage is read and written the same way. The
library therefore holds its state as plain values — std collections keyed
by integers, byte strings, and `u64` account handles — and leaves reading,
writing and authorizing against the host to `app/`, which maps addresses to
handles with `AccountBook` and publishes the events that the library's
results call for.
