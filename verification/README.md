# zredict

A play-money parimutuel prediction market engine, verified with Verus.

Users hold play-money points, predict an outcome, the pool splits
parimutuel-style, and a committee resolves. Markets may carry a house seed per
outcome: it gives a fresh market a starting price, is added to the prize pool,
and is forfeited to the real winners (or simply forfeited when every stake is
refunded).

## Layout

- `src/text.rs` – decimal rendering, identifiers, text comparison and trimming.
- `src/parimutuel.rs` – the payout split and its laws (payouts stay within the
  pool; winners never get back less than they staked).
- `src/models.rs` – accounts, markets, positions, pool views and receipts, with
  their mathematical views; market phases.
- `src/error.rs` – engine errors, their messages and HTTP status codes.
- `src/ledger.rs` – the model of the store and of every operation on it.
- `src/accounting.rs` – lemmas about balances, stakes and seed.
- `src/laws.rs` – what every operation keeps (well-formedness, points in play)
  and what a resolution settles for good.
- `src/store.rs` – the in-memory store, each operation proved against the model.
- `src/requests.rs` – the rules the API applies to requests.
- `app/` – the HTTP server (axum), the lock around the store, and the JSON
  shapes, including the floating-point price signal.
