# ncd_tipping

A verified core for a few small NEAR contracts:

- **tipping** — authors publish articles (`<account><number>` ids); a tip is
  split 90% to the author, royalties above 0.0001 NEAR out of the remaining
  10%, and the rest to the contract (the author keeps the 90% even when it is also a
  royalty holder or the contract; another account named twice gets its last
  amount); failed transfers are recorded and refunded once on the next tip.
- **linkdrop** — NEAR attached to a public key, claimed later into an
  existing or a new account.
- **experiment** — a variant of the tipping split that first cuts the tip
  down to four significant digits (`near_helper::as_scientific_notation`).
- **greeting / sign-up** — a per-account greeting, and a sign-up contract
  that forwards keys to a linkdrop contract.

`src/` is verified with Verus. Each contract is a state machine over plain
values: a call takes a `CallContext` (what the runtime reports about the
call) and answers with its new state and the promises to schedule
(`ScheduledPromise`). Account-id validity is delegated to
`near_sdk::env::is_valid_account_id`, and the cut of a tip to
`near_helper::as_scientific_notation`; both are stated in full.

The contracts' `LookupMap`s and `HashMap`s are held as `strmap::StrMap`,
a string-keyed map verified here: a `LookupMap` is storage, not a value, and
vstd specifies `HashMap` lookups for integer keys only.

`app/` holds the runtime side: reading the context and promise results from
`near_sdk::env`, storing state, scheduling the promises.

Main proved facts: the payout of a tip never exceeds the tip
(`payout::lemma_payout_within_tip`), articles without royalties split 90/10
(`payout::lemma_split_without_royalty`), distinct article numbers give
distinct ids (`tipping::lemma_article_ids_distinct`), the experimental
split stays within the tip too (`experiment::lemma_cheap_payout_within_tip`),
and a claim whose account creation fails restores every balance
(`linkdrop::lemma_failed_claim_restores`).
