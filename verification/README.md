# quorum_credit

The rules of a vouched-credit contract on Soroban, verified with Verus.

Vouchers stake tokens behind a borrower. Against enough stake the borrower is
given a loan; when it is paid back, the vouchers get their stakes back and share
the yield. An insurance pool compensates vouchers of loans that were written off.

## Layout

- `src/types.rs`: addresses, errors, events and other plain values.
- `src/host.rs`: lists held by the contract host (`soroban_sdk::Vec`). Everything
  that is taken from the SDK without proof stands here.
- `src/ledger.rs`: what one call sees, and the state that it stands for.
- `src/helpers.rs`: arithmetic that notices overflow, and shared lookups.
- `src/loan.rs`: referrals, loan requests, reads, reminders, reputation.
- `src/repayment.rs`: repayments and the payouts that close a loan.
- `src/insurance.rs`: contributions and claims.
- `src/laws.rs`: what holds of the contract as a whole.
- `app/`: the contract as the network runs it, which loads entries, runs a rule,
  writes back and carries out what the rule has recorded.

## Reading a contract

A rule either refuses, with the reason that its `*_refusal` function gives, and
leaves the ledger as it was, or brings it to the state that its `after_*` function
gives. Reasons tell apart an error that is returned, an abort with an error, an
abort because a number leaves its range, and a question that the host has to
answer before the rule can be run again.
