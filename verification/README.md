# donation_dice

Two small Solana programs, with their decisions verified in Verus:

* a donation registry: donors send lamports to a donating account; a storage
  account at a program-derived address records each donor's total; only the
  recorded donating account may withdraw;
* a dice game: a player bets; a six makes the casino pay five times the bet,
  any other throw loses the bet to the casino.

Layout:

* `src/` – the verified library: key order (`key`), the donation ledger (`map`),
  the storage layout (`state`), instruction formats (`instruction`, `dice`),
  the processing of instructions into effects (`processor`, `dice`), reading a
  typed bet (`bid_text`), and the calls into borsh and `solana_program`
  (`bytes`, `pda`).
* `app/` – runtime glue: converting the runtime's accounts, carrying out the
  effects (writes, transfers, account creation), error conversions, and the
  clients' input and instruction building.
* `tests/` – tests of the library.
