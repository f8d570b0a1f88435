# Sharklet

The verified core of a cross-chain flash-loan arbitrage bot, written in
Verus.

- `src/` is the library. Every function in it carries a contract that Verus
  proves: the bounded dashboard log (`log_store`), the circuit breaker with
  its rolling windows and failure tracker (`risk_engine`), block-number
  consensus and endpoint benching (`rpc_manager`), DEX pool resolution
  (`dex_registry`), the quote cache, router lookup and round-trip rule
  (`scanner`), feed selection and price freshness (`price_oracle`), the
  pre-flight block checks and their audit trail (`simulation`), the dry-run
  retry schedule (`executor`), the journal's loss count (`logger`), how a
  round of the main loop ends (`cycle`), and the decimal and hex text these
  read and write (`text`, `address`). Laws that relate several calls are
  public `lemma_*` proof functions beside the code they speak of.
- `app/` is the bot around it: Ethereum calls, SQLite, the HTTP dashboard,
  the main loop, and the arithmetic on US-dollar amounts, which is floating
  point and therefore not part of the verified library.
- `tests/` runs the library on concrete values.
