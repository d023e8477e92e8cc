# bybit_trader

A price-movement trading bot for Bybit linear contracts, with its logic
verified in Verus.

- `src/` is the verified library: request signing (`crypto`, `session_`),
  request plans and reply clean-up (`session_`), the market-data rules
  (`get_`, and in `get` the variant that reports every moved symbol), order placement
  (`set_`), settings files (`settings_`), the main loop's rules (`cycle`),
  the `ndarray` array of symbols behind trusted methods (`symbols`)
  and string helpers (`text`).
- `app/` is the program: it reads the settings directory and the clock,
  performs the planned HTTP requests, parses JSON replies, does the
  floating-point price arithmetic, and runs the main loop.
