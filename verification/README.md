# trading_engine

An order-book imbalance trading engine. The decision logic (book keeping,
features, signals, risk limits, simulated execution, the live and backtest
step, and parameter research) is a library verified with Verus; the program
around it (command line, market data feeds, CSV and JSON files, metrics
server, thread pool, progress display) is ordinary Rust.

## Layout

- `src/` – the verified library.
  - `common` – sides, price levels, book updates, fills, trades, quotes.
  - `orderbook` – the two-sided book over integer prices, with snapshot and
    incremental updates and the best and top-N levels.
  - `features` – top-of-book and five-level imbalance, microprice, mid price.
  - `signals` – imbalance threshold signals.
  - `risk` – position and daily-loss limits.
  - `execution` – market-order fills against a simulated account with fees.
  - `ingestion` – the random-walk mock feed and the historical trade record.
  - `engine` – one step of the trading loop: update, features, signal, risk
    check, fill.
  - `backtest` – the backtest configuration and its final report.
  - `research` – replay of market events under strategy parameters, the
    parameter grid, ranking and sampling.
  - `decimal` – parsing of decimal text, with exponents, into fixed-point
    integers.
  - `fraction` – exact comparison of products too large for a machine word.
- `tests/` – tests of the library on concrete values.
- `app/` – the `launcher` program: live, backtest and research modes.

## Units

All quantities in the library are integers: prices in ticks of 1e-8, mid
and fill prices in half ticks, volumes in lots of 1e-8, cash in notional
units of one lot times one half tick (5e-17 of the quote currency),
imbalances as exact fractions, thresholds in millionths and fee rates in
parts per million. Amounts that would pass the range of `u128` are held at
its end. The program converts to and from decimals at its edges.
