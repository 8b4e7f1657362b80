# stock_mm

A market maker for a stock perpetual: Binance supplies the reference price, and
all orders stand on Gate. Both sides are quoted post-only; the side that would add
to the inventory grows less eager, orders that a fast market makes dangerous are
moved first, and inventory that is too large or too old is reduced with
price-protected reduce-only IOC orders.

The decisions are a library verified with Verus; each public function states what
it returns, and the public proof functions state what holds across calls.

```
src/
  types.rs       sides, purposes, tick grid, contract data
  config.rs      all parameters, with their defaults
  text.rs        text over character sequences
  decimal.rs     exact decimals
  time.rs        instants and durations
  util.rs        windows, back-off, digests, wall clock
  exchange/      JSON; messages and requests of Binance and Gate; the trading session
  market/        order book, reference price, basis, sessions, impact
  strategy/      inventory, quotes, protection, reduction, risk
  order/         orders, their state machine, reconciling them with the quotes
  engine/        the cycle that every event triggers, the paper exchange
  metrics.rs     fills, markouts, digestion times
app/             the program: configuration files, sockets, REST, the event loop,
                 and the floating-point formulas, whose verdicts the library takes
tests/           the library at work
```

Prices are ticks and sizes are contracts, both integers. What depends on floating
point (the fair price, the half spread, quantiles, profit and loss) is computed in
`app/` and handed to the library as prices, sizes and yes-or-no facts.
