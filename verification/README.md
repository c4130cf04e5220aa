# backtester_core

A deterministic, event-driven backtesting library whose behaviour is stated in contracts and
proved by Verus.

- `src/` is the library: order books, queue models, the exchange simulator, the account, the
  event engine, statistics, and the reading of market data. Prices and quantities are integers
  scaled by 1e8; nothing in the library depends on floating point.
- `tests/` runs it on concrete values.
- `app/` is what surrounds it: files and threads, ratios in floating point, log-normal latency,
  and the Python extension module.

## How the library is laid out

| Part | Modules |
| --- | --- |
| Values and arithmetic | `types`, `math`, `text`, `fees`, `cost_basis` |
| Order books and fills | `orderbook_l2`, `orderbook_l3`, `queue_model`, `exchange_simulator` |
| Money and limits | `account`, `risk_guard`, `stats` |
| Simulation | `event`, `heap`, `event_queue`, `sim_view`, `sim_state`, `strategy`, `callbacks`, `engine` |
| Market data | `columns`, `tick_source`, `l3_source`, `feeds`, `ingest`, `io` |
| Whole runs | `backtest`, `sweep`, `tuner`, `latency_model`, `rng` |
| Laws | `exchange_laws`, `stats_laws`, `engine_laws`, `engine_invariants`, `schedule`, `run_order`, `reproducibility`, `streaming` |

`sim_view` is the simulation as a mathematical state machine. `sim_state` and `engine` carry it
out, and their contracts speak of it. A strategy may state with `may_answer` what its callbacks
do, a latency model with `may_delay_order` which latencies it gives, and a source with `rest`
what it has still to give; what is known of a run then follows from them.

Contracts of outside functions, which are believed and not proved, stand in `collections`,
`columns`, `hints`, `rng`, and beside their only callers in `engine`, `ingest`, `backtest` and
`sweep`.
