# btc_updown

A paper-trading engine for the five-minute BTC Up/Down prediction markets,
with its decision logic verified by Verus.

- `src/` — the verified library: fixed-point quantities and an exact decimal
  parser (`fixed`), bar geometry (`candle`), the momentum BULL regime
  (`decision`), Kelly sizing and bet settlement (`tracker`), the live BULL
  session and its simulation (`session`), the order-book BEAR rules and
  trade bookkeeping (`bear`, `obi`), the kline feed state machine (`feed`),
  market slugs and odds (`clob`), ATR-normalised features (`features`), the
  V1 regime rules and their diagnostic pass (`regime`), summary figures
  (`summary`) and the stored records (`models`).
- `app/` — the program around it: command line, SQLite, HTTP and websocket
  I/O, logging, and the floating-point research statistics.
- `tests/` — tests of the library on concrete values.

Prices and volumes are integers in units of 1e-8; quotients that need not
be rounded are kept exact as `Ratio { num, den }`. Every quantity the
library takes is bounded to `MAX_UNITS` (1e15 units, ten million whole), a
choice of this representation: `parse_decimal` reads a larger value, or a
number in exponent notation, as missing.

Paging back through the exchange's history goes as far as the exchange
allows: it ends on an empty page or a failed request.
