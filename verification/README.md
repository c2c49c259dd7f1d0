# mempool_monitor

Watches the mempool of a Bitcoin Core node and keeps, for the transactions that
have ancestors or descendants, their sizes, weights and fees; groups them by
weight, cuts the weights into ranges, and serves the results as JSON and HTML.

- `src/` is the verified library (Verus): the data (`mempool_data`, `str_map`),
  the processing of each round (`mempool_processor`), the steps of the
  monitoring loop as a state machine (`monitor`), the pages and
  documents (`apis`, `api`), and the text helpers (`text`, `json_text`).
- `app/` is the program around it: the RPC calls to the node, the loop that
  performs the actions the monitor asks for, and the Rocket server with its
  endpoints.
- `tests/` runs the library on concrete values.
