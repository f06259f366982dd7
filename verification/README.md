# spark_dashboard

The verified core of a real-time hardware and LLM-engine monitoring dashboard.

`src/` is the library, checked by Verus:

- `text` — Unicode white space, trimming, splitting and line splitting over `Seq<char>`.
- `nodes` — parsing the `--nodes` URL list, and `NodePoller`, the bookkeeping of the
  node-polling loop (online flag, last readings, stale readings dropped after a streak
  of failed polls).
- `metrics` — metric records, the choice of monitored GPUs, and `EngineCounters`, which
  turn cumulative engine counters into per-poll deltas.
- `history` — rollup cutoffs, hourly retention, the persisted recording switch, and the
  daily → hourly → raw order of the summary query.
- `logs` — finding the vLLM/DeepSeek container in `docker ps` output.
- `startup` — where the history database is opened, and which engine overrides apply.
- `server` — which embedded asset a request path names, its MIME type (through
  `mime_guess`), how a static request is answered, and setting defaults.

`app/` is the program around it: command line, HTTP server, WebSockets, the SQLite
history store, HTTP polling of node agents and `docker` processes.
