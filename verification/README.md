# LoadPilot

A distributed HTTP load generator: a coordinator and its agents drive a target at
a planned rate, measure every request and report once a second.

`src/` is the decision logic, verified with Verus. It does no I/O: it takes times,
messages and results as plain values and says what to send, count and report.
`app/` is the program around it: sockets, HTTP, the Python interpreter, the command
line and JSON.

## Units

The library computes exactly. Times are nanoseconds, rates and means are fractions,
and what agents report arrives in picoseconds and billionths of a request per
second. Floating point exists in `app/` alone, where JSON is read and written.

## Modules

| Module | What it holds |
|---|---|
| `plan` | plans, tasks, HTTP methods |
| `scheduler` | load profiles over time, the choice of tasks by weight |
| `budget` | whole requests out of fractional rates |
| `metrics`, `histogram_laws` | latency histograms, counters, exact percentiles |
| `coordinator` | a run on one machine, tick by tick |
| `vuser`, `client`, `response` | virtual users, the requests and responses of their tasks |
| `agent` | an agent's session; `agent::runner` runs its shard of a plan |
| `distributed`, `wire`, `aggregate_laws` | shards, registration, following and aggregating a fleet |
| `framing`, `broker`, `nats` | lines and payloads in a stream, both sides of the message protocol |
| `serve`, `prometheus`, `cli` | the service, the metrics page, the choice of mode |
| `http`, `map`, `text`, `decimal`, `number` | requests, ordered maps, text, numbers |
| `bench_target` | the benchmark target's answers |

## What is trusted

Verus believes the contracts of `String::push`, `String::from_utf8`,
`str::to_uppercase`, `serde_json::from_str` and rustls's `ServerName::try_from`;
everything else in `src/` is proved.
