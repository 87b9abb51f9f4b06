# pi-watcher

A network watcher for a Raspberry Pi or any small Linux box. It answers one
question: when the internet feels bad, which part of the network is at fault,
and how often does it happen?

Each cycle it probes a ladder of targets - LAN, WAN gateway, internet, DNS - and
any other hosts. A failure is blamed on the lowest layer at fault, alerts that a
lower layer's outage implies are held back until they stand on their own, and
everything is recorded.

- `src/` is the library: the judgement, free of sockets, files and clocks, and
  proved with Verus.
  - `engine`, with `target`, `status`, `ladder`, `hosts`, `events` and
    `snapshot`: the per-cycle evaluation.
  - `laws`, `runs` and `restart`: what holds of every cycle, of any run of
    cycles, and across a restart.
  - `config`, `probes`, `notify`, `store`, `monitor`, `web`, `cli`: checks,
    wire formats, queues, queries and decisions for the program around it.
  - `binary64`: latencies and percentages as bit patterns, with exact integer
    semantics; `layer`, `text`: the basics.
- `tests/` runs the library on concrete values, with SQLite in memory for the
  queries and with hardware arithmetic to compare against.
- `app/` is the program: TOML, SQLite, ICMP, UDP, ntfy and the dashboard, in
  one binary.
