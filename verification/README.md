# guardian

A forward-collision warning workbench: the decision vocabulary of an
arbiter, the metric semantics that judge an arbiter over scripted scenario
runs, the runner's command-line grammar, and the integer state machines of
the track simulator, proved with Verus.

- `src/decision.rs`: `Decision` and its severity order.
- `src/metrics.rs`: per-run classification (final-second brake, false
  alarm, response latency, chatter) and latency medians.
- `src/evaluation.rs`: the suite evaluation (seeds, tallies, failures,
  report) and the acceptance targets.
- `src/cli.rs`: the runner's arguments (`trace`, `metrics`), decimal
  parsing, error messages.
- `src/lifecycle.rs`: per-channel dropouts and ghost lifetimes.
- `src/sensor.rs`: sensor channels and the simulator's integer rolls.
- `app/`: the floating-point simulator, the arbiter interface, the runner
  binary and report printing.
