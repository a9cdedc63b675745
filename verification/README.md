# certus

The decision-making core of the Certus storage stack, written in Verus and
proved against its contracts.

- `src/` is the verified library:
  - `handler`: the NVMe block-device actor's command processing (sync,
    async and batched reads/writes, write-zeros, aborts, timeouts,
    controller resets) as a state machine over clients and their pending
    operations; `qpair` the queue-pair pool and its selection heuristic;
    `nvme`, `messages`, `device` the namespace checks, error texts and
    device facts.
  - `channel` and `actor`: SPSC/MPSC channel state and the actor
    lifecycle and message loop.
  - `dispatcher`, `segment`, `ipc`, `pci`: the dispatcher's staging rules,
    splitting IO into transfer-sized segments, IPC frame checks and PCI
    address parsing.
  - `multidev`, `singledev`, `extent`, `stats`, `numfmt`, `log`, `tsc`,
    `examples`: the benchmark configurations, device selection, CPU plans,
    thread placement, address generators, worker decisions, progress
    deltas, statistics, number formatting, log lines and TSC arithmetic.
- `tests/` runs the library on concrete values.
- `app/` is the unverified shell around it: threads, sockets, clocks,
  command-line parsing and floating-point reports.

Randomness comes from the `rand` crate through a few trusted wrappers in
`multidev::lba` and `multidev::worker`, whose contracts claim only that a
drawn number lies in its range.
