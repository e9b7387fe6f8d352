# netanvil

A load tester whose rules are verified with Verus: how fast requests are sent, when the rate goes
up and down, when a test ends, what the control API answers and how results are shown.

- `src/` is the library. Every rule in it has a contract, and the laws that tie rules together are
  public proof functions.
  - `num`, `rounding`, `decimal`: IEEE 754 doubles on their bits, with exact rounding, and their
    fixed-point text.
  - `controller`: the rate controllers (static, step, PID, composite PID, autotuning, ramp,
    arbiter), the constraints that an arbiter composes, and the builder.
  - `scheduler`, `timer_thread`, `precision`: when requests are due and how long to wait.
  - `coordinator`, `histogram`, `report`: the control loop's state, latency buckets and results.
  - `engine`, `io_worker`, `in_flight`, `generator`, `capture`, `dropping`, `signal`, `isolation`:
    the decisions of the threads that send requests.
  - `api`, `cli`: what the servers answer and what the command line shows.
- `app/` is the program around it: threads, sockets, TLS handshakes, files, random numbers,
  logarithms and exponentials.
- `tests/` runs the library on concrete values.

Rates and times cross the library's border as plain values: a double is a `Num` that holds its
bits, a time is a number of nanoseconds.
