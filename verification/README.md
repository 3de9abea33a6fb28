# nautilus_core

The decision core of a low-latency trading system, verified with Verus.

- `src/` holds the library, whose contracts Verus proves: order-flow analytics,
  wire formats and connection handling, network card settings,
  operating-system resource accounting, telemetry, event pipelines, options and
  portfolio arithmetic, and the rules of start-up, supervision and shutdown.
  Calls into other crates stand behind small wrappers, each with a comment that
  says what is taken on trust.
- `tests/` runs the library on concrete values.
- `app/` is the program around it: clocks, sockets, threads, system calls and
  floating-point analytics.

Prices, volumes, weights and rates are integers in the library: fixed-point
numbers, mostly in units of one hundred-millionth, or unreduced quotients. Times
are arguments, in nanoseconds or milliseconds. What only the operating system
can do comes in as a value, and what it should do goes out as one.

Properties that span several functions are stated as public proof functions
whose names begin with `law_`.
