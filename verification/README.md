# rust_socket_benchmark

An exhaustive UDP socket benchmark (std, socket2, mio, tokio) whose planning
core is verified with Verus.

- `src/` is the verified library: the configuration fields and their options
  (`config`), benchmark suites, their builder and the iterator that yields
  every combination of options exactly once (`suite`, with the mixed-radix
  arithmetic in `odometer`), the choice of benchmark for a configuration and
  its thread counts (`plan`), what the measuring loops do with each socket
  outcome (`transfer`), and the double barrier that lines the threads up
  (`sync`). `smallvec_model` and `platform` hold the contracts of the calls
  into `smallvec`, `num_cpus` and `std::time::Duration`.
- `app/` is the program: timers, sockets, threads and async runtimes, and the
  bandwidth report.
- `tests/` exercises the library.
