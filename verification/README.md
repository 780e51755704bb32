# shivacore

Kernel subsystems of ShivaCore with machine-checked contracts, written in
Verus.

## Layout

- `src/` — the verified library, one module per subsystem:
  `threads` (threads, TLS, futexes, clone flags), `system` (boot phases, init,
  credentials, process groups and sessions), `signals` (POSIX signals),
  `smp` (per-cpu data, run queues, migration, IPIs, barriers, load
  balancing), `sockets` (Unix and IPv4 sockets), `user_io` (descriptor tables,
  pipes, poll), `tracing` (ring buffer, tracers, profiler, histograms),
  `timer` (durations, clocks, timer wheel), `tcpip` (IPv4/UDP/TCP wire
  format, routing, socket tables), `security` (multi-signature proposals,
  audit log, reputation, rate limiting, keyed channels), `user_sched`
  (scheduling of ring-3 processes). `idmap`, `counters`, `seqs` and `text`
  hold shared data structures and lemmas; `laws` states properties that span
  several operations.
- `tests/` — tests run against the compiled library.
- `app/` — what stays outside verification: the serial console on COM1 and
  the statistics and reports computed in floating point.

## What the crate leaves out

- The system-call dispatcher (`SyscallDispatcher`) is not part of the crate:
  it rests on the kernel modules `ats1000` (process ids and exit codes) and
  `capability` (capability checks) and on the `libshivacore` crate, none of which ships
  with these kernel subsystems.
- The ring-3 process system (`UserProcessSystem`) is left out for the same
  reason: it needs the user-space memory manager (`userspace`) and the ELF
  loader (`elf_loader`). The scheduler it drives (`user_sched`) is here.
- Of the IP stack, frame handling (`IpStack::handle_frame`) and UDP sending
  (`udp_send`) are left out: they go through the network-device layer
  (`net`). `tcpip` keeps the wire formats, routing, the socket tables and
  the handling of IPv4 packets; `Ipv4Address` and `NetworkError` stand in
  the crate for the types of that layer.
- Averages, percentages and other floating-point figures (CPU load,
  histogram and profiler reports, trace summaries) are computed in `app/`,
  over the integer counts that the library keeps.
- Sequence numbers of trace events, samples and spans count per tracer,
  profiler and span list; the crate holds no global counters.
