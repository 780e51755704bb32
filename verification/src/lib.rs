//! ShivaCore kernel subsystems with machine-checked contracts: threads and
//! futexes, process groups and boot sequencing, POSIX signals, SMP
//! bookkeeping, tracing, timers, sockets, user I/O, the TCP/IP layer, the
//! security layer and the scheduler of user processes.

pub mod seqs;
pub mod threads;
pub mod idmap;
pub mod signals;
pub mod text;
pub mod system;
pub mod smp;
pub mod sockets;
pub mod laws;
pub mod user_io;
pub mod counters;
pub mod tracing;
pub mod timer;
pub mod tcpip;
pub mod security;
pub mod user_sched;
