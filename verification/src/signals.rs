//! POSIX signals: the full signal set with real-time signals, masks, dispositions,
//! alternate stacks, interval timers and the per-process signal state.

use vstd::prelude::*;
use crate::idmap::IdMap;
use crate::smp::wrap_inc;

verus! {

/// First real-time signal.
pub const SIGRTMIN: u8 = 32;
/// Last real-time signal.
pub const SIGRTMAX: u8 = 63;
/// Number of standard signals.
pub const MAX_STANDARD_SIGNALS: usize = 31;
/// Number of disposition slots.
pub const MAX_ALL_SIGNALS: usize = 64;
/// Capacity of a process's pending queue.
pub const MAX_PENDING_PER_PROCESS: usize = 256;
/// Largest alternate signal stack (1 MiB).
pub const MAX_ALTSTACK_SIZE: u64 = 1048576;
/// Smallest alternate signal stack (4 KiB).
pub const MIN_ALTSTACK_SIZE: u64 = 4096;
/// Capacity of the signal audit log.
pub const MAX_AUDIT_ENTRIES: usize = 4096;

// ════════════════════════════════════════════════════════════════
//  FULL POSIX SIGNAL SET (1-63)
// ════════════════════════════════════════════════════════════════

#[derive(Clone, Copy, Debug, PartialEq, Eq, Structural, Hash)]
pub enum FullSignal {
    Sighup,
    Sigint,
    Sigquit,
    Sigill,
    Sigtrap,
    Sigabrt,
    Sigbus,
    Sigfpe,
    Sigkill,
    Sigusr1,
    Sigsegv,
    Sigusr2,
    Sigpipe,
    Sigalrm,
    Sigterm,
    Sigstkflt,
    Sigchld,
    Sigcont,
    Sigstop,
    Sigtstp,
    Sigttin,
    Sigttou,
    Sigurg,
    Sigxcpu,
    Sigxfsz,
    Sigvtalrm,
    Sigprof,
    Sigwinch,
    Sigio,
    Sigpwr,
    Sigsys,
    SigrtMin,
    Sigrt1,
    Sigrt2,
    Sigrt3,
    Sigrt4,
    Sigrt5,
    Sigrt6,
    Sigrt7,
    Sigrt8,
    Sigrt9,
    Sigrt10,
    Sigrt11,
    Sigrt12,
    Sigrt13,
    Sigrt14,
    Sigrt15,
    Sigrt16,
    Sigrt17,
    Sigrt18,
    Sigrt19,
    Sigrt20,
    Sigrt21,
    Sigrt22,
    Sigrt23,
    Sigrt24,
    Sigrt25,
    Sigrt26,
    Sigrt27,
    Sigrt28,
    Sigrt29,
    Sigrt30,
    SigrtMax,
}

/// The POSIX number of a signal.
pub open spec fn sig_num(s: FullSignal) -> u8 {
    match s {
        FullSignal::Sighup => 1,
        FullSignal::Sigint => 2,
        FullSignal::Sigquit => 3,
        FullSignal::Sigill => 4,
        FullSignal::Sigtrap => 5,
        FullSignal::Sigabrt => 6,
        FullSignal::Sigbus => 7,
        FullSignal::Sigfpe => 8,
        FullSignal::Sigkill => 9,
        FullSignal::Sigusr1 => 10,
        FullSignal::Sigsegv => 11,
        FullSignal::Sigusr2 => 12,
        FullSignal::Sigpipe => 13,
        FullSignal::Sigalrm => 14,
        FullSignal::Sigterm => 15,
        FullSignal::Sigstkflt => 16,
        FullSignal::Sigchld => 17,
        FullSignal::Sigcont => 18,
        FullSignal::Sigstop => 19,
        FullSignal::Sigtstp => 20,
        FullSignal::Sigttin => 21,
        FullSignal::Sigttou => 22,
        FullSignal::Sigurg => 23,
        FullSignal::Sigxcpu => 24,
        FullSignal::Sigxfsz => 25,
        FullSignal::Sigvtalrm => 26,
        FullSignal::Sigprof => 27,
        FullSignal::Sigwinch => 28,
        FullSignal::Sigio => 29,
        FullSignal::Sigpwr => 30,
        FullSignal::Sigsys => 31,
        FullSignal::SigrtMin => 32,
        FullSignal::Sigrt1 => 33,
        FullSignal::Sigrt2 => 34,
        FullSignal::Sigrt3 => 35,
        FullSignal::Sigrt4 => 36,
        FullSignal::Sigrt5 => 37,
        FullSignal::Sigrt6 => 38,
        FullSignal::Sigrt7 => 39,
        FullSignal::Sigrt8 => 40,
        FullSignal::Sigrt9 => 41,
        FullSignal::Sigrt10 => 42,
        FullSignal::Sigrt11 => 43,
        FullSignal::Sigrt12 => 44,
        FullSignal::Sigrt13 => 45,
        FullSignal::Sigrt14 => 46,
        FullSignal::Sigrt15 => 47,
        FullSignal::Sigrt16 => 48,
        FullSignal::Sigrt17 => 49,
        FullSignal::Sigrt18 => 50,
        FullSignal::Sigrt19 => 51,
        FullSignal::Sigrt20 => 52,
        FullSignal::Sigrt21 => 53,
        FullSignal::Sigrt22 => 54,
        FullSignal::Sigrt23 => 55,
        FullSignal::Sigrt24 => 56,
        FullSignal::Sigrt25 => 57,
        FullSignal::Sigrt26 => 58,
        FullSignal::Sigrt27 => 59,
        FullSignal::Sigrt28 => 60,
        FullSignal::Sigrt29 => 61,
        FullSignal::Sigrt30 => 62,
        FullSignal::SigrtMax => 63,
    }
}

/// The signal with POSIX number `n`, for 1 <= n <= 63.
pub open spec fn sig_of(n: u8) -> FullSignal {
    match n {
        1 => FullSignal::Sighup,
        2 => FullSignal::Sigint,
        3 => FullSignal::Sigquit,
        4 => FullSignal::Sigill,
        5 => FullSignal::Sigtrap,
        6 => FullSignal::Sigabrt,
        7 => FullSignal::Sigbus,
        8 => FullSignal::Sigfpe,
        9 => FullSignal::Sigkill,
        10 => FullSignal::Sigusr1,
        11 => FullSignal::Sigsegv,
        12 => FullSignal::Sigusr2,
        13 => FullSignal::Sigpipe,
        14 => FullSignal::Sigalrm,
        15 => FullSignal::Sigterm,
        16 => FullSignal::Sigstkflt,
        17 => FullSignal::Sigchld,
        18 => FullSignal::Sigcont,
        19 => FullSignal::Sigstop,
        20 => FullSignal::Sigtstp,
        21 => FullSignal::Sigttin,
        22 => FullSignal::Sigttou,
        23 => FullSignal::Sigurg,
        24 => FullSignal::Sigxcpu,
        25 => FullSignal::Sigxfsz,
        26 => FullSignal::Sigvtalrm,
        27 => FullSignal::Sigprof,
        28 => FullSignal::Sigwinch,
        29 => FullSignal::Sigio,
        30 => FullSignal::Sigpwr,
        31 => FullSignal::Sigsys,
        32 => FullSignal::SigrtMin,
        33 => FullSignal::Sigrt1,
        34 => FullSignal::Sigrt2,
        35 => FullSignal::Sigrt3,
        36 => FullSignal::Sigrt4,
        37 => FullSignal::Sigrt5,
        38 => FullSignal::Sigrt6,
        39 => FullSignal::Sigrt7,
        40 => FullSignal::Sigrt8,
        41 => FullSignal::Sigrt9,
        42 => FullSignal::Sigrt10,
        43 => FullSignal::Sigrt11,
        44 => FullSignal::Sigrt12,
        45 => FullSignal::Sigrt13,
        46 => FullSignal::Sigrt14,
        47 => FullSignal::Sigrt15,
        48 => FullSignal::Sigrt16,
        49 => FullSignal::Sigrt17,
        50 => FullSignal::Sigrt18,
        51 => FullSignal::Sigrt19,
        52 => FullSignal::Sigrt20,
        53 => FullSignal::Sigrt21,
        54 => FullSignal::Sigrt22,
        55 => FullSignal::Sigrt23,
        56 => FullSignal::Sigrt24,
        57 => FullSignal::Sigrt25,
        58 => FullSignal::Sigrt26,
        59 => FullSignal::Sigrt27,
        60 => FullSignal::Sigrt28,
        61 => FullSignal::Sigrt29,
        62 => FullSignal::Sigrt30,
        63 => FullSignal::SigrtMax,
        _ => FullSignal::SigrtMax,
    }
}

/// The conventional name of a signal.
pub open spec fn sig_name(s: FullSignal) -> Seq<char> {
    match s {
        FullSignal::Sighup => "SIGHUP"@,
        FullSignal::Sigint => "SIGINT"@,
        FullSignal::Sigquit => "SIGQUIT"@,
        FullSignal::Sigill => "SIGILL"@,
        FullSignal::Sigtrap => "SIGTRAP"@,
        FullSignal::Sigabrt => "SIGABRT"@,
        FullSignal::Sigbus => "SIGBUS"@,
        FullSignal::Sigfpe => "SIGFPE"@,
        FullSignal::Sigkill => "SIGKILL"@,
        FullSignal::Sigusr1 => "SIGUSR1"@,
        FullSignal::Sigsegv => "SIGSEGV"@,
        FullSignal::Sigusr2 => "SIGUSR2"@,
        FullSignal::Sigpipe => "SIGPIPE"@,
        FullSignal::Sigalrm => "SIGALRM"@,
        FullSignal::Sigterm => "SIGTERM"@,
        FullSignal::Sigstkflt => "SIGSTKFLT"@,
        FullSignal::Sigchld => "SIGCHLD"@,
        FullSignal::Sigcont => "SIGCONT"@,
        FullSignal::Sigstop => "SIGSTOP"@,
        FullSignal::Sigtstp => "SIGTSTP"@,
        FullSignal::Sigttin => "SIGTTIN"@,
        FullSignal::Sigttou => "SIGTTOU"@,
        FullSignal::Sigurg => "SIGURG"@,
        FullSignal::Sigxcpu => "SIGXCPU"@,
        FullSignal::Sigxfsz => "SIGXFSZ"@,
        FullSignal::Sigvtalrm => "SIGVTALRM"@,
        FullSignal::Sigprof => "SIGPROF"@,
        FullSignal::Sigwinch => "SIGWINCH"@,
        FullSignal::Sigio => "SIGIO"@,
        FullSignal::Sigpwr => "SIGPWR"@,
        FullSignal::Sigsys => "SIGSYS"@,
        FullSignal::SigrtMin => "SIGRTMIN"@,
        FullSignal::Sigrt1 => "SIGRT1"@,
        FullSignal::Sigrt2 => "SIGRT2"@,
        FullSignal::Sigrt3 => "SIGRT3"@,
        FullSignal::Sigrt4 => "SIGRT4"@,
        FullSignal::Sigrt5 => "SIGRT5"@,
        FullSignal::Sigrt6 => "SIGRT6"@,
        FullSignal::Sigrt7 => "SIGRT7"@,
        FullSignal::Sigrt8 => "SIGRT8"@,
        FullSignal::Sigrt9 => "SIGRT9"@,
        FullSignal::Sigrt10 => "SIGRT10"@,
        FullSignal::Sigrt11 => "SIGRT11"@,
        FullSignal::Sigrt12 => "SIGRT12"@,
        FullSignal::Sigrt13 => "SIGRT13"@,
        FullSignal::Sigrt14 => "SIGRT14"@,
        FullSignal::Sigrt15 => "SIGRT15"@,
        FullSignal::Sigrt16 => "SIGRT16"@,
        FullSignal::Sigrt17 => "SIGRT17"@,
        FullSignal::Sigrt18 => "SIGRT18"@,
        FullSignal::Sigrt19 => "SIGRT19"@,
        FullSignal::Sigrt20 => "SIGRT20"@,
        FullSignal::Sigrt21 => "SIGRT21"@,
        FullSignal::Sigrt22 => "SIGRT22"@,
        FullSignal::Sigrt23 => "SIGRT23"@,
        FullSignal::Sigrt24 => "SIGRT24"@,
        FullSignal::Sigrt25 => "SIGRT25"@,
        FullSignal::Sigrt26 => "SIGRT26"@,
        FullSignal::Sigrt27 => "SIGRT27"@,
        FullSignal::Sigrt28 => "SIGRT28"@,
        FullSignal::Sigrt29 => "SIGRT29"@,
        FullSignal::Sigrt30 => "SIGRT30"@,
        FullSignal::SigrtMax => "SIGRTMAX"@,
    }
}

/// Signals that terminate the process by default.
pub open spec fn sig_is_fatal(s: FullSignal) -> bool {
    s is Sighup || s is Sigint || s is Sigkill || s is Sigterm || s is Sigsegv || s is Sigquit
        || s is Sigill || s is Sigabrt || s is Sigbus || s is Sigfpe || s is Sigsys || s is Sigxcpu
        || s is Sigxfsz
}

/// The default action taken on a signal.
pub open spec fn sig_default_action(s: FullSignal) -> SignalAction {
    match s {
        FullSignal::Sighup | FullSignal::Sigint | FullSignal::Sigkill | FullSignal::Sigterm
        | FullSignal::Sigpipe => SignalAction::Terminate,
        FullSignal::Sigquit | FullSignal::Sigill | FullSignal::Sigabrt | FullSignal::Sigbus
        | FullSignal::Sigfpe | FullSignal::Sigsegv | FullSignal::Sigsys | FullSignal::Sigxcpu
        | FullSignal::Sigxfsz => SignalAction::TerminateCore,
        FullSignal::Sigstop | FullSignal::Sigtstp | FullSignal::Sigttin | FullSignal::Sigttou => SignalAction::Stop,
        FullSignal::Sigcont => SignalAction::Continue,
        FullSignal::Sigchld | FullSignal::Sigurg | FullSignal::Sigwinch | FullSignal::Sigio
        | FullSignal::Sigpwr => SignalAction::Ignore,
        FullSignal::Sigalrm | FullSignal::Sigvtalrm | FullSignal::Sigprof | FullSignal::Sigtrap
        | FullSignal::Sigstkflt => SignalAction::Terminate,
        _ => if sig_num(s) >= SIGRTMIN {
            SignalAction::Terminate
        } else {
            SignalAction::Ignore
        },
    }
}

/// Delivery priority; lower is delivered first.
pub open spec fn sig_priority(s: FullSignal) -> u8 {
    match s {
        FullSignal::Sigkill => 0,
        FullSignal::Sigstop => 1,
        FullSignal::Sigsegv | FullSignal::Sigill | FullSignal::Sigbus | FullSignal::Sigfpe
        | FullSignal::Sigabrt => 2,
        FullSignal::Sigterm => 3,
        FullSignal::Sigint | FullSignal::Sighup => 4,
        FullSignal::Sigquit => 5,
        FullSignal::Sigalrm | FullSignal::Sigvtalrm | FullSignal::Sigprof => 6,
        FullSignal::Sigchld => 7,
        FullSignal::Sigcont => 8,
        FullSignal::Sigtstp | FullSignal::Sigttin | FullSignal::Sigttou => 9,
        FullSignal::Sigusr1 | FullSignal::Sigusr2 => 10,
        FullSignal::Sigpipe | FullSignal::Sigurg | FullSignal::Sigwinch | FullSignal::Sigio
        | FullSignal::Sigpwr | FullSignal::Sigstkflt | FullSignal::Sigsys | FullSignal::Sigxcpu
        | FullSignal::Sigxfsz => 11,
        _ => if sig_num(s) >= SIGRTMIN {
            (12 + (sig_num(s) - SIGRTMIN) / 4) as u8
        } else {
            13
        },
    }
}

/// Numbers run from 1 to 63 and identify the signal.
pub proof fn lemma_sig_num(s: FullSignal)
    ensures
        1 <= sig_num(s) <= 63,
        sig_of(sig_num(s)) == s,
{
}

impl FullSignal {
    pub fn from_u8(n: u8) -> (r: Option<Self>)
        ensures
            1 <= n <= 63 ==> r == Some(sig_of(n)),
            (n == 0 || n > 63) ==> r is None,
    {
        match n {
            1 => Some(FullSignal::Sighup),
            2 => Some(FullSignal::Sigint),
            3 => Some(FullSignal::Sigquit),
            4 => Some(FullSignal::Sigill),
            5 => Some(FullSignal::Sigtrap),
            6 => Some(FullSignal::Sigabrt),
            7 => Some(FullSignal::Sigbus),
            8 => Some(FullSignal::Sigfpe),
            9 => Some(FullSignal::Sigkill),
            10 => Some(FullSignal::Sigusr1),
            11 => Some(FullSignal::Sigsegv),
            12 => Some(FullSignal::Sigusr2),
            13 => Some(FullSignal::Sigpipe),
            14 => Some(FullSignal::Sigalrm),
            15 => Some(FullSignal::Sigterm),
            16 => Some(FullSignal::Sigstkflt),
            17 => Some(FullSignal::Sigchld),
            18 => Some(FullSignal::Sigcont),
            19 => Some(FullSignal::Sigstop),
            20 => Some(FullSignal::Sigtstp),
            21 => Some(FullSignal::Sigttin),
            22 => Some(FullSignal::Sigttou),
            23 => Some(FullSignal::Sigurg),
            24 => Some(FullSignal::Sigxcpu),
            25 => Some(FullSignal::Sigxfsz),
            26 => Some(FullSignal::Sigvtalrm),
            27 => Some(FullSignal::Sigprof),
            28 => Some(FullSignal::Sigwinch),
            29 => Some(FullSignal::Sigio),
            30 => Some(FullSignal::Sigpwr),
            31 => Some(FullSignal::Sigsys),
            32 => Some(FullSignal::SigrtMin),
            33 => Some(FullSignal::Sigrt1),
            34 => Some(FullSignal::Sigrt2),
            35 => Some(FullSignal::Sigrt3),
            36 => Some(FullSignal::Sigrt4),
            37 => Some(FullSignal::Sigrt5),
            38 => Some(FullSignal::Sigrt6),
            39 => Some(FullSignal::Sigrt7),
            40 => Some(FullSignal::Sigrt8),
            41 => Some(FullSignal::Sigrt9),
            42 => Some(FullSignal::Sigrt10),
            43 => Some(FullSignal::Sigrt11),
            44 => Some(FullSignal::Sigrt12),
            45 => Some(FullSignal::Sigrt13),
            46 => Some(FullSignal::Sigrt14),
            47 => Some(FullSignal::Sigrt15),
            48 => Some(FullSignal::Sigrt16),
            49 => Some(FullSignal::Sigrt17),
            50 => Some(FullSignal::Sigrt18),
            51 => Some(FullSignal::Sigrt19),
            52 => Some(FullSignal::Sigrt20),
            53 => Some(FullSignal::Sigrt21),
            54 => Some(FullSignal::Sigrt22),
            55 => Some(FullSignal::Sigrt23),
            56 => Some(FullSignal::Sigrt24),
            57 => Some(FullSignal::Sigrt25),
            58 => Some(FullSignal::Sigrt26),
            59 => Some(FullSignal::Sigrt27),
            60 => Some(FullSignal::Sigrt28),
            61 => Some(FullSignal::Sigrt29),
            62 => Some(FullSignal::Sigrt30),
            63 => Some(FullSignal::SigrtMax),
            _ => None,
        }
    }

    pub fn number(&self) -> (r: u8)
        ensures
            r == sig_num(*self),
    {
        match self {
            FullSignal::Sighup => 1,
            FullSignal::Sigint => 2,
            FullSignal::Sigquit => 3,
            FullSignal::Sigill => 4,
            FullSignal::Sigtrap => 5,
            FullSignal::Sigabrt => 6,
            FullSignal::Sigbus => 7,
            FullSignal::Sigfpe => 8,
            FullSignal::Sigkill => 9,
            FullSignal::Sigusr1 => 10,
            FullSignal::Sigsegv => 11,
            FullSignal::Sigusr2 => 12,
            FullSignal::Sigpipe => 13,
            FullSignal::Sigalrm => 14,
            FullSignal::Sigterm => 15,
            FullSignal::Sigstkflt => 16,
            FullSignal::Sigchld => 17,
            FullSignal::Sigcont => 18,
            FullSignal::Sigstop => 19,
            FullSignal::Sigtstp => 20,
            FullSignal::Sigttin => 21,
            FullSignal::Sigttou => 22,
            FullSignal::Sigurg => 23,
            FullSignal::Sigxcpu => 24,
            FullSignal::Sigxfsz => 25,
            FullSignal::Sigvtalrm => 26,
            FullSignal::Sigprof => 27,
            FullSignal::Sigwinch => 28,
            FullSignal::Sigio => 29,
            FullSignal::Sigpwr => 30,
            FullSignal::Sigsys => 31,
            FullSignal::SigrtMin => 32,
            FullSignal::Sigrt1 => 33,
            FullSignal::Sigrt2 => 34,
            FullSignal::Sigrt3 => 35,
            FullSignal::Sigrt4 => 36,
            FullSignal::Sigrt5 => 37,
            FullSignal::Sigrt6 => 38,
            FullSignal::Sigrt7 => 39,
            FullSignal::Sigrt8 => 40,
            FullSignal::Sigrt9 => 41,
            FullSignal::Sigrt10 => 42,
            FullSignal::Sigrt11 => 43,
            FullSignal::Sigrt12 => 44,
            FullSignal::Sigrt13 => 45,
            FullSignal::Sigrt14 => 46,
            FullSignal::Sigrt15 => 47,
            FullSignal::Sigrt16 => 48,
            FullSignal::Sigrt17 => 49,
            FullSignal::Sigrt18 => 50,
            FullSignal::Sigrt19 => 51,
            FullSignal::Sigrt20 => 52,
            FullSignal::Sigrt21 => 53,
            FullSignal::Sigrt22 => 54,
            FullSignal::Sigrt23 => 55,
            FullSignal::Sigrt24 => 56,
            FullSignal::Sigrt25 => 57,
            FullSignal::Sigrt26 => 58,
            FullSignal::Sigrt27 => 59,
            FullSignal::Sigrt28 => 60,
            FullSignal::Sigrt29 => 61,
            FullSignal::Sigrt30 => 62,
            FullSignal::SigrtMax => 63,
        }
    }

    pub fn name(&self) -> (r: &'static str)
        ensures
            r@ == sig_name(*self),
    {
        match self {
            FullSignal::Sighup => "SIGHUP",
            FullSignal::Sigint => "SIGINT",
            FullSignal::Sigquit => "SIGQUIT",
            FullSignal::Sigill => "SIGILL",
            FullSignal::Sigtrap => "SIGTRAP",
            FullSignal::Sigabrt => "SIGABRT",
            FullSignal::Sigbus => "SIGBUS",
            FullSignal::Sigfpe => "SIGFPE",
            FullSignal::Sigkill => "SIGKILL",
            FullSignal::Sigusr1 => "SIGUSR1",
            FullSignal::Sigsegv => "SIGSEGV",
            FullSignal::Sigusr2 => "SIGUSR2",
            FullSignal::Sigpipe => "SIGPIPE",
            FullSignal::Sigalrm => "SIGALRM",
            FullSignal::Sigterm => "SIGTERM",
            FullSignal::Sigstkflt => "SIGSTKFLT",
            FullSignal::Sigchld => "SIGCHLD",
            FullSignal::Sigcont => "SIGCONT",
            FullSignal::Sigstop => "SIGSTOP",
            FullSignal::Sigtstp => "SIGTSTP",
            FullSignal::Sigttin => "SIGTTIN",
            FullSignal::Sigttou => "SIGTTOU",
            FullSignal::Sigurg => "SIGURG",
            FullSignal::Sigxcpu => "SIGXCPU",
            FullSignal::Sigxfsz => "SIGXFSZ",
            FullSignal::Sigvtalrm => "SIGVTALRM",
            FullSignal::Sigprof => "SIGPROF",
            FullSignal::Sigwinch => "SIGWINCH",
            FullSignal::Sigio => "SIGIO",
            FullSignal::Sigpwr => "SIGPWR",
            FullSignal::Sigsys => "SIGSYS",
            FullSignal::SigrtMin => "SIGRTMIN",
            FullSignal::Sigrt1 => "SIGRT1",
            FullSignal::Sigrt2 => "SIGRT2",
            FullSignal::Sigrt3 => "SIGRT3",
            FullSignal::Sigrt4 => "SIGRT4",
            FullSignal::Sigrt5 => "SIGRT5",
            FullSignal::Sigrt6 => "SIGRT6",
            FullSignal::Sigrt7 => "SIGRT7",
            FullSignal::Sigrt8 => "SIGRT8",
            FullSignal::Sigrt9 => "SIGRT9",
            FullSignal::Sigrt10 => "SIGRT10",
            FullSignal::Sigrt11 => "SIGRT11",
            FullSignal::Sigrt12 => "SIGRT12",
            FullSignal::Sigrt13 => "SIGRT13",
            FullSignal::Sigrt14 => "SIGRT14",
            FullSignal::Sigrt15 => "SIGRT15",
            FullSignal::Sigrt16 => "SIGRT16",
            FullSignal::Sigrt17 => "SIGRT17",
            FullSignal::Sigrt18 => "SIGRT18",
            FullSignal::Sigrt19 => "SIGRT19",
            FullSignal::Sigrt20 => "SIGRT20",
            FullSignal::Sigrt21 => "SIGRT21",
            FullSignal::Sigrt22 => "SIGRT22",
            FullSignal::Sigrt23 => "SIGRT23",
            FullSignal::Sigrt24 => "SIGRT24",
            FullSignal::Sigrt25 => "SIGRT25",
            FullSignal::Sigrt26 => "SIGRT26",
            FullSignal::Sigrt27 => "SIGRT27",
            FullSignal::Sigrt28 => "SIGRT28",
            FullSignal::Sigrt29 => "SIGRT29",
            FullSignal::Sigrt30 => "SIGRT30",
            FullSignal::SigrtMax => "SIGRTMAX",
        }
    }

    pub fn is_standard(&self) -> (r: bool)
        ensures
            r == (sig_num(*self) <= 31),
    {
        self.number() <= 31
    }

    pub fn is_realtime(&self) -> (r: bool)
        ensures
            r == (sig_num(*self) >= SIGRTMIN),
    {
        self.number() >= SIGRTMIN
    }

    pub fn is_unblockable(&self) -> (r: bool)
        ensures
            r == (*self is Sigkill || *self is Sigstop),
    {
        matches!(self, FullSignal::Sigkill | FullSignal::Sigstop)
    }

    pub fn is_fatal(&self) -> (r: bool)
        ensures
            r == sig_is_fatal(*self),
    {
        matches!(self, FullSignal::Sighup | FullSignal::Sigint | FullSignal::Sigkill |
                      FullSignal::Sigterm | FullSignal::Sigsegv | FullSignal::Sigquit |
                      FullSignal::Sigill | FullSignal::Sigabrt | FullSignal::Sigbus |
                      FullSignal::Sigfpe | FullSignal::Sigsys | FullSignal::Sigxcpu | FullSignal::Sigxfsz)
    }

    pub fn default_action(&self) -> (r: SignalAction)
        ensures
            r == sig_default_action(*self),
    {
        match self {
            FullSignal::Sighup | FullSignal::Sigint | FullSignal::Sigkill | FullSignal::Sigterm
            | FullSignal::Sigpipe => SignalAction::Terminate,
            FullSignal::Sigquit | FullSignal::Sigill | FullSignal::Sigabrt | FullSignal::Sigbus
            | FullSignal::Sigfpe | FullSignal::Sigsegv | FullSignal::Sigsys | FullSignal::Sigxcpu
            | FullSignal::Sigxfsz => SignalAction::TerminateCore,
            FullSignal::Sigstop | FullSignal::Sigtstp | FullSignal::Sigttin | FullSignal::Sigttou => SignalAction::Stop,
            FullSignal::Sigcont => SignalAction::Continue,
            FullSignal::Sigchld | FullSignal::Sigurg | FullSignal::Sigwinch | FullSignal::Sigio
            | FullSignal::Sigpwr => SignalAction::Ignore,
            FullSignal::Sigalrm | FullSignal::Sigvtalrm | FullSignal::Sigprof | FullSignal::Sigtrap
            | FullSignal::Sigstkflt => SignalAction::Terminate,
            _ => {
                if self.is_realtime() {
                    SignalAction::Terminate
                } else {
                    SignalAction::Ignore
                }
            },
        }
    }

    /// Priority for delivery ordering (lower = higher priority).
    pub fn delivery_priority(&self) -> (r: u8)
        ensures
            r == sig_priority(*self),
    {
        match self {
            FullSignal::Sigkill => 0,
            FullSignal::Sigstop => 1,
            FullSignal::Sigsegv | FullSignal::Sigill | FullSignal::Sigbus | FullSignal::Sigfpe
            | FullSignal::Sigabrt => 2,
            FullSignal::Sigterm => 3,
            FullSignal::Sigint | FullSignal::Sighup => 4,
            FullSignal::Sigquit => 5,
            FullSignal::Sigalrm | FullSignal::Sigvtalrm | FullSignal::Sigprof => 6,
            FullSignal::Sigchld => 7,
            FullSignal::Sigcont => 8,
            FullSignal::Sigtstp | FullSignal::Sigttin | FullSignal::Sigttou => 9,
            FullSignal::Sigusr1 | FullSignal::Sigusr2 => 10,
            FullSignal::Sigpipe | FullSignal::Sigurg | FullSignal::Sigwinch | FullSignal::Sigio
            | FullSignal::Sigpwr | FullSignal::Sigstkflt | FullSignal::Sigsys | FullSignal::Sigxcpu
            | FullSignal::Sigxfsz => 11,
            _ => {
                if self.is_realtime() {
                    12 + (self.number() - SIGRTMIN) / 4
                } else {
                    13
                }
            },
        }
    }
}

// ════════════════════════════════════════════════════════════════
//  SIGNAL ACTION / DISPOSITION
// ════════════════════════════════════════════════════════════════

#[derive(Clone, Copy, Debug, PartialEq, Eq, Structural)]
pub enum SignalAction {
    Terminate,
    TerminateCore,
    Stop,
    Continue,
    Ignore,
}

#[derive(Clone, Copy, Debug, PartialEq, Eq, Structural)]
pub enum SignalDisposition {
    Default,
    Ignore,
    Catch { handler_addr: u64, flags: SignalHandlerFlags, mask: u64 },
}

impl Default for SignalDisposition {
    fn default() -> (d: Self)
        ensures
            d == SignalDisposition::Default,
    {
        SignalDisposition::Default
    }
}

#[derive(Clone, Copy, Debug, PartialEq, Eq, Structural)]
pub struct SignalHandlerFlags {
    pub restart_syscall: bool,
    pub oneshot: bool,
    pub nocldstop: bool,
    pub nocldwait: bool,
    pub onstack: bool,
    pub siginfo: bool,
}

impl SignalHandlerFlags {
    /// No flag set.
    pub open spec fn cleared() -> SignalHandlerFlags {
        SignalHandlerFlags {
            restart_syscall: false,
            oneshot: false,
            nocldstop: false,
            nocldwait: false,
            onstack: false,
            siginfo: false,
        }
    }

    pub fn none() -> (f: Self)
        ensures
            f == SignalHandlerFlags::cleared(),
    {
        SignalHandlerFlags {
            restart_syscall: false,
            oneshot: false,
            nocldstop: false,
            nocldwait: false,
            onstack: false,
            siginfo: false,
        }
    }

    pub fn restart() -> (f: Self)
        ensures
            f == (SignalHandlerFlags { restart_syscall: true, ..SignalHandlerFlags::cleared() }),
    {
        SignalHandlerFlags { restart_syscall: true, ..Self::none() }
    }
}

impl Default for SignalHandlerFlags {
    fn default() -> (f: Self)
        ensures
            f == SignalHandlerFlags::cleared(),
    {
        Self::none()
    }
}

// ════════════════════════════════════════════════════════════════
//  SIGNAL INFO (siginfo_t equivalent)
// ════════════════════════════════════════════════════════════════

#[derive(Clone, Copy, Debug, PartialEq, Eq, Structural)]
pub struct SignalInfo {
    pub signo: u8,
    pub code: SignalCode,
    pub sender_pid: Option<u32>,
    pub sender_uid: Option<u32>,
    pub value: u64,
    pub status: i32,
    pub addr: u64,
    pub timestamp: u64,
}

impl SignalInfo {
    /// The all-zero info sent by the user.
    pub open spec fn blank() -> SignalInfo {
        SignalInfo {
            signo: 0,
            code: SignalCode::User,
            sender_pid: None,
            sender_uid: None,
            value: 0,
            status: 0,
            addr: 0,
            timestamp: 0,
        }
    }
}

impl Default for SignalInfo {
    fn default() -> (i: Self)
        ensures
            i == SignalInfo::blank(),
    {
        SignalInfo {
            signo: 0,
            code: SignalCode::User,
            sender_pid: None,
            sender_uid: None,
            value: 0,
            status: 0,
            addr: 0,
            timestamp: 0,
        }
    }
}

#[derive(Clone, Copy, Debug, PartialEq, Eq, Structural)]
pub enum SignalCode {
    User,
    Kernel,
    Timer,
    Queue,
    MesgQ,
    Io,
    Tsync,
    DetThread,
    Child,
    Fault,
    Trap,
    Regv,
    Unk,
}

impl Default for SignalCode {
    fn default() -> (c: Self)
        ensures
            c == SignalCode::User,
    {
        SignalCode::User
    }
}

/// The siginfo code name of a signal code.
pub open spec fn code_name(c: SignalCode) -> Seq<char> {
    match c {
        SignalCode::User => "SI_USER"@,
        SignalCode::Kernel => "SI_KERNEL"@,
        SignalCode::Timer => "SI_TIMER"@,
        SignalCode::Queue => "SI_QUEUE"@,
        SignalCode::MesgQ => "SI_MESGQ"@,
        SignalCode::Io => "SI_IO"@,
        SignalCode::Tsync => "SI_TSYNC"@,
        SignalCode::DetThread => "SI_DETTHREAD"@,
        SignalCode::Child => "SI_CHILD"@,
        SignalCode::Fault => "SI_FAULT"@,
        SignalCode::Trap => "SI_TRAP"@,
        SignalCode::Regv => "SI_REGV"@,
        SignalCode::Unk => "SI_UNK"@,
    }
}

impl SignalCode {
    pub fn name(&self) -> (r: &'static str)
        ensures
            r@ == code_name(*self),
    {
        match self {
            SignalCode::User => "SI_USER",
            SignalCode::Kernel => "SI_KERNEL",
            SignalCode::Timer => "SI_TIMER",
            SignalCode::Queue => "SI_QUEUE",
            SignalCode::MesgQ => "SI_MESGQ",
            SignalCode::Io => "SI_IO",
            SignalCode::Tsync => "SI_TSYNC",
            SignalCode::DetThread => "SI_DETTHREAD",
            SignalCode::Child => "SI_CHILD",
            SignalCode::Fault => "SI_FAULT",
            SignalCode::Trap => "SI_TRAP",
            SignalCode::Regv => "SI_REGV",
            SignalCode::Unk => "SI_UNK",
        }
    }
}

#[derive(Clone, Copy, Debug, PartialEq, Eq, Structural)]
pub struct PendingEntry {
    pub signal: FullSignal,
    pub info: SignalInfo,
}

// ════════════════════════════════════════════════════════════════
//  SIGNAL MASK (blocked signals)
// ════════════════════════════════════════════════════════════════

/// The bit of a signal in a 64-bit mask (bit n-1 for signal n).
pub open spec fn sig_bit(s: FullSignal) -> u64 {
    1u64 << ((sig_num(s) - 1) as u64)
}

/// Whether the bit of `s` is set in `bits`.
pub open spec fn bits_have(bits: u64, s: FullSignal) -> bool {
    bits & sig_bit(s) != 0
}

/// Number of set bits among the lowest `n` bits of `x`.
pub open spec fn popcount_below(x: u64, n: nat) -> nat
    decreases n,
{
    if n == 0 {
        0
    } else {
        popcount_below(x, (n - 1) as nat) + if (x >> ((n - 1) as u64)) & 1 == 1 { 1nat } else { 0nat }
    }
}

/// Number of set bits of `x`.
pub open spec fn popcount(x: u64) -> nat {
    popcount_below(x, 64)
}

/// Counts the set bits of `x`.
pub fn count_bits(x: u64) -> (r: u32)
    ensures
        r == popcount(x),
{
    let mut n: u32 = 0;
    let mut i: u64 = 0;
    while i < 64
        invariant
            i <= 64,
            n == popcount_below(x, i as nat),
            n <= i,
        decreases 64 - i,
    {
        if (x >> i) & 1 == 1 {
            n = n + 1;
        }
        i = i + 1;
    }
    n
}

#[derive(Clone, Copy, Debug, PartialEq, Eq, Structural)]
pub struct SignalMask {
    bits: u64,
}

impl SignalMask {
    /// The raw 64-bit mask, bit n-1 standing for signal n.
    pub closed spec fn view(self) -> u64 {
        self.bits
    }

    /// Whether the mask holds signal `s`.
    pub open spec fn has(self, s: FullSignal) -> bool {
        bits_have(self@, s)
    }

    pub fn empty() -> (m: Self)
        ensures
            m@ == 0,
    {
        SignalMask { bits: 0 }
    }

    pub fn full() -> (m: Self)
        ensures
            m@ == u64::MAX,
    {
        SignalMask { bits: 0xFFFF_FFFF_FFFF_FFFF }
    }

    /// Adds `sig`: only its bit changes, and the count grows by one exactly
    /// when it was not in the mask.
    pub fn add(&mut self, sig: FullSignal)
        ensures
            final(self)@ == old(self)@ | sig_bit(sig),
            final(self).has(sig),
            forall|t: FullSignal| t != sig ==> #[trigger] final(self).has(t) == old(self).has(t),
            popcount(final(self)@) == popcount(old(self)@) + if old(self).has(sig) { 0nat } else { 1nat },
    {
        let n = sig.number();
        self.bits = self.bits | (1u64 << ((n - 1) as u64));
        proof {
            lemma_mask_add(old(self)@, sig);
        }
    }

    pub fn remove(&mut self, sig: FullSignal)
        ensures
            final(self)@ == old(self)@ & !sig_bit(sig),
    {
        let n = sig.number();
        self.bits = self.bits & !(1u64 << ((n - 1) as u64));
    }

    pub fn contains(&self, sig: FullSignal) -> (r: bool)
        ensures
            r == self.has(sig),
    {
        let n = sig.number();
        (self.bits & (1u64 << ((n - 1) as u64))) != 0
    }

    pub fn is_empty(&self) -> (r: bool)
        ensures
            r == (self@ == 0),
    {
        self.bits == 0
    }

    pub fn count(&self) -> (r: u8)
        ensures
            r == popcount(self@),
    {
        let c = count_bits(self.bits);
        proof {
            lemma_popcount_le(self.bits, 64);
        }
        c as u8
    }

    pub fn union(&self, other: &SignalMask) -> (m: SignalMask)
        ensures
            m@ == self@ | other@,
    {
        SignalMask { bits: self.bits | other.bits }
    }

    pub fn intersection(&self, other: &SignalMask) -> (m: SignalMask)
        ensures
            m@ == self@ & other@,
    {
        SignalMask { bits: self.bits & other.bits }
    }

    pub fn difference(&self, other: &SignalMask) -> (m: SignalMask)
        ensures
            m@ == self@ & !other@,
    {
        SignalMask { bits: self.bits & !other.bits }
    }
}

impl Default for SignalMask {
    fn default() -> (m: Self)
        ensures
            m@ == 0,
    {
        SignalMask::empty()
    }
}

proof fn lemma_popcount_le(x: u64, n: nat)
    ensures
        popcount_below(x, n) <= n,
    decreases n,
{
    if n > 0 {
        lemma_popcount_le(x, (n - 1) as nat);
    }
}

/// Setting bit `k` of `x` leaves the bit `j` and the test of bit `j` as they were.
proof fn lemma_or_bit_other(x: u64, k: u64, j: u64)
    requires
        k < 64,
        j < 64,
        j != k,
    ensures
        ((x | (1u64 << k)) >> j) & 1 == (x >> j) & 1,
        ((x | (1u64 << k)) & (1u64 << j) != 0) == (x & (1u64 << j) != 0),
{
    assert(((x | (1u64 << k)) >> j) & 1 == (x >> j) & 1) by (bit_vector)
        requires
            k < 64,
            j < 64,
            j != k,
    ;
    assert(((x | (1u64 << k)) & (1u64 << j) != 0) == (x & (1u64 << j) != 0)) by (bit_vector)
        requires
            k < 64,
            j < 64,
            j != k,
    ;
}

/// Bit `k` of `x | (1 << k)` is set, and setting it again changes nothing.
proof fn lemma_or_bit_same(x: u64, k: u64)
    requires
        k < 64,
    ensures
        ((x | (1u64 << k)) >> k) & 1 == 1,
        (x & (1u64 << k) != 0) == ((x >> k) & 1 == 1),
        (x | (1u64 << k)) & (1u64 << k) != 0,
        (x | (1u64 << k)) | (1u64 << k) == x | (1u64 << k),
{
    assert(((x | (1u64 << k)) >> k) & 1 == 1) by (bit_vector)
        requires
            k < 64,
    ;
    assert((x & (1u64 << k) != 0) == ((x >> k) & 1 == 1)) by (bit_vector)
        requires
            k < 64,
    ;
    assert((x | (1u64 << k)) & (1u64 << k) != 0) by (bit_vector)
        requires
            k < 64,
    ;
    assert((x | (1u64 << k)) | (1u64 << k) == x | (1u64 << k)) by (bit_vector);
}

/// Setting bit `k` adds one to the count of the lowest `n` bits exactly when
/// bit `k` is among them and was clear.
proof fn lemma_popcount_or_bit(x: u64, k: u64, n: nat)
    requires
        k < 64,
        n <= 64,
    ensures
        popcount_below(x | (1u64 << k), n) == popcount_below(x, n) + if n > k && (x >> k) & 1 != 1 {
            1nat
        } else {
            0nat
        },
    decreases n,
{
    if n > 0 {
        lemma_popcount_or_bit(x, k, (n - 1) as nat);
        let j = (n - 1) as u64;
        if j == k {
            lemma_or_bit_same(x, k);
        } else {
            lemma_or_bit_other(x, k, j);
        }
    }
}

/// After `add(s)` on a mask with bits `x`: `s` is in the mask, every other
/// signal is as it was, the count grows by one exactly when `s` was not in it,
/// and adding `s` again changes nothing.
pub proof fn lemma_mask_add(x: u64, s: FullSignal)
    ensures
        bits_have(x | sig_bit(s), s),
        forall|t: FullSignal| t != s ==> #[trigger] bits_have(x | sig_bit(s), t) == bits_have(x, t),
        popcount(x | sig_bit(s)) == popcount(x) + if bits_have(x, s) { 0nat } else { 1nat },
        (x | sig_bit(s)) | sig_bit(s) == x | sig_bit(s),
{
    lemma_sig_num(s);
    let k = (sig_num(s) - 1) as u64;
    lemma_or_bit_same(x, k);
    lemma_popcount_or_bit(x, k, 64);
    assert forall|t: FullSignal| t != s implies #[trigger] bits_have(x | sig_bit(s), t) == bits_have(x, t) by {
        lemma_sig_num(t);
        let j = (sig_num(t) - 1) as u64;
        lemma_or_bit_other(x, k, j);
    }
}

} // verus!

verus! {

// ════════════════════════════════════════════════════════════════
//  ALTERNATE SIGNAL STACK (sigaltstack)
// ════════════════════════════════════════════════════════════════

#[derive(Clone, Copy, Debug, PartialEq, Eq, Structural)]
pub struct AltStackFlags {
    pub onstack: bool,
    pub disabled: bool,
}

impl AltStackFlags {
    pub fn is_disabled(&self) -> (r: bool)
        ensures
            r == self.disabled,
    {
        self.disabled
    }
}

impl Default for AltStackFlags {
    fn default() -> (f: Self)
        ensures
            f == (AltStackFlags { onstack: false, disabled: false }),
    {
        AltStackFlags { onstack: false, disabled: false }
    }
}

#[derive(Clone, Copy, Debug, PartialEq, Eq, Structural)]
pub struct AltStack {
    pub base_addr: u64,
    pub size: u64,
    pub flags: AltStackFlags,
}

/// Sizes accepted for an alternate stack.
pub open spec fn altstack_size_ok(size: u64) -> bool {
    MIN_ALTSTACK_SIZE <= size <= MAX_ALTSTACK_SIZE
}

impl AltStack {
    pub fn new(base: u64, size: u64) -> (r: Option<Self>)
        ensures
            altstack_size_ok(size) ==> r == Some(
                AltStack {
                    base_addr: base,
                    size: size,
                    flags: AltStackFlags { onstack: false, disabled: false },
                },
            ),
            !altstack_size_ok(size) ==> r is None,
    {
        if size < MIN_ALTSTACK_SIZE || size > MAX_ALTSTACK_SIZE {
            return None;
        }
        Some(AltStack { base_addr: base, size, flags: AltStackFlags::default() })
    }

    pub fn is_valid(&self) -> (r: bool)
        ensures
            r == !self.flags.disabled,
    {
        !self.flags.is_disabled()
    }

    pub fn top(&self) -> (r: u64)
        requires
            self.base_addr + self.size <= u64::MAX,
        ensures
            r == self.base_addr + self.size,
    {
        self.base_addr + self.size
    }
}

// ════════════════════════════════════════════════════════════════
//  INTERVAL TIMERS (setitimer/getitimer)
// ════════════════════════════════════════════════════════════════

#[derive(Clone, Copy, Debug, PartialEq, Eq, Structural)]
pub enum TimerType {
    Real,
    Virtual,
    Prof,
}

impl TimerType {
    /// The signal a timer of this kind sends when it fires.
    pub open spec fn signal_spec(self) -> FullSignal {
        match self {
            TimerType::Real => FullSignal::Sigalrm,
            TimerType::Virtual => FullSignal::Sigvtalrm,
            TimerType::Prof => FullSignal::Sigprof,
        }
    }

    /// Slot of this timer in a process's timer table.
    pub open spec fn slot(self) -> int {
        match self {
            TimerType::Real => 0,
            TimerType::Virtual => 1,
            TimerType::Prof => 2,
        }
    }

    pub fn signal(&self) -> (r: FullSignal)
        ensures
            r == self.signal_spec(),
    {
        match self {
            TimerType::Real => FullSignal::Sigalrm,
            TimerType::Virtual => FullSignal::Sigvtalrm,
            TimerType::Prof => FullSignal::Sigprof,
        }
    }

    pub fn name(&self) -> (r: &'static str)
        ensures
            r@ == match *self {
                TimerType::Real => "ITIMER_REAL"@,
                TimerType::Virtual => "ITIMER_VIRTUAL"@,
                TimerType::Prof => "ITIMER_PROF"@,
            },
    {
        match self {
            TimerType::Real => "ITIMER_REAL",
            TimerType::Virtual => "ITIMER_VIRTUAL",
            TimerType::Prof => "ITIMER_PROF",
        }
    }
}

#[derive(Clone, Copy, Debug, PartialEq, Eq, Structural)]
pub struct TimeVal {
    pub seconds: u64,
    pub microseconds: u64,
}

impl TimeVal {
    /// The value in microseconds.
    pub open spec fn us(self) -> int {
        self.seconds * 1_000_000 + self.microseconds
    }

    /// Representable as a `u64` number of microseconds.
    pub open spec fn fits(self) -> bool {
        self.us() <= u64::MAX
    }

    pub fn zero() -> (t: Self)
        ensures
            t == (TimeVal { seconds: 0, microseconds: 0 }),
    {
        TimeVal { seconds: 0, microseconds: 0 }
    }

    pub fn from_ms(ms: u64) -> (t: Self)
        ensures
            t == (TimeVal { seconds: ms / 1000, microseconds: ((ms % 1000) * 1000) as u64 }),
            t.us() == ms * 1000,
            t.microseconds < 1_000_000,
    {
        TimeVal { seconds: ms / 1000, microseconds: (ms % 1000) * 1000 }
    }

    pub fn to_us(&self) -> (r: u64)
        requires
            self.fits(),
        ensures
            r == self.us(),
    {
        self.seconds * 1_000_000 + self.microseconds
    }

    pub fn is_zero(&self) -> (r: bool)
        ensures
            r == (self.seconds == 0 && self.microseconds == 0),
    {
        self.seconds == 0 && self.microseconds == 0
    }
}

#[derive(Clone, Copy, Debug, PartialEq, Eq, Structural)]
pub struct IntervalTimer {
    pub timer_type: TimerType,
    pub initial: TimeVal,
    pub interval: TimeVal,
    pub remaining: TimeVal,
    pub overrun: u32,
    pub active: bool,
}

/// A time value that is zero.
pub open spec fn tv_zero(t: TimeVal) -> bool {
    t.seconds == 0 && t.microseconds == 0
}

impl IntervalTimer {
    /// The timer after `elapsed_us` microseconds, and whether it fired.
    pub open spec fn ticked(self, elapsed_us: u64) -> (IntervalTimer, bool) {
        if !self.active {
            (self, false)
        } else if elapsed_us >= self.remaining.us() {
            if !tv_zero(self.interval) {
                (IntervalTimer { overrun: (self.overrun + 1) as u32, remaining: self.interval, ..self }, true)
            } else {
                (IntervalTimer { overrun: (self.overrun + 1) as u32, active: false, ..self }, true)
            }
        } else {
            let left = self.remaining.us() - elapsed_us;
            (IntervalTimer {
                remaining: TimeVal {
                    seconds: (left / 1_000_000) as u64,
                    microseconds: (left % 1_000_000) as u64,
                },
                ..self
            }, false)
        }
    }

    /// Ticking cannot overflow: the remaining time fits and the overrun count has room.
    pub open spec fn tick_ok(self) -> bool {
        self.active ==> self.remaining.fits() && self.overrun < u32::MAX
    }

    pub fn new(timer_type: TimerType) -> (t: Self)
        ensures
            t == (IntervalTimer {
                timer_type: timer_type,
                initial: TimeVal { seconds: 0, microseconds: 0 },
                interval: TimeVal { seconds: 0, microseconds: 0 },
                remaining: TimeVal { seconds: 0, microseconds: 0 },
                overrun: 0,
                active: false,
            }),
    {
        IntervalTimer {
            timer_type,
            initial: TimeVal::zero(),
            interval: TimeVal::zero(),
            remaining: TimeVal::zero(),
            overrun: 0,
            active: false,
        }
    }

    pub fn set(&mut self, initial: TimeVal, interval: TimeVal)
        ensures
            *final(self) == (IntervalTimer {
                timer_type: old(self).timer_type,
                initial: initial,
                interval: interval,
                remaining: initial,
                overrun: 0,
                active: !tv_zero(initial),
            }),
    {
        self.initial = initial;
        self.interval = interval;
        self.remaining = initial;
        self.active = !initial.is_zero();
        self.overrun = 0;
    }

    pub fn cancel(&mut self)
        ensures
            *final(self) == (IntervalTimer {
                active: false,
                remaining: TimeVal { seconds: 0, microseconds: 0 },
                ..*old(self)
            }),
    {
        self.active = false;
        self.remaining = TimeVal::zero();
    }

    /// Advances the timer; returns whether it fired.
    pub fn tick(&mut self, elapsed_us: u64) -> (fired: bool)
        requires
            old(self).tick_ok(),
        ensures
            (*final(self), fired) == old(self).ticked(elapsed_us),
    {
        if !self.active {
            return false;
        }
        let remaining_us = self.remaining.to_us();
        if elapsed_us >= remaining_us {
            self.overrun = self.overrun + 1;
            if !self.interval.is_zero() {
                self.remaining = self.interval;
            } else {
                self.active = false;
            }
            true
        } else {
            let new_remaining = remaining_us - elapsed_us;
            self.remaining = TimeVal {
                seconds: new_remaining / 1_000_000,
                microseconds: new_remaining % 1_000_000,
            };
            false
        }
    }
}

// ════════════════════════════════════════════════════════════════
//  AUDIT / TARGETING / RESOLUTION
// ════════════════════════════════════════════════════════════════

#[derive(Clone, Copy, Debug, PartialEq, Eq, Structural)]
pub struct SignalAuditEntry {
    pub timestamp: u64,
    pub sender_pid: Option<u32>,
    pub target_pid: u32,
    pub signal: FullSignal,
    pub code: SignalCode,
    pub target_type: SignalTargetType,
    pub result: SignalSendResult,
}

#[derive(Clone, Copy, Debug, PartialEq, Eq, Structural)]
pub enum SignalTargetType {
    Process,
    ProcessGroup,
    Container,
    Broadcast,
}

#[derive(Clone, Copy, Debug, PartialEq, Eq, Structural)]
pub enum SignalSendResult {
    Delivered,
    Queued,
    Blocked,
    Coalesced,
    NoTarget,
    PermissionDenied,
}

#[derive(Clone, Copy, Debug, PartialEq, Eq, Structural)]
pub enum SignalResolution {
    Terminate(i32),
    Stop,
    Continue,
    Ignore,
    CallHandler { addr: u64, use_altstack: bool, flags: SignalHandlerFlags },
}

} // verus!

verus! {

// ════════════════════════════════════════════════════════════════
//  PER-PROCESS SIGNAL STATE
// ════════════════════════════════════════════════════════════════

#[derive(Clone, Debug)]
pub struct ProcessSignalState {
    pub pid: u32,
    pub dispositions: [SignalDisposition; 64],
    pub blocked_mask: SignalMask,
    pub saved_mask: SignalMask,
    pub pending: Vec<PendingEntry>,
    pub standard_pending: u64,
    pub altstack: Option<AltStack>,
    pub timers: [IntervalTimer; 3],
    pub in_handler: bool,
    pub signals_received: u64,
    pub signals_delivered: u64,
    pub signals_dropped: u64,
    pub signals_coalesced: u64,
}

/// Slot of a signal's disposition.
pub open spec fn disp_slot(s: FullSignal) -> int {
    sig_num(s) - 1
}

impl ProcessSignalState {
    /// The disposition that governs signal `s`.
    pub open spec fn disposition(&self, s: FullSignal) -> SignalDisposition {
        self.dispositions@[disp_slot(s)]
    }

    /// Whether `s` is held back: blocked and not one of SIGKILL/SIGSTOP.
    pub open spec fn blocks(&self, s: FullSignal) -> bool {
        !(s is Sigkill || s is Sigstop) && self.blocked_mask.has(s)
    }

    /// The timer of a kind.
    pub open spec fn timer(&self, t: TimerType) -> IntervalTimer {
        self.timers@[t.slot()]
    }

    /// A fresh state: default dispositions, nothing blocked or pending, idle timers.
    pub open spec fn is_fresh(&self, pid: u32) -> bool {
        &&& self.pid == pid
        &&& forall|i: int| 0 <= i < 64 ==> self.dispositions@[i] == SignalDisposition::Default
        &&& self.blocked_mask@ == 0
        &&& self.saved_mask@ == 0
        &&& self.pending@.len() == 0
        &&& self.standard_pending == 0
        &&& self.altstack is None
        &&& self.timers@[0] == IntervalTimer::fresh(TimerType::Real)
        &&& self.timers@[1] == IntervalTimer::fresh(TimerType::Virtual)
        &&& self.timers@[2] == IntervalTimer::fresh(TimerType::Prof)
        &&& !self.in_handler
        &&& self.signals_received == 0
        &&& self.signals_delivered == 0
        &&& self.signals_dropped == 0
        &&& self.signals_coalesced == 0
    }

    pub fn new(pid: u32) -> (s: Self)
        ensures
            s.is_fresh(pid),
    {
        ProcessSignalState {
            pid,
            dispositions: [SignalDisposition::Default; 64],
            blocked_mask: SignalMask::empty(),
            saved_mask: SignalMask::empty(),
            pending: Vec::new(),
            standard_pending: 0,
            altstack: None,
            timers: [
                IntervalTimer::new(TimerType::Real),
                IntervalTimer::new(TimerType::Virtual),
                IntervalTimer::new(TimerType::Prof),
            ],
            in_handler: false,
            signals_received: 0,
            signals_delivered: 0,
            signals_dropped: 0,
            signals_coalesced: 0,
        }
    }

    /// Installs a disposition; SIGKILL and SIGSTOP keep theirs.
    pub fn set_disposition(&mut self, sig: FullSignal, disp: SignalDisposition) -> (r: bool)
        ensures
            r == !(sig is Sigkill || sig is Sigstop),
            r ==> *final(self) == (ProcessSignalState {
                dispositions: final(self).dispositions,
                ..*old(self)
            }) && final(self).dispositions@ == old(self).dispositions@.update(disp_slot(sig), disp),
            !r ==> *final(self) == *old(self),
    {
        if sig.is_unblockable() {
            return false;
        }
        let n = sig.number();
        self.dispositions[(n - 1) as usize] = disp;
        true
    }

    pub fn get_disposition(&self, sig: FullSignal) -> (r: SignalDisposition)
        ensures
            r == self.disposition(sig),
    {
        let n = sig.number();
        self.dispositions[(n - 1) as usize]
    }

    pub fn block_signal(&mut self, sig: FullSignal)
        ensures
            (sig is Sigkill || sig is Sigstop) ==> *final(self) == *old(self),
            !(sig is Sigkill || sig is Sigstop) ==> *final(self) == (ProcessSignalState {
                blocked_mask: final(self).blocked_mask,
                ..*old(self)
            }) && final(self).blocked_mask@ == old(self).blocked_mask@ | sig_bit(sig),
    {
        if sig.is_unblockable() {
            return;
        }
        self.blocked_mask.add(sig);
    }

    pub fn unblock_signal(&mut self, sig: FullSignal)
        ensures
            *final(self) == (ProcessSignalState {
                blocked_mask: final(self).blocked_mask,
                ..*old(self)
            }),
            final(self).blocked_mask@ == old(self).blocked_mask@ & !sig_bit(sig),
    {
        self.blocked_mask.remove(sig);
    }

    pub fn is_blocked(&self, sig: FullSignal) -> (r: bool)
        ensures
            r == self.blocks(sig),
    {
        if sig.is_unblockable() {
            return false;
        }
        self.blocked_mask.contains(sig)
    }

    pub fn set_altstack(&mut self, stack: AltStack)
        ensures
            *final(self) == (ProcessSignalState { altstack: Some(stack), ..*old(self) }),
    {
        self.altstack = Some(stack);
    }

    pub fn get_altstack(&self) -> (r: Option<&AltStack>)
        ensures
            match r {
                Some(a) => self.altstack == Some(*a),
                None => self.altstack is None,
            },
    {
        self.altstack.as_ref()
    }

    pub fn has_pending_standard(&self, sig: FullSignal) -> (r: bool)
        ensures
            r == bits_have(self.standard_pending, sig),
    {
        let n = sig.number();
        let bit = 1u64 << ((n - 1) as u64);
        (self.standard_pending & bit) != 0
    }

    /// Marks a standard signal pending; `false` if it already was (coalesced).
    pub fn mark_pending_standard(&mut self, sig: FullSignal) -> (r: bool)
        ensures
            r == !bits_have(old(self).standard_pending, sig),
            r ==> *final(self) == (ProcessSignalState {
                standard_pending: old(self).standard_pending | sig_bit(sig),
                ..*old(self)
            }),
            !r ==> *final(self) == *old(self),
    {
        let n = sig.number();
        let bit = 1u64 << ((n - 1) as u64);
        if (self.standard_pending & bit) != 0 {
            return false;
        }
        self.standard_pending = self.standard_pending | bit;
        true
    }

    pub fn clear_pending_standard(&mut self, sig: FullSignal)
        ensures
            *final(self) == (ProcessSignalState {
                standard_pending: old(self).standard_pending & !sig_bit(sig),
                ..*old(self)
            }),
    {
        let n = sig.number();
        let bit = 1u64 << ((n - 1) as u64);
        self.standard_pending = self.standard_pending & !bit;
    }

    pub fn pending_count(&self) -> (r: usize)
        ensures
            r == self.pending@.len(),
    {
        self.pending.len()
    }

    pub fn is_full(&self) -> (r: bool)
        ensures
            r == (self.pending@.len() >= MAX_PENDING_PER_PROCESS),
    {
        self.pending.len() >= MAX_PENDING_PER_PROCESS
    }

    pub fn get_timer_mut(&mut self, timer_type: TimerType) -> (r: &mut IntervalTimer)
        ensures
            *r == old(self).timer(timer_type),
            *final(self) == (ProcessSignalState { timers: final(self).timers, ..*old(self) }),
            final(self).timers@ == old(self).timers@.update(timer_type.slot(), *final(r)),
    {
        match timer_type {
            TimerType::Real => &mut self.timers[0],
            TimerType::Virtual => &mut self.timers[1],
            TimerType::Prof => &mut self.timers[2],
        }
    }
}

impl IntervalTimer {
    /// A timer of a kind that was never set.
    pub open spec fn fresh(t: TimerType) -> IntervalTimer {
        IntervalTimer {
            timer_type: t,
            initial: TimeVal { seconds: 0, microseconds: 0 },
            interval: TimeVal { seconds: 0, microseconds: 0 },
            remaining: TimeVal { seconds: 0, microseconds: 0 },
            overrun: 0,
            active: false,
        }
    }
}

} // verus!

verus! {

// ════════════════════════════════════════════════════════════════
//  ABSTRACT STATE
// ════════════════════════════════════════════════════════════════

/// The abstract signal state of one process.
pub struct SigProc {
    pub pid: u32,
    pub dispositions: Seq<SignalDisposition>,
    pub blocked: u64,
    pub saved: u64,
    pub pending: Seq<PendingEntry>,
    pub standard_pending: u64,
    pub altstack: Option<AltStack>,
    pub timers: Seq<IntervalTimer>,
    pub in_handler: bool,
    pub received: u64,
    pub delivered: u64,
    pub dropped: u64,
    pub coalesced: u64,
}

impl ProcessSignalState {
    pub open spec fn view(&self) -> SigProc {
        SigProc {
            pid: self.pid,
            dispositions: self.dispositions@,
            blocked: self.blocked_mask@,
            saved: self.saved_mask@,
            pending: self.pending@,
            standard_pending: self.standard_pending,
            altstack: self.altstack,
            timers: self.timers@,
            in_handler: self.in_handler,
            received: self.signals_received,
            delivered: self.signals_delivered,
            dropped: self.signals_dropped,
            coalesced: self.signals_coalesced,
        }
    }
}

/// Whether the process holds back `s` (blocked and catchable).
pub open spec fn proc_blocks(p: SigProc, s: FullSignal) -> bool {
    !(s is Sigkill || s is Sigstop) && bits_have(p.blocked, s)
}

/// The pending entry at `i` can be delivered now.
pub open spec fn deliverable(p: SigProc, i: int) -> bool {
    0 <= i < p.pending.len() && !proc_blocks(p, p.pending[i].signal)
}

/// `i` is the entry delivered next: deliverable, of least priority value, and the first
/// such.
pub open spec fn best_pending(p: SigProc, i: int) -> bool {
    &&& deliverable(p, i)
    &&& forall|j: int|
        0 <= j < i && deliverable(p, j) ==> delivery_rank(p, p.pending[j].signal) > delivery_rank(
            p,
            p.pending[i].signal,
        )
    &&& forall|j: int|
        i < j < p.pending.len() && deliverable(p, j) ==> delivery_rank(p, p.pending[j].signal)
            >= delivery_rank(p, p.pending[i].signal)
}

/// The order of delivery: SIGKILL and SIGSTOP first, then signals the process
/// catches with a handler, then the rest; within each class by priority.
pub open spec fn delivery_rank(p: SigProc, s: FullSignal) -> int {
    if s is Sigkill || s is Sigstop {
        sig_priority(s) as int
    } else if p.dispositions[disp_slot(s)] is Catch {
        32 + sig_priority(s)
    } else {
        64 + sig_priority(s)
    }
}

/// Some pending entry can be delivered.
pub open spec fn has_deliverable(p: SigProc) -> bool {
    exists|i: int| deliverable(p, i)
}

/// What delivering `s` under disposition `d` does, given the alternate stack.
pub open spec fn resolve_spec(s: FullSignal, d: SignalDisposition, alt: Option<AltStack>) -> SignalResolution {
    match d {
        SignalDisposition::Default => match sig_default_action(s) {
            SignalAction::Terminate => SignalResolution::Terminate(0),
            SignalAction::TerminateCore => SignalResolution::Terminate(1),
            SignalAction::Stop => SignalResolution::Stop,
            SignalAction::Continue => SignalResolution::Continue,
            SignalAction::Ignore => SignalResolution::Ignore,
        },
        SignalDisposition::Ignore => SignalResolution::Ignore,
        SignalDisposition::Catch { handler_addr, flags, mask } => SignalResolution::CallHandler {
            addr: handler_addr,
            use_altstack: flags.onstack && (alt matches Some(a) && !a.flags.disabled),
            flags: flags,
        },
    }
}

/// The process after entry `i` is delivered with resolution `res`.
pub open spec fn delivered_proc(p: SigProc, i: int, res: SignalResolution) -> SigProc {
    let s = p.pending[i].signal;
    let p1 = SigProc {
        pending: p.pending.remove(i),
        standard_pending: if sig_num(s) <= 31 {
            p.standard_pending & !sig_bit(s)
        } else {
            p.standard_pending
        },
        delivered: wrap_inc(p.delivered),
        ..p
    };
    if res is CallHandler {
        SigProc { in_handler: true, saved: p.blocked, blocked: p.blocked | sig_bit(s), ..p1 }
    } else {
        p1
    }
}

/// The abstract state of the signal manager.
pub struct SigMgr {
    pub procs: Map<u32, SigProc>,
    pub groups: Map<u32, Seq<u32>>,
    pub containers: Map<u32, Seq<u32>>,
    pub audit: Seq<SignalAuditEntry>,
    pub total_sent: u64,
    pub total_delivered: u64,
    pub total_coalesced: u64,
    pub total_dropped: u64,
}

impl SigMgr {
    /// The log after recording `e`, while the log has room.
    pub open spec fn audited(self, e: SignalAuditEntry) -> SigMgr {
        if self.audit.len() < MAX_AUDIT_ENTRIES {
            SigMgr { audit: self.audit.push(e), ..self }
        } else {
            self
        }
    }

}

/// The info a sent signal carries: its number, and sender 0 when none was given.
pub open spec fn stamped_info(sig: FullSignal, info: SignalInfo) -> SignalInfo {
    SignalInfo {
        signo: sig_num(sig),
        sender_pid: if info.sender_pid is None { Some(0u32) } else { info.sender_pid },
        ..info
    }
}

/// The audit record of sending `sig` to `pid`.
pub open spec fn audit_entry(pid: u32, sig: FullSignal, info: SignalInfo, res: SignalSendResult) -> SignalAuditEntry {
    SignalAuditEntry {
        timestamp: 0,
        sender_pid: info.sender_pid,
        target_pid: pid,
        signal: sig,
        code: info.code,
        target_type: SignalTargetType::Process,
        result: res,
    }
}

/// Sending `sig` with `info0` to process `pid`: standard signals already pending
/// coalesce, a full queue drops the signal, otherwise it is queued.
pub open spec fn send_step(v: SigMgr, pid: u32, sig: FullSignal, info0: SignalInfo) -> (SigMgr, SignalSendResult) {
    let info = stamped_info(sig, info0);
    let v1 = SigMgr { total_sent: wrap_inc(v.total_sent), ..v };
    if !v.procs.contains_key(pid) {
        (v1.audited(audit_entry(pid, sig, info, SignalSendResult::NoTarget)), SignalSendResult::NoTarget)
    } else {
        let p = v.procs[pid];
        let p1 = SigProc { received: wrap_inc(p.received), ..p };
        let standard = sig_num(sig) <= 31;
        if standard && bits_have(p.standard_pending, sig) {
            let p2 = SigProc { coalesced: wrap_inc(p1.coalesced), ..p1 };
            (SigMgr {
                procs: v.procs.insert(pid, p2),
                total_coalesced: wrap_inc(v.total_coalesced),
                ..v1
            }.audited(audit_entry(pid, sig, info, SignalSendResult::Coalesced)), SignalSendResult::Coalesced)
        } else {
            let p2 = if standard {
                SigProc { standard_pending: p1.standard_pending | sig_bit(sig), ..p1 }
            } else {
                p1
            };
            if p2.pending.len() >= MAX_PENDING_PER_PROCESS {
                let p3 = SigProc {
                    dropped: wrap_inc(p2.dropped),
                    standard_pending: if standard {
                        p2.standard_pending & !sig_bit(sig)
                    } else {
                        p2.standard_pending
                    },
                    ..p2
                };
                (SigMgr {
                    procs: v.procs.insert(pid, p3),
                    total_dropped: wrap_inc(v.total_dropped),
                    ..v1
                }, SignalSendResult::NoTarget)
            } else {
                let p3 = SigProc { pending: p2.pending.push(PendingEntry { signal: sig, info: info }), ..p2 };
                (SigMgr { procs: v.procs.insert(pid, p3), ..v1 }.audited(
                    audit_entry(pid, sig, info, SignalSendResult::Queued),
                ), SignalSendResult::Queued)
            }
        }
    }
}

/// The info of a signal sent to a group, container or everyone.
pub open spec fn bulk_info(sig: FullSignal, code: SignalCode, sender: Option<u32>) -> SignalInfo {
    SignalInfo {
        signo: sig_num(sig),
        code: code,
        sender_pid: sender,
        sender_uid: None,
        value: 0,
        status: 0,
        addr: 0,
        timestamp: 0,
    }
}

/// Some entry of `pending` carries `s`.
pub open spec fn pending_has(pending: Seq<PendingEntry>, s: FullSignal) -> bool {
    exists|i: int| 0 <= i < pending.len() && #[trigger] pending[i].signal == s
}

/// The queue of a process agrees with its standard-pending bits: it holds at
/// most `MAX_PENDING_PER_PROCESS` entries, a standard signal (1 to 31) has its
/// bit set exactly when it is queued, and is queued at most once.
pub open spec fn pending_consistent(pending: Seq<PendingEntry>, bits: u64) -> bool {
    &&& pending.len() <= MAX_PENDING_PER_PROCESS
    &&& forall|s: FullSignal| sig_num(s) <= 31 ==> (#[trigger] bits_have(bits, s) <==> pending_has(pending, s))
    &&& forall|i: int, j: int|
        0 <= i < j < pending.len() && (#[trigger] pending[i]).signal == (#[trigger] pending[j]).signal
            ==> sig_num(pending[i].signal) > 31
}

/// Every registered process has a consistent queue.
pub open spec fn procs_consistent(v: SigMgr) -> bool {
    forall|pid: u32| #[trigger] v.procs.contains_key(pid) ==> pending_consistent(v.procs[pid].pending, v.procs[pid].standard_pending)
}

/// Clearing the bit of `s` in `x` leaves every other signal's bit as it was.
pub proof fn lemma_mask_clear(x: u64, s: FullSignal)
    ensures
        !bits_have(x & !sig_bit(s), s),
        forall|t: FullSignal| t != s ==> #[trigger] bits_have(x & !sig_bit(s), t) == bits_have(x, t),
{
    lemma_sig_num(s);
    let k = (sig_num(s) - 1) as u64;
    assert((x & !(1u64 << k)) & (1u64 << k) == 0) by (bit_vector)
        requires
            k < 64,
    ;
    assert forall|t: FullSignal| t != s implies #[trigger] bits_have(x & !sig_bit(s), t) == bits_have(x, t) by {
        lemma_sig_num(t);
        let j = (sig_num(t) - 1) as u64;
        assert(((x & !(1u64 << k)) & (1u64 << j) != 0) == (x & (1u64 << j) != 0)) by (bit_vector)
            requires
                k < 64,
                j < 64,
                j != k,
        ;
    }
}

/// No signal's bit is set in the empty mask.
pub proof fn lemma_mask_empty(s: FullSignal)
    ensures
        !bits_have(0, s),
{
    lemma_sig_num(s);
    let k = (sig_num(s) - 1) as u64;
    assert(0u64 & (1u64 << k) == 0) by (bit_vector);
}

/// An empty queue with no bits set is consistent.
pub proof fn lemma_empty_consistent()
    ensures
        pending_consistent(Seq::empty(), 0),
{
    assert forall|s: FullSignal| sig_num(s) <= 31 implies (#[trigger] bits_have(0, s) <==> pending_has(Seq::<PendingEntry>::empty(), s)) by {
        lemma_mask_empty(s);
    }
}

/// A process whose queue and bits stay as they were stays consistent.
pub proof fn lemma_consistent_insert(v: SigMgr, pid: u32, q: SigProc)
    requires
        procs_consistent(v),
        pending_consistent(q.pending, q.standard_pending),
    ensures
        procs_consistent(SigMgr { procs: v.procs.insert(pid, q), ..v }),
{
    let w = SigMgr { procs: v.procs.insert(pid, q), ..v };
    assert forall|p2: u32| #[trigger] w.procs.contains_key(p2) implies pending_consistent(w.procs[p2].pending, w.procs[p2].standard_pending) by {
        if p2 != pid {
            assert(v.procs.contains_key(p2));
        }
    }
}

/// Changing a process in a way that keeps its queue and bits keeps every
/// queue consistent.
proof fn lemma_queue_kept(v: SigMgr, w: SigMgr, pid: u32)
    requires
        procs_consistent(v),
        v.procs.contains_key(pid),
        w.procs == v.procs.insert(pid, w.procs[pid]),
        w.procs[pid].pending == v.procs[pid].pending,
        w.procs[pid].standard_pending == v.procs[pid].standard_pending,
    ensures
        procs_consistent(w),
{
    lemma_consistent_insert(v, pid, w.procs[pid]);
    assert(w.procs == (SigMgr { procs: v.procs.insert(pid, w.procs[pid]), ..v }).procs);
}

/// Sending keeps every queue consistent; on a consistent state a send
/// coalesces exactly when the target is registered and the signal is standard
/// and already queued, and then the queue stays as it was.
pub proof fn lemma_send_consistent(v: SigMgr, pid: u32, sig: FullSignal, info: SignalInfo)
    requires
        procs_consistent(v),
    ensures
        procs_consistent(send_step(v, pid, sig, info).0),
        (send_step(v, pid, sig, info).1 == SignalSendResult::Coalesced) == (v.procs.contains_key(pid)
            && sig_num(sig) <= 31 && pending_has(v.procs[pid].pending, sig)),
        send_step(v, pid, sig, info).1 == SignalSendResult::Coalesced ==> send_step(v, pid, sig, info).0.procs[pid].pending
            == v.procs[pid].pending,
{
    let (w, r) = send_step(v, pid, sig, info);
    if v.procs.contains_key(pid) {
        let p = v.procs[pid];
        let standard = sig_num(sig) <= 31;
        assert(pending_consistent(p.pending, p.standard_pending));
        let inf = stamped_info(sig, info);
        if standard && bits_have(p.standard_pending, sig) {
            let p2 = SigProc { received: wrap_inc(p.received), coalesced: wrap_inc(p.coalesced), ..p };
            lemma_consistent_insert(v, pid, p2);
        } else {
            let bits2 = if standard { p.standard_pending | sig_bit(sig) } else { p.standard_pending };
            if p.pending.len() >= MAX_PENDING_PER_PROCESS {
                let bits3 = if standard { bits2 & !sig_bit(sig) } else { bits2 };
                if standard {
                    lemma_mask_add(p.standard_pending, sig);
                    lemma_mask_clear(bits2, sig);
                    assert forall|t: FullSignal| sig_num(t) <= 31 implies (#[trigger] bits_have(bits3, t) <==> pending_has(p.pending, t)) by {
                        if t != sig {
                            assert(bits_have(bits3, t) == bits_have(p.standard_pending, t));
                        }
                    }
                }
                let p3 = SigProc { received: wrap_inc(p.received), dropped: wrap_inc(p.dropped), standard_pending: bits3, ..p };
                assert(pending_consistent(p3.pending, p3.standard_pending));
                lemma_consistent_insert(v, pid, p3);
            } else {
                let e = PendingEntry { signal: sig, info: inf };
                let q = p.pending.push(e);
                assert forall|t: FullSignal| #[trigger] pending_has(q, t) == (pending_has(p.pending, t) || t == sig) by {
                    if pending_has(q, t) {
                        let i = choose|i: int| 0 <= i < q.len() && #[trigger] q[i].signal == t;
                        if i < p.pending.len() {
                            assert(p.pending[i].signal == t);
                        }
                    }
                    if pending_has(p.pending, t) {
                        let i = choose|i: int| 0 <= i < p.pending.len() && #[trigger] p.pending[i].signal == t;
                        assert(q[i].signal == t);
                    }
                    if t == sig {
                        assert(q[p.pending.len() as int].signal == t);
                    }
                }
                if standard {
                    lemma_mask_add(p.standard_pending, sig);
                    assert forall|t: FullSignal| sig_num(t) <= 31 implies (#[trigger] bits_have(bits2, t) <==> pending_has(q, t)) by {
                        assert(pending_has(q, t) == (pending_has(p.pending, t) || t == sig));
                    }
                } else {
                    assert forall|t: FullSignal| sig_num(t) <= 31 implies (#[trigger] bits_have(bits2, t) <==> pending_has(q, t)) by {
                        assert(pending_has(q, t) == (pending_has(p.pending, t) || t == sig));
                    }
                }
                assert forall|i: int, j: int|
                    0 <= i < j < q.len() && (#[trigger] q[i]).signal == (#[trigger] q[j]).signal implies sig_num(q[i].signal) > 31 by {
                    if j == p.pending.len() {
                        if standard {
                            assert(p.pending[i].signal == sig);
                            assert(pending_has(p.pending, sig));
                        }
                    } else {
                        assert(p.pending[i] == q[i] && p.pending[j] == q[j]);
                    }
                }
                let p3 = SigProc { received: wrap_inc(p.received), pending: q, standard_pending: bits2, ..p };
                assert(pending_consistent(p3.pending, p3.standard_pending));
                lemma_consistent_insert(v, pid, p3);
            }
        }
        if pending_has(p.pending, sig) && standard {
            assert(bits_have(p.standard_pending, sig));
        }
    }
}

/// Delivering entry `i` keeps the queue consistent.
pub proof fn lemma_deliver_consistent(p: SigProc, i: int, res: SignalResolution)
    requires
        pending_consistent(p.pending, p.standard_pending),
        0 <= i < p.pending.len(),
    ensures
        pending_consistent(delivered_proc(p, i, res).pending, delivered_proc(p, i, res).standard_pending),
{
    let s = p.pending[i].signal;
    let q = p.pending.remove(i);
    let d = delivered_proc(p, i, res);
    assert(d.pending == q);
    assert forall|t: FullSignal| t != s implies #[trigger] pending_has(q, t) == pending_has(p.pending, t) by {
        if pending_has(q, t) {
            let k = choose|k: int| 0 <= k < q.len() && #[trigger] q[k].signal == t;
            if k < i {
                assert(p.pending[k].signal == t);
            } else {
                assert(p.pending[k + 1].signal == t);
            }
        }
        if pending_has(p.pending, t) {
            let k = choose|k: int| 0 <= k < p.pending.len() && #[trigger] p.pending[k].signal == t;
            if k < i {
                assert(q[k].signal == t);
            } else {
                assert(k != i);
                assert(q[k - 1].signal == t);
            }
        }
    }
    if sig_num(s) <= 31 {
        lemma_mask_clear(p.standard_pending, s);
        assert(!pending_has(q, s)) by {
            if pending_has(q, s) {
                let k = choose|k: int| 0 <= k < q.len() && #[trigger] q[k].signal == s;
                if k < i {
                    assert(p.pending[k].signal == p.pending[i].signal);
                } else {
                    assert(p.pending[i].signal == p.pending[k + 1].signal);
                }
            }
        }
        assert forall|t: FullSignal| sig_num(t) <= 31 implies (#[trigger] bits_have(d.standard_pending, t) <==> pending_has(q, t)) by {
        }
    } else {
        assert forall|t: FullSignal| sig_num(t) <= 31 implies (#[trigger] bits_have(d.standard_pending, t) <==> pending_has(q, t)) by {
            assert(t != s);
        }
    }
    assert forall|a: int, b: int|
        0 <= a < b < q.len() && (#[trigger] q[a]).signal == (#[trigger] q[b]).signal implies sig_num(q[a].signal) > 31 by {
        let a2 = if a < i { a } else { a + 1 };
        let b2 = if b < i { b } else { b + 1 };
        assert(q[a] == p.pending[a2] && q[b] == p.pending[b2]);
    }
}

/// Sending `sig` to each of `pids` in turn; the results pair each pid with its outcome.
pub open spec fn send_all(v: SigMgr, pids: Seq<u32>, sig: FullSignal, info: SignalInfo) -> (SigMgr, Seq<(u32, SignalSendResult)>)
    decreases pids.len(),
{
    if pids.len() == 0 {
        (v, Seq::empty())
    } else {
        let (v1, rs) = send_all(v, pids.drop_last(), sig, info);
        let (v2, r) = send_step(v1, pids.last(), sig, info);
        (v2, rs.push((pids.last(), r)))
    }
}

} // verus!

verus! {

// ════════════════════════════════════════════════════════════════
//  ADVANCED SIGNAL MANAGER
// ════════════════════════════════════════════════════════════════

pub struct AdvancedSignalManager {
    processes: IdMap<ProcessSignalState>,
    process_groups: IdMap<Vec<u32>>,
    container_pids: IdMap<Vec<u32>>,
    audit_log: Vec<SignalAuditEntry>,
    total_sent: u64,
    total_delivered: u64,
    total_coalesced: u64,
    total_dropped: u64,
}

#[derive(Clone, Copy, Debug, PartialEq, Eq, Structural)]
pub struct SignalStats {
    pub registered_processes: usize,
    pub process_groups: usize,
    pub containers: usize,
    pub total_sent: u64,
    pub total_delivered: u64,
    pub total_coalesced: u64,
    pub total_dropped: u64,
    pub audit_entries: usize,
}

/// The sequence of `pids` without `pid`.
pub open spec fn without_pid(s: Seq<u32>, pid: u32) -> Seq<u32> {
    s.filter(not_pid(pid))
}

/// Pids other than `pid`.
pub open spec fn not_pid(pid: u32) -> spec_fn(u32) -> bool {
    |p: u32| p != pid
}

/// Removes every occurrence of `pid` from `v`.
fn retain_not(v: &mut Vec<u32>, pid: u32)
    ensures
        final(v)@ == without_pid(old(v)@, pid),
{
    let mut out: Vec<u32> = Vec::new();
    let mut i: usize = 0;
    while i < v.len()
        invariant
            i <= v@.len(),
            v@ == old(v)@,
            out@ == v@.take(i as int).filter(not_pid(pid)),
        decreases v@.len() - i,
    {
        proof {
            crate::seqs::lemma_filter_take_succ(v@, i as int, not_pid(pid));
        }
        if v[i] != pid {
            out.push(v[i]);
        }
        i = i + 1;
    }
    proof {
        crate::seqs::lemma_take_full(v@);
    }
    *v = out;
}

impl AdvancedSignalManager {
    pub closed spec fn view(&self) -> SigMgr {
        SigMgr {
            procs: self.processes@.map_values(|s: ProcessSignalState| s.view()),
            groups: self.process_groups@.map_values(|v: Vec<u32>| v@),
            containers: self.container_pids@.map_values(|v: Vec<u32>| v@),
            audit: self.audit_log@,
            total_sent: self.total_sent,
            total_delivered: self.total_delivered,
            total_coalesced: self.total_coalesced,
            total_dropped: self.total_dropped,
        }
    }

    /// The internal tables are well formed, the audit log stays within
    /// `MAX_AUDIT_ENTRIES`, and every process's queue agrees with its
    /// standard-pending bits.
    pub closed spec fn wf(&self) -> bool {
        &&& self.processes.wf()
        &&& self.process_groups.wf()
        &&& self.container_pids.wf()
        &&& self.audit_log@.len() <= MAX_AUDIT_ENTRIES
        &&& procs_consistent(self@)
    }

    /// The audit log of a well-formed manager holds at most `MAX_AUDIT_ENTRIES`.
    pub proof fn lemma_audit_bounded(&self)
        requires
            self.wf(),
        ensures
            self@.audit.len() <= MAX_AUDIT_ENTRIES,
    {
    }

    /// In a well-formed manager, which every operation keeps from `new` on,
    /// each process queues at most `MAX_PENDING_PER_PROCESS` signals, each
    /// standard signal at most once, and its standard-pending bit is set
    /// exactly when it is queued.
    pub proof fn lemma_queues_consistent(&self)
        requires
            self.wf(),
        ensures
            procs_consistent(self@),
    {
    }

    /// Registered pids in ascending order.
    pub closed spec fn pid_order(&self) -> Seq<u32> {
        self.processes.key_seq()
    }

    pub fn new() -> (m: Self)
        ensures
            m.wf(),
            m@ == (SigMgr {
                procs: Map::empty(),
                groups: Map::empty(),
                containers: Map::empty(),
                audit: Seq::empty(),
                total_sent: 0,
                total_delivered: 0,
                total_coalesced: 0,
                total_dropped: 0,
            }),
    {
        let m = AdvancedSignalManager {
            processes: IdMap::new(),
            process_groups: IdMap::new(),
            container_pids: IdMap::new(),
            audit_log: Vec::new(),
            total_sent: 0,
            total_delivered: 0,
            total_coalesced: 0,
            total_dropped: 0,
        };
        assert(m@.procs =~= Map::empty());
        assert(m@.groups =~= Map::empty());
        assert(m@.containers =~= Map::empty());
        m
    }

    // ── Process Registration ──────────────────────────────────

    /// Registers `pid` with a fresh signal state (replacing any earlier one).
    pub fn register(&mut self, pid: u32)
        requires
            old(self).wf(),
        ensures
            final(self).wf(),
            final(self)@.procs.contains_key(pid),
            final(self)@ == (SigMgr { procs: final(self)@.procs, ..old(self)@ }),
            final(self)@.procs.remove(pid) == old(self)@.procs.remove(pid),
            exists|s: ProcessSignalState| s.is_fresh(pid) && final(self)@.procs[pid] == s.view(),
    {
        let st = ProcessSignalState::new(pid);
        let ghost sv = st.view();
        self.processes.insert(pid, st);
        proof {
            assert(self@.procs =~= old(self)@.procs.insert(pid, sv));
            assert(sv.pending =~= Seq::<PendingEntry>::empty());
            lemma_empty_consistent();
            lemma_consistent_insert(old(self)@, pid, sv);
            assert(self@.procs.remove(pid) =~= old(self)@.procs.remove(pid));
        }
    }

    /// Forgets `pid` and removes it from every group and container.
    pub fn unregister(&mut self, pid: u32)
        requires
            old(self).wf(),
        ensures
            final(self).wf(),
            final(self)@.procs == old(self)@.procs.remove(pid),
            final(self)@.groups == old(self)@.groups.map_values(|s: Seq<u32>| without_pid(s, pid)),
            final(self)@.containers == old(self)@.containers.map_values(
                |s: Seq<u32>| without_pid(s, pid),
            ),
            final(self)@.audit == old(self)@.audit,
            final(self)@.total_sent == old(self)@.total_sent,
            final(self)@.total_delivered == old(self)@.total_delivered,
            final(self)@.total_coalesced == old(self)@.total_coalesced,
            final(self)@.total_dropped == old(self)@.total_dropped,
    {
        self.processes.remove(pid);
        proof {
            assert(self@.procs =~= old(self)@.procs.remove(pid));
        }
        Self::retain_all(&mut self.process_groups, pid);
        Self::retain_all(&mut self.container_pids, pid);
    }

    /// Removes `pid` from every member list of `m`.
    fn retain_all(m: &mut IdMap<Vec<u32>>, pid: u32)
        requires
            old(m).wf(),
        ensures
            final(m).wf(),
            final(m)@.map_values(|v: Vec<u32>| v@) == old(m)@.map_values(|v: Vec<u32>| v@).map_values(
                |s: Seq<u32>| without_pid(s, pid),
            ),
    {
        let n = m.len();
        let mut i: usize = 0;
        proof {
            old(m).lemma_wf();
        }
        while i < n
            invariant
                m.wf(),
                i <= n,
                n == m.key_seq().len(),
                m.key_seq() == old(m).key_seq(),
                m.value_seq().len() == n,
                old(m).value_seq().len() == n,
                forall|j: int|
                    0 <= j < n ==> (#[trigger] m.value_seq()[j])@ == if j < i {
                        without_pid(old(m).value_seq()[j]@, pid)
                    } else {
                        old(m).value_seq()[j]@
                    },
            decreases n - i,
        {
            proof {
                m.lemma_wf();
            }
            let v = m.value_at_mut(i);
            retain_not(v, pid);
            i = i + 1;
        }
        proof {
            m.lemma_wf();
            old(m).lemma_wf();
            let a = m@.map_values(|v: Vec<u32>| v@);
            let b = old(m)@.map_values(|v: Vec<u32>| v@).map_values(|s: Seq<u32>| without_pid(s, pid));
            assert forall|k: u32| a.contains_key(k) <==> b.contains_key(k) by {}
            assert forall|k: u32| #[trigger] a.contains_key(k) implies a[k] == b[k] by {
                assert(m.key_seq().to_set().contains(k));
                let j = m.key_seq().index_of(k);
                assert(m.key_seq()[j] == k);
                assert(m@[m.key_seq()[j]] == m.value_seq()[j]);
                assert(old(m)@[old(m).key_seq()[j]] == old(m).value_seq()[j]);
            }
            assert(a =~= b);
        }
    }

    pub fn is_registered(&self, pid: u32) -> (r: bool)
        requires
            self.wf(),
        ensures
            r == self@.procs.contains_key(pid),
    {
        self.processes.contains_key(pid)
    }
}

} // verus!

verus! {

/// The member list of `key` after appending `pid`.
pub open spec fn appended(m: Map<u32, Seq<u32>>, key: u32, pid: u32) -> Map<u32, Seq<u32>> {
    m.insert(key, if m.contains_key(key) { m[key] } else { Seq::<u32>::empty() }.push(pid))
}

/// Appends `pid` to the list of `key`, creating the list if needed.
fn push_member(m: &mut IdMap<Vec<u32>>, key: u32, pid: u32)
    requires
        old(m).wf(),
    ensures
        final(m).wf(),
        final(m)@.map_values(|v: Vec<u32>| v@) == appended(
            old(m)@.map_values(|v: Vec<u32>| v@),
            key,
            pid,
        ),
{
    let ghost om = old(m)@.map_values(|v: Vec<u32>| v@);
    match m.get_mut(key) {
        Some(v) => {
            v.push(pid);
        },
        None => {
            let mut v: Vec<u32> = Vec::new();
            v.push(pid);
            m.insert(key, v);
        },
    }
    assert(m@.map_values(|v: Vec<u32>| v@) =~= appended(om, key, pid));
}

/// Removes `pid` from the list of `key`, if there is one.
fn remove_member(m: &mut IdMap<Vec<u32>>, key: u32, pid: u32) -> (r: bool)
    requires
        old(m).wf(),
    ensures
        final(m).wf(),
        ({
            let om = old(m)@.map_values(|v: Vec<u32>| v@);
            if om.contains_key(key) {
                &&& final(m)@.map_values(|v: Vec<u32>| v@) == om.insert(key, without_pid(om[key], pid))
                &&& r == (without_pid(om[key], pid).len() < om[key].len())
            } else {
                final(m)@.map_values(|v: Vec<u32>| v@) == om && !r
            }
        }),
{
    let ghost om = old(m)@.map_values(|v: Vec<u32>| v@);
    match m.get_mut(key) {
        Some(v) => {
            let before = v.len();
            let ghost vs = v@;
            retain_not(v, pid);
            proof {
                vs.lemma_filter_len(not_pid(pid));
            }
            let r = v.len() < before;
            assert(m@.map_values(|v: Vec<u32>| v@) =~= om.insert(key, without_pid(om[key], pid)));
            r
        },
        None => {
            assert(m@.map_values(|v: Vec<u32>| v@) =~= om);
            false
        },
    }
}

impl AdvancedSignalManager {
    // ── Process Group Management ────────────────────────────

    pub fn create_process_group(&mut self, pgid: u32, leader_pid: u32)
        requires
            old(self).wf(),
        ensures
            final(self).wf(),
            final(self)@ == (SigMgr { groups: old(self)@.groups.insert(pgid, seq![leader_pid]), ..old(self)@ }),
    {
        let mut v: Vec<u32> = Vec::new();
        v.push(leader_pid);
        self.process_groups.insert(pgid, v);
        assert(self@.groups =~= old(self)@.groups.insert(pgid, seq![leader_pid]));
    }

    pub fn add_to_group(&mut self, pgid: u32, pid: u32)
        requires
            old(self).wf(),
        ensures
            final(self).wf(),
            final(self)@ == (SigMgr { groups: appended(old(self)@.groups, pgid, pid), ..old(self)@ }),
    {
        push_member(&mut self.process_groups, pgid, pid);
    }

    pub fn remove_from_group(&mut self, pgid: u32, pid: u32) -> (r: bool)
        requires
            old(self).wf(),
        ensures
            final(self).wf(),
            old(self)@.groups.contains_key(pgid) ==> final(self)@ == (SigMgr {
                groups: old(self)@.groups.insert(pgid, without_pid(old(self)@.groups[pgid], pid)),
                ..old(self)@
            }) && r == (without_pid(old(self)@.groups[pgid], pid).len() < old(self)@.groups[pgid].len()),
            !old(self)@.groups.contains_key(pgid) ==> final(self)@ == old(self)@ && !r,
    {
        remove_member(&mut self.process_groups, pgid, pid)
    }

    pub fn get_group_members(&self, pgid: u32) -> (r: Option<&Vec<u32>>)
        requires
            self.wf(),
        ensures
            match r {
                Some(v) => self@.groups.contains_key(pgid) && v@ == self@.groups[pgid],
                None => !self@.groups.contains_key(pgid),
            },
    {
        self.process_groups.get(pgid)
    }

    pub fn group_count(&self) -> (r: usize)
        requires
            self.wf(),
        ensures
            r == self@.groups.dom().len(),
    {
        proof {
            self.process_groups.lemma_wf();
            assert(self@.groups.dom() =~= self.process_groups@.dom());
        }
        self.process_groups.len()
    }

    // ── Container Registration ──────────────────────────────

    pub fn register_container_pid(&mut self, container_id: u32, pid: u32)
        requires
            old(self).wf(),
        ensures
            final(self).wf(),
            final(self)@ == (SigMgr {
                containers: appended(old(self)@.containers, container_id, pid),
                ..old(self)@
            }),
    {
        push_member(&mut self.container_pids, container_id, pid);
    }

    pub fn unregister_container_pid(&mut self, container_id: u32, pid: u32)
        requires
            old(self).wf(),
        ensures
            final(self).wf(),
            old(self)@.containers.contains_key(container_id) ==> final(self)@ == (SigMgr {
                containers: old(self)@.containers.insert(
                    container_id,
                    without_pid(old(self)@.containers[container_id], pid),
                ),
                ..old(self)@
            }),
            !old(self)@.containers.contains_key(container_id) ==> final(self)@ == old(self)@,
    {
        remove_member(&mut self.container_pids, container_id, pid);
    }

    pub fn get_container_pids(&self, container_id: u32) -> (r: Option<&Vec<u32>>)
        requires
            self.wf(),
        ensures
            match r {
                Some(v) => self@.containers.contains_key(container_id) && v@ == self@.containers[container_id],
                None => !self@.containers.contains_key(container_id),
            },
    {
        self.container_pids.get(container_id)
    }
}

} // verus!

verus! {

proof fn lemma_map_values_insert<V>(m: Map<u32, V>, k: u32, v: V, f: spec_fn(V) -> SigProc)
    ensures
        m.insert(k, v).map_values(f) == m.map_values(f).insert(k, f(v)),
{
    assert(m.insert(k, v).map_values(f) =~= m.map_values(f).insert(k, f(v)));
}

/// Sending keeps groups, containers and the set of processes.
pub proof fn lemma_send_step_frame(v: SigMgr, pid: u32, sig: FullSignal, info: SignalInfo)
    ensures
        send_step(v, pid, sig, info).0.groups == v.groups,
        send_step(v, pid, sig, info).0.containers == v.containers,
        send_step(v, pid, sig, info).0.procs.dom() == v.procs.dom(),
{
    let w = send_step(v, pid, sig, info).0;
    if v.procs.contains_key(pid) {
        assert(w.procs.dom() =~= v.procs.dom());
    }
}

impl AdvancedSignalManager {
    /// Records an audit entry while the log has room.
    fn audit(&mut self, entry: SignalAuditEntry)
        requires
            old(self).wf(),
        ensures
            final(self).wf(),
            final(self)@ == old(self)@.audited(entry),
            final(self).pid_order() == old(self).pid_order(),
    {
        if self.audit_log.len() < MAX_AUDIT_ENTRIES {
            self.audit_log.push(entry);
        }
    }

    // ── Signal Sending ────────────────────────────────────────

    pub fn send_to_process(&mut self, pid: u32, sig: FullSignal, info: SignalInfo) -> (r: SignalSendResult)
        requires
            old(self).wf(),
        ensures
            final(self).wf(),
            (final(self)@, r) == send_step(old(self)@, pid, sig, info),
            final(self).pid_order() == old(self).pid_order(),
            (r == SignalSendResult::Coalesced) == (old(self)@.procs.contains_key(pid) && sig_num(sig) <= 31
                && pending_has(old(self)@.procs[pid].pending, sig)),
            r == SignalSendResult::Coalesced ==> final(self)@.procs[pid].pending == old(self)@.procs[pid].pending,
    {
        let ghost info0 = info;
        proof {
            lemma_send_consistent(old(self)@, pid, sig, info);
        }
        self.total_sent = self.total_sent.wrapping_add(1);
        let mut info = info;
        info.signo = sig.number();
        if info.sender_pid.is_none() {
            info.sender_pid = Some(0);
        }
        let ghost v = old(self)@;
        let ghost v1 = SigMgr { total_sent: wrap_inc(v.total_sent), ..v };
        assert(self@ == v1);
        let standard = sig.is_standard();
        let outcome: u8;
        match self.processes.get_mut(pid) {
            None => {
                outcome = 0;
            },
            Some(state) => {
                proof {
                    assert(v.procs.contains_key(pid));
                    assert(v.procs[pid] == state.view());
                }
                state.signals_received = state.signals_received.wrapping_add(1);
                if standard && state.has_pending_standard(sig) {
                    state.signals_coalesced = state.signals_coalesced.wrapping_add(1);
                    outcome = 1;
                } else {
                    if standard {
                        state.mark_pending_standard(sig);
                    }
                    if state.is_full() {
                        state.signals_dropped = state.signals_dropped.wrapping_add(1);
                        if standard {
                            state.clear_pending_standard(sig);
                        }
                        outcome = 2;
                    } else {
                        state.pending.push(PendingEntry { signal: sig, info });
                        outcome = 3;
                    }
                }
            },
        }
        proof {
            if v.procs.contains_key(pid) {
                lemma_map_values_insert(
                    old(self).processes@,
                    pid,
                    self.processes@[pid],
                    |s: ProcessSignalState| s.view(),
                );
                assert(self.processes@ == old(self).processes@.insert(pid, self.processes@[pid]));
            }
            lemma_send_consistent(v, pid, sig, info0);
            assert(self@.procs =~= send_step(v, pid, sig, info0).0.procs);
        }
        if outcome == 0 {
            self.audit(SignalAuditEntry {
                timestamp: 0,
                sender_pid: info.sender_pid,
                target_pid: pid,
                signal: sig,
                code: info.code,
                target_type: SignalTargetType::Process,
                result: SignalSendResult::NoTarget,
            });
            SignalSendResult::NoTarget
        } else if outcome == 1 {
            self.total_coalesced = self.total_coalesced.wrapping_add(1);
            self.audit(SignalAuditEntry {
                timestamp: 0,
                sender_pid: info.sender_pid,
                target_pid: pid,
                signal: sig,
                code: info.code,
                target_type: SignalTargetType::Process,
                result: SignalSendResult::Coalesced,
            });
            SignalSendResult::Coalesced
        } else if outcome == 2 {
            self.total_dropped = self.total_dropped.wrapping_add(1);
            SignalSendResult::NoTarget
        } else {
            self.audit(SignalAuditEntry {
                timestamp: 0,
                sender_pid: info.sender_pid,
                target_pid: pid,
                signal: sig,
                code: info.code,
                target_type: SignalTargetType::Process,
                result: SignalSendResult::Queued,
            });
            SignalSendResult::Queued
        }
    }
}

} // verus!

verus! {

/// Copies a list of pids.
fn copy_pids(v: &Vec<u32>) -> (r: Vec<u32>)
    ensures
        r@ == v@,
{
    let mut out: Vec<u32> = Vec::new();
    let mut i: usize = 0;
    while i < v.len()
        invariant
            i <= v@.len(),
            out@ == v@.take(i as int),
        decreases v@.len() - i,
    {
        proof {
            crate::seqs::lemma_take_succ(v@, i as int);
        }
        out.push(v[i]);
        i = i + 1;
    }
    proof {
        crate::seqs::lemma_take_full(v@);
    }
    out
}

/// The processes a broadcast reaches: every registered pid but the sender's.
pub open spec fn bcast_targets(order: Seq<u32>, sender: Option<u32>) -> Seq<u32> {
    order.filter(|p: u32| sender != Some(p))
}

proof fn lemma_send_all_step(v: SigMgr, pids: Seq<u32>, i: int, sig: FullSignal, info: SignalInfo)
    requires
        0 <= i < pids.len(),
    ensures
        send_all(v, pids.take(i + 1), sig, info) == ({
            let (v1, rs) = send_all(v, pids.take(i), sig, info);
            let (v2, r) = send_step(v1, pids[i], sig, info);
            (v2, rs.push((pids[i], r)))
        }),
{
    crate::seqs::lemma_take_succ(pids, i);
    assert(pids.take(i + 1).drop_last() =~= pids.take(i));
}

impl AdvancedSignalManager {
    /// Registered pids are listed once each, in ascending order.
    pub proof fn lemma_pid_order(&self)
        requires
            self.wf(),
        ensures
            crate::idmap::sorted_keys(self.pid_order()),
            self.pid_order().to_set() == self@.procs.dom(),
            self.pid_order().no_duplicates(),
    {
        self.processes.lemma_wf();
        assert(self@.procs.dom() =~= self.processes@.dom());
    }

    /// Sends to each pid of `pids` in turn.
    fn send_each(&mut self, pids: &Vec<u32>, sig: FullSignal, code: SignalCode, sender: Option<u32>) -> (r: Vec<(u32, SignalSendResult)>)
        requires
            old(self).wf(),
        ensures
            final(self).wf(),
            (final(self)@, r@) == send_all(old(self)@, pids@, sig, bulk_info(sig, code, sender)),
            final(self).pid_order() == old(self).pid_order(),
    {
        let mut results: Vec<(u32, SignalSendResult)> = Vec::new();
        let mut i: usize = 0;
        let ghost info = bulk_info(sig, code, sender);
        while i < pids.len()
            invariant
                self.wf(),
                i <= pids@.len(),
                (self@, results@) == send_all(old(self)@, pids@.take(i as int), sig, info),
                self.pid_order() == old(self).pid_order(),
                info == bulk_info(sig, code, sender),
            decreases pids@.len() - i,
        {
            proof {
                lemma_send_all_step(old(self)@, pids@, i as int, sig, info);
                lemma_send_step_frame(self@, pids@[i as int], sig, info);
            }
            let pid = pids[i];
            let info_x = SignalInfo {
                signo: sig.number(),
                code,
                sender_pid: sender,
                sender_uid: None,
                value: 0,
                status: 0,
                addr: 0,
                timestamp: 0,
            };
            let result = self.send_to_process(pid, sig, info_x);
            results.push((pid, result));
            i = i + 1;
        }
        proof {
            crate::seqs::lemma_take_full(pids@);
        }
        results
    }

    pub fn send_to_group(&mut self, pgid: u32, sig: FullSignal, sender: Option<u32>) -> (r: Vec<(u32, SignalSendResult)>)
        requires
            old(self).wf(),
        ensures
            final(self).wf(),
            !old(self)@.groups.contains_key(pgid) ==> r@.len() == 0 && final(self)@ == old(self)@,
            old(self)@.groups.contains_key(pgid) ==> (final(self)@, r@) == send_all(
                old(self)@,
                old(self)@.groups[pgid],
                sig,
                bulk_info(sig, SignalCode::User, sender),
            ),
    {
        let members = match self.process_groups.get(pgid) {
            Some(m) => copy_pids(m),
            None => return Vec::new(),
        };
        self.send_each(&members, sig, SignalCode::User, sender)
    }

    pub fn send_to_container(&mut self, container_id: u32, sig: FullSignal, sender: Option<u32>) -> (r: Vec<(u32, SignalSendResult)>)
        requires
            old(self).wf(),
        ensures
            final(self).wf(),
            !old(self)@.containers.contains_key(container_id) ==> r@.len() == 0 && final(self)@
                == old(self)@,
            old(self)@.containers.contains_key(container_id) ==> (final(self)@, r@) == send_all(
                old(self)@,
                old(self)@.containers[container_id],
                sig,
                bulk_info(sig, SignalCode::User, sender),
            ),
    {
        let pids = match self.container_pids.get(container_id) {
            Some(p) => copy_pids(p),
            None => return Vec::new(),
        };
        self.send_each(&pids, sig, SignalCode::User, sender)
    }

    /// Sends `sig` from the kernel to every registered process except the sender, in
    /// ascending pid order.
    pub fn broadcast(&mut self, sig: FullSignal, sender: Option<u32>) -> (r: Vec<(u32, SignalSendResult)>)
        requires
            old(self).wf(),
        ensures
            final(self).wf(),
            (final(self)@, r@) == send_all(
                old(self)@,
                bcast_targets(old(self).pid_order(), sender),
                sig,
                bulk_info(sig, SignalCode::Kernel, sender),
            ),
    {
        let all = self.processes.keys();
        let mut pids: Vec<u32> = Vec::new();
        let mut i: usize = 0;
        while i < all.len()
            invariant
                i <= all@.len(),
                all@ == self.pid_order(),
                pids@ == all@.take(i as int).filter(|p: u32| sender != Some(p)),
            decreases all@.len() - i,
        {
            proof {
                crate::seqs::lemma_filter_take_succ(all@, i as int, |p: u32| sender != Some(p));
            }
            let p = all[i];
            let skip = match sender {
                Some(s) => s == p,
                None => false,
            };
            if !skip {
                pids.push(p);
            }
            i = i + 1;
        }
        proof {
            crate::seqs::lemma_take_full(all@);
            self.lemma_pid_order();
            all@.lemma_filter_len(|p: u32| sender != Some(p));
            self.processes.lemma_wf();
            assert(self@.procs.dom() =~= self.processes@.dom());
        }
        self.send_each(&pids, sig, SignalCode::Kernel, sender)
    }
}

} // verus!

verus! {

/// Priorities are at most 19.
proof fn lemma_priority_bound(s: FullSignal)
    ensures
        sig_priority(s) <= 19,
{
}

/// Resolves a delivered signal against its disposition.
fn resolve(sig: FullSignal, disp: SignalDisposition, alt: &Option<AltStack>) -> (r: SignalResolution)
    ensures
        r == resolve_spec(sig, disp, *alt),
{
    match disp {
        SignalDisposition::Default => match sig.default_action() {
            SignalAction::Terminate => SignalResolution::Terminate(0),
            SignalAction::TerminateCore => SignalResolution::Terminate(1),
            SignalAction::Stop => SignalResolution::Stop,
            SignalAction::Continue => SignalResolution::Continue,
            SignalAction::Ignore => SignalResolution::Ignore,
        },
        SignalDisposition::Ignore => SignalResolution::Ignore,
        SignalDisposition::Catch { handler_addr, flags, mask } => {
            let use_altstack = flags.onstack && match alt {
                Some(s) => s.is_valid(),
                None => false,
            };
            SignalResolution::CallHandler { addr: handler_addr, use_altstack, flags }
        },
    }
}

/// The delivery rank of `sig` for a process (see `delivery_rank`).
fn rank_of(state: &ProcessSignalState, sig: FullSignal) -> (r: u8)
    ensures
        r == delivery_rank(state.view(), sig),
{
    let priority = sig.delivery_priority();
    proof {
        lemma_priority_bound(sig);
        lemma_sig_num(sig);
    }
    if sig.is_unblockable() {
        priority
    } else {
        match state.get_disposition(sig) {
            SignalDisposition::Catch { .. } => 32 + priority,
            _ => 64 + priority,
        }
    }
}

/// The position of the next signal to deliver, if any.
fn best_index(state: &ProcessSignalState) -> (r: Option<usize>)
    ensures
        match r {
            Some(b) => best_pending(state.view(), b as int),
            None => !has_deliverable(state.view()),
        },
{
    let ghost p = state.view();
    let mut best_idx: Option<usize> = None;
    let mut best_rank: u8 = 255;
    let mut i: usize = 0;
    while i < state.pending.len()
        invariant
            p == state.view(),
            i <= p.pending.len(),
            best_idx is None ==> best_rank == 255 && forall|j: int| 0 <= j < i ==> !deliverable(p, j),
            best_idx matches Some(b) ==> {
                &&& b < i
                &&& deliverable(p, b as int)
                &&& best_rank == delivery_rank(p, p.pending[b as int].signal)
                &&& forall|j: int|
                    0 <= j < b && deliverable(p, j) ==> delivery_rank(p, p.pending[j].signal) > best_rank
                &&& forall|j: int|
                    b < j < i && deliverable(p, j) ==> delivery_rank(p, p.pending[j].signal) >= best_rank
            },
        decreases p.pending.len() - i,
    {
        let sig = state.pending[i].signal;
        let skip = !sig.is_unblockable() && state.blocked_mask.contains(sig);
        if !skip {
            let rank = rank_of(state, sig);
            if rank < best_rank {
                best_rank = rank;
                best_idx = Some(i);
            }
        }
        i = i + 1;
    }
    best_idx
}

impl AdvancedSignalManager {
    // ── Signal Delivery ───────────────────────────────────────

    /// Delivers the first unblocked pending signal of `pid` in delivery order
    /// (see `delivery_rank`).
    pub fn deliver(&mut self, pid: u32) -> (r: Option<(FullSignal, SignalInfo, SignalResolution)>)
        requires
            old(self).wf(),
        ensures
            final(self).wf(),
            final(self).pid_order() == old(self).pid_order(),
            !old(self)@.procs.contains_key(pid) ==> r is None && final(self)@ == old(self)@,
            old(self)@.procs.contains_key(pid) ==> {
                let p = old(self)@.procs[pid];
                &&& !has_deliverable(p) ==> r is None && final(self)@ == old(self)@
                &&& has_deliverable(p) ==> r is Some
                &&& forall|i: int|
                    best_pending(p, i) ==> {
                        let e = p.pending[i];
                        let res = resolve_spec(e.signal, p.dispositions[disp_slot(e.signal)], p.altstack);
                        &&& r == Some((e.signal, e.info, res))
                        &&& final(self)@ == (SigMgr {
                            procs: old(self)@.procs.insert(pid, delivered_proc(p, i, res)),
                            total_delivered: wrap_inc(old(self)@.total_delivered),
                            ..old(self)@
                        })
                    }
            },
    {
        let ghost v = old(self)@;
        let out;
        match self.processes.get_mut(pid) {
            None => {
                return None;
            },
            Some(state) => {
                let ghost p = state.view();
                assert(p == v.procs[pid]);
                assert(v.procs.contains_key(pid));
                match best_index(state) {
                    None => {
                        proof {
                            assert(self.processes@ == old(self).processes@.insert(pid, *state)) by {
                                assert(old(self).processes@.insert(pid, *state) =~= old(self).processes@);
                            }
                        }
                        return None;
                    },
                    Some(b) => {
                        let entry = state.pending.remove(b);
                        let sig = entry.signal;
                        if sig.is_standard() {
                            state.clear_pending_standard(sig);
                        }
                        let disp = state.get_disposition(sig);
                        let res = resolve(sig, disp, &state.altstack);
                        state.signals_delivered = state.signals_delivered.wrapping_add(1);
                        if let SignalResolution::CallHandler { .. } = res {
                            state.in_handler = true;
                            state.saved_mask = state.blocked_mask;
                            state.blocked_mask.add(sig);
                        }
                        proof {
                            assert(state.view() == delivered_proc(p, b as int, res));
                            assert(pending_consistent(p.pending, p.standard_pending));
                            lemma_deliver_consistent(p, b as int, res);
                            assert(pending_consistent(state.view().pending, state.view().standard_pending));
                            assert forall|i: int| best_pending(p, i) implies i == b by {
                                if i < b {
                                    assert(sig_priority(p.pending[i].signal) >= sig_priority(p.pending[b as int].signal));
                                } else if b < i {
                                    assert(sig_priority(p.pending[b as int].signal) > sig_priority(p.pending[i].signal));
                                }
                            }
                        }
                        out = Some((sig, entry.info, res));
                    },
                }
            },
        }
        proof {
            lemma_map_values_insert(
                old(self).processes@,
                pid,
                self.processes@[pid],
                |s: ProcessSignalState| s.view(),
            );
            assert(self.processes@ == old(self).processes@.insert(pid, self.processes@[pid]));
            lemma_consistent_insert(v, pid, self.processes@[pid].view());
            assert(self@.procs =~= v.procs.insert(pid, self.processes@[pid].view()));
        }
        self.total_delivered = self.total_delivered.wrapping_add(1);
        out
    }
}

} // verus!

verus! {

/// After updating one process's state, the abstract process map changes at that pid only.
proof fn lemma_proc_updated(
    old_m: Map<u32, ProcessSignalState>,
    new_m: Map<u32, ProcessSignalState>,
    pid: u32,
    s: ProcessSignalState,
)
    requires
        new_m == old_m.insert(pid, s),
    ensures
        new_m.map_values(|s: ProcessSignalState| s.view()) == old_m.map_values(
            |s: ProcessSignalState| s.view(),
        ).insert(pid, s.view()),
{
    lemma_map_values_insert(old_m, pid, s, |s: ProcessSignalState| s.view());
}

impl AdvancedSignalManager {
    /// Leaves a handler, restoring the mask saved on entry.
    pub fn return_from_handler(&mut self, pid: u32) -> (r: bool)
        requires
            old(self).wf(),
        ensures
            final(self).wf(),
            final(self).pid_order() == old(self).pid_order(),
            !old(self)@.procs.contains_key(pid) ==> !r && final(self)@ == old(self)@,
            old(self)@.procs.contains_key(pid) ==> {
                let p = old(self)@.procs[pid];
                &&& r == p.in_handler
                &&& final(self)@ == (SigMgr {
                    procs: old(self)@.procs.insert(
                        pid,
                        if r { SigProc { in_handler: false, blocked: p.saved, ..p } } else { p },
                    ),
                    ..old(self)@
                })
            },
    {
        match self.processes.get_mut(pid) {
            None => false,
            Some(state) => {
                let r = if !state.in_handler {
                    false
                } else {
                    state.in_handler = false;
                    state.blocked_mask = state.saved_mask;
                    true
                };
                proof {
                    lemma_proc_updated(old(self).processes@, self.processes@, pid, *state);
                    assert(old(self)@.procs.insert(pid, old(self)@.procs[pid]) =~= old(self)@.procs);
                }
                r
            },
        }
    }

    pub fn has_pending(&self, pid: u32) -> (r: bool)
        requires
            self.wf(),
        ensures
            r == (self@.procs.contains_key(pid) && self@.procs[pid].pending.len() > 0),
    {
        match self.processes.get(pid) {
            Some(s) => s.pending.len() > 0,
            None => false,
        }
    }

    pub fn pending_count(&self, pid: u32) -> (r: usize)
        requires
            self.wf(),
        ensures
            r == if self@.procs.contains_key(pid) { self@.procs[pid].pending.len() } else { 0 },
    {
        match self.processes.get(pid) {
            Some(s) => s.pending.len(),
            None => 0,
        }
    }

    // ── Handler Management ──────────────────────────────────

    pub fn set_handler(&mut self, pid: u32, sig: FullSignal, disp: SignalDisposition) -> (r: bool)
        requires
            old(self).wf(),
        ensures
            final(self).wf(),
            final(self).pid_order() == old(self).pid_order(),
            !old(self)@.procs.contains_key(pid) ==> !r && final(self)@ == old(self)@,
            old(self)@.procs.contains_key(pid) ==> {
                let p = old(self)@.procs[pid];
                &&& r == !(sig is Sigkill || sig is Sigstop)
                &&& final(self)@ == (SigMgr {
                    procs: old(self)@.procs.insert(
                        pid,
                        if r {
                            SigProc { dispositions: p.dispositions.update(disp_slot(sig), disp), ..p }
                        } else {
                            p
                        },
                    ),
                    ..old(self)@
                })
            },
    {
        match self.processes.get_mut(pid) {
            None => false,
            Some(state) => {
                let r = state.set_disposition(sig, disp);
                proof {
                    lemma_proc_updated(old(self).processes@, self.processes@, pid, *state);
                    assert(old(self)@.procs.insert(pid, old(self)@.procs[pid]) =~= old(self)@.procs);
                }
                r
            },
        }
    }

    pub fn get_handler(&self, pid: u32, sig: FullSignal) -> (r: Option<SignalDisposition>)
        requires
            self.wf(),
        ensures
            r == if self@.procs.contains_key(pid) {
                Some(self@.procs[pid].dispositions[disp_slot(sig)])
            } else {
                None
            },
    {
        match self.processes.get(pid) {
            Some(s) => Some(s.get_disposition(sig)),
            None => None,
        }
    }

    // ── Mask Management ─────────────────────────────────────

    pub fn block(&mut self, pid: u32, sig: FullSignal) -> (r: bool)
        requires
            old(self).wf(),
        ensures
            final(self).wf(),
            final(self).pid_order() == old(self).pid_order(),
            r == old(self)@.procs.contains_key(pid),
            !r ==> final(self)@ == old(self)@,
            r ==> {
                let p = old(self)@.procs[pid];
                final(self)@ == (SigMgr {
                    procs: old(self)@.procs.insert(
                        pid,
                        if sig is Sigkill || sig is Sigstop {
                            p
                        } else {
                            SigProc { blocked: p.blocked | sig_bit(sig), ..p }
                        },
                    ),
                    ..old(self)@
                })
            },
    {
        match self.processes.get_mut(pid) {
            None => false,
            Some(state) => {
                state.block_signal(sig);
                proof {
                    lemma_proc_updated(old(self).processes@, self.processes@, pid, *state);
                    assert(old(self)@.procs.insert(pid, old(self)@.procs[pid]) =~= old(self)@.procs);
                }
                true
            },
        }
    }

    pub fn unblock(&mut self, pid: u32, sig: FullSignal) -> (r: bool)
        requires
            old(self).wf(),
        ensures
            final(self).wf(),
            final(self).pid_order() == old(self).pid_order(),
            r == old(self)@.procs.contains_key(pid),
            !r ==> final(self)@ == old(self)@,
            r ==> {
                let p = old(self)@.procs[pid];
                final(self)@ == (SigMgr {
                    procs: old(self)@.procs.insert(pid, SigProc { blocked: p.blocked & !sig_bit(sig), ..p }),
                    ..old(self)@
                })
            },
    {
        match self.processes.get_mut(pid) {
            None => false,
            Some(state) => {
                state.unblock_signal(sig);
                proof {
                    lemma_proc_updated(old(self).processes@, self.processes@, pid, *state);
                }
                true
            },
        }
    }

    pub fn set_mask(&mut self, pid: u32, mask: SignalMask) -> (r: bool)
        requires
            old(self).wf(),
        ensures
            final(self).wf(),
            final(self).pid_order() == old(self).pid_order(),
            r == old(self)@.procs.contains_key(pid),
            !r ==> final(self)@ == old(self)@,
            r ==> final(self)@ == (SigMgr {
                procs: old(self)@.procs.insert(pid, SigProc { blocked: mask@, ..old(self)@.procs[pid] }),
                ..old(self)@
            }),
    {
        match self.processes.get_mut(pid) {
            None => false,
            Some(state) => {
                state.blocked_mask = mask;
                proof {
                    lemma_proc_updated(old(self).processes@, self.processes@, pid, *state);
                    lemma_queue_kept(old(self)@, self@, pid);
                }
                true
            },
        }
    }

    pub fn get_mask(&self, pid: u32) -> (r: Option<SignalMask>)
        requires
            self.wf(),
        ensures
            match r {
                Some(m) => self@.procs.contains_key(pid) && m@ == self@.procs[pid].blocked,
                None => !self@.procs.contains_key(pid),
            },
    {
        match self.processes.get(pid) {
            Some(s) => Some(s.blocked_mask),
            None => None,
        }
    }

    pub fn is_blocked(&self, pid: u32, sig: FullSignal) -> (r: bool)
        requires
            self.wf(),
        ensures
            r == (self@.procs.contains_key(pid) && proc_blocks(self@.procs[pid], sig)),
    {
        match self.processes.get(pid) {
            Some(s) => s.is_blocked(sig),
            None => false,
        }
    }

    // ── AltStack Management ─────────────────────────────────

    pub fn set_altstack(&mut self, pid: u32, base: u64, size: u64) -> (r: bool)
        requires
            old(self).wf(),
        ensures
            final(self).wf(),
            final(self).pid_order() == old(self).pid_order(),
            r == (old(self)@.procs.contains_key(pid) && altstack_size_ok(size)),
            !r ==> final(self)@ == old(self)@,
            r ==> final(self)@ == (SigMgr {
                procs: old(self)@.procs.insert(
                    pid,
                    SigProc {
                        altstack: Some(
                            AltStack {
                                base_addr: base,
                                size: size,
                                flags: AltStackFlags { onstack: false, disabled: false },
                            },
                        ),
                        ..old(self)@.procs[pid]
                    },
                ),
                ..old(self)@
            }),
    {
        match self.processes.get_mut(pid) {
            None => false,
            Some(state) => {
                let r = match AltStack::new(base, size) {
                    Some(stack) => {
                        state.set_altstack(stack);
                        true
                    },
                    None => false,
                };
                proof {
                    lemma_proc_updated(old(self).processes@, self.processes@, pid, *state);
                    assert(old(self)@.procs.insert(pid, old(self)@.procs[pid]) =~= old(self)@.procs);
                }
                r
            },
        }
    }

    pub fn get_altstack(&self, pid: u32) -> (r: Option<&AltStack>)
        requires
            self.wf(),
        ensures
            match r {
                Some(a) => self@.procs.contains_key(pid) && self@.procs[pid].altstack == Some(*a),
                None => !self@.procs.contains_key(pid) || self@.procs[pid].altstack is None,
            },
    {
        match self.processes.get(pid) {
            Some(s) => s.altstack.as_ref(),
            None => None,
        }
    }
}

} // verus!

verus! {

/// The signal of a timer, as a one-element sequence when it fired.
pub open spec fn fired_sig(t: IntervalTimer, fired: bool) -> Seq<FullSignal> {
    if fired {
        seq![t.timer_type.signal_spec()]
    } else {
        Seq::empty()
    }
}

/// Ticks one timer in place; returns whether it fired.
fn tick_slot(state: &mut ProcessSignalState, slot: usize, elapsed: u64) -> (fired: bool)
    requires
        slot < 3,
        old(state).timers@[slot as int].tick_ok(),
    ensures
        (final(state).timers@[slot as int], fired) == old(state).timers@[slot as int].ticked(elapsed),
        final(state).timers@ == old(state).timers@.update(slot as int, final(state).timers@[slot as int]),
        *final(state) == (ProcessSignalState { timers: final(state).timers, ..*old(state) }),
{
    let mut t = state.timers[slot];
    let fired = t.tick(elapsed);
    state.timers[slot] = t;
    fired
}

impl AdvancedSignalManager {
    // ── Timer Management ────────────────────────────────────

    pub fn set_timer(&mut self, pid: u32, timer_type: TimerType, initial: TimeVal, interval: TimeVal) -> (r: bool)
        requires
            old(self).wf(),
        ensures
            final(self).wf(),
            final(self).pid_order() == old(self).pid_order(),
            r == old(self)@.procs.contains_key(pid),
            !r ==> final(self)@ == old(self)@,
            r ==> {
                let p = old(self)@.procs[pid];
                let t = p.timers[timer_type.slot()];
                final(self)@ == (SigMgr {
                    procs: old(self)@.procs.insert(
                        pid,
                        SigProc {
                            timers: p.timers.update(
                                timer_type.slot(),
                                IntervalTimer {
                                    timer_type: t.timer_type,
                                    initial: initial,
                                    interval: interval,
                                    remaining: initial,
                                    overrun: 0,
                                    active: !tv_zero(initial),
                                },
                            ),
                            ..p
                        },
                    ),
                    ..old(self)@
                })
            },
    {
        match self.processes.get_mut(pid) {
            None => false,
            Some(state) => {
                let timer = state.get_timer_mut(timer_type);
                timer.set(initial, interval);
                proof {
                    lemma_proc_updated(old(self).processes@, self.processes@, pid, *state);
                    lemma_queue_kept(old(self)@, self@, pid);
                }
                true
            },
        }
    }

    pub fn cancel_timer(&mut self, pid: u32, timer_type: TimerType) -> (r: bool)
        requires
            old(self).wf(),
        ensures
            final(self).wf(),
            final(self).pid_order() == old(self).pid_order(),
            r == old(self)@.procs.contains_key(pid),
            !r ==> final(self)@ == old(self)@,
            r ==> {
                let p = old(self)@.procs[pid];
                let t = p.timers[timer_type.slot()];
                final(self)@ == (SigMgr {
                    procs: old(self)@.procs.insert(
                        pid,
                        SigProc {
                            timers: p.timers.update(
                                timer_type.slot(),
                                IntervalTimer {
                                    active: false,
                                    remaining: TimeVal { seconds: 0, microseconds: 0 },
                                    ..t
                                },
                            ),
                            ..p
                        },
                    ),
                    ..old(self)@
                })
            },
    {
        match self.processes.get_mut(pid) {
            None => false,
            Some(state) => {
                let timer = state.get_timer_mut(timer_type);
                timer.cancel();
                proof {
                    lemma_proc_updated(old(self).processes@, self.processes@, pid, *state);
                    lemma_queue_kept(old(self)@, self@, pid);
                }
                true
            },
        }
    }

    /// Advances the real, virtual and profiling timers; returns the signals of those that
    /// fired, in that order.
    pub fn tick_timers(&mut self, pid: u32, elapsed_real_us: u64, elapsed_virt_us: u64, elapsed_prof_us: u64) -> (r: Vec<FullSignal>)
        requires
            old(self).wf(),
            old(self)@.procs.contains_key(pid) ==> {
                let p = old(self)@.procs[pid];
                p.timers[0].tick_ok() && p.timers[1].tick_ok() && p.timers[2].tick_ok()
            },
        ensures
            final(self).wf(),
            final(self).pid_order() == old(self).pid_order(),
            !old(self)@.procs.contains_key(pid) ==> r@.len() == 0 && final(self)@ == old(self)@,
            old(self)@.procs.contains_key(pid) ==> {
                let p = old(self)@.procs[pid];
                let (t0, f0) = p.timers[0].ticked(elapsed_real_us);
                let (t1, f1) = p.timers[1].ticked(elapsed_virt_us);
                let (t2, f2) = p.timers[2].ticked(elapsed_prof_us);
                &&& r@ == fired_sig(p.timers[0], f0) + fired_sig(p.timers[1], f1) + fired_sig(p.timers[2], f2)
                &&& final(self)@ == (SigMgr {
                    procs: old(self)@.procs.insert(
                        pid,
                        SigProc { timers: p.timers.update(0, t0).update(1, t1).update(2, t2), ..p },
                    ),
                    ..old(self)@
                })
            },
    {
        match self.processes.get_mut(pid) {
            None => Vec::new(),
            Some(state) => {
                let ghost p = state.view();
                let mut fired: Vec<FullSignal> = Vec::new();
                if tick_slot(state, 0, elapsed_real_us) {
                    fired.push(state.timers[0].timer_type.signal());
                }
                if tick_slot(state, 1, elapsed_virt_us) {
                    fired.push(state.timers[1].timer_type.signal());
                }
                if tick_slot(state, 2, elapsed_prof_us) {
                    fired.push(state.timers[2].timer_type.signal());
                }
                proof {
                    lemma_proc_updated(old(self).processes@, self.processes@, pid, *state);
                    lemma_queue_kept(old(self)@, self@, pid);
                    let (t0, f0) = p.timers[0].ticked(elapsed_real_us);
                    let (t1, f1) = p.timers[1].ticked(elapsed_virt_us);
                    let (t2, f2) = p.timers[2].ticked(elapsed_prof_us);
                    assert(state.view().timers =~= p.timers.update(0, t0).update(1, t1).update(2, t2));
                    assert(fired@ =~= fired_sig(p.timers[0], f0) + fired_sig(p.timers[1], f1) + fired_sig(
                        p.timers[2],
                        f2,
                    ));
                }
                fired
            },
        }
    }

    pub fn get_timer(&self, pid: u32, timer_type: TimerType) -> (r: Option<&IntervalTimer>)
        requires
            self.wf(),
        ensures
            match r {
                Some(t) => self@.procs.contains_key(pid) && *t == self@.procs[pid].timers[timer_type.slot()],
                None => !self@.procs.contains_key(pid),
            },
    {
        match self.processes.get(pid) {
            Some(s) => Some(
                match timer_type {
                    TimerType::Real => &s.timers[0],
                    TimerType::Virtual => &s.timers[1],
                    TimerType::Prof => &s.timers[2],
                },
            ),
            None => None,
        }
    }

    // ── Pending Query ────────────────────────────────────────

    pub fn pending_signals(&self, pid: u32) -> (r: Vec<FullSignal>)
        requires
            self.wf(),
        ensures
            r@ == if self@.procs.contains_key(pid) {
                self@.procs[pid].pending.map_values(|e: PendingEntry| e.signal)
            } else {
                Seq::<FullSignal>::empty()
            },
    {
        match self.processes.get(pid) {
            Some(s) => {
                let mut out: Vec<FullSignal> = Vec::new();
                let mut i: usize = 0;
                while i < s.pending.len()
                    invariant
                        i <= s.pending@.len(),
                        out@ == s.pending@.take(i as int).map_values(|e: PendingEntry| e.signal),
                    decreases s.pending@.len() - i,
                {
                    out.push(s.pending[i].signal);
                    i = i + 1;
                    assert(out@ =~= s.pending@.take(i as int).map_values(|e: PendingEntry| e.signal));
                }
                assert(out@ =~= s.pending@.map_values(|e: PendingEntry| e.signal));
                out
            },
            None => Vec::new(),
        }
    }

    pub fn clear_pending(&mut self, pid: u32) -> (r: bool)
        requires
            old(self).wf(),
        ensures
            final(self).wf(),
            final(self).pid_order() == old(self).pid_order(),
            r == old(self)@.procs.contains_key(pid),
            !r ==> final(self)@ == old(self)@,
            r ==> final(self)@ == (SigMgr {
                procs: old(self)@.procs.insert(
                    pid,
                    SigProc { pending: Seq::empty(), standard_pending: 0, ..old(self)@.procs[pid] },
                ),
                ..old(self)@
            }),
    {
        match self.processes.get_mut(pid) {
            None => false,
            Some(state) => {
                state.pending.clear();
                state.standard_pending = 0;
                proof {
                    lemma_proc_updated(old(self).processes@, self.processes@, pid, *state);
                    assert(state.view().pending =~= Seq::<PendingEntry>::empty());
                    lemma_empty_consistent();
                    lemma_consistent_insert(old(self)@, pid, state.view());
                }
                true
            },
        }
    }

    // ── Audit ───────────────────────────────────────────────

    pub fn audit_log(&self) -> (r: Vec<SignalAuditEntry>)
        requires
            self.wf(),
        ensures
            r@ == self@.audit,
            r@.len() <= MAX_AUDIT_ENTRIES,
    {
        let mut out: Vec<SignalAuditEntry> = Vec::new();
        let mut i: usize = 0;
        while i < self.audit_log.len()
            invariant
                i <= self.audit_log@.len(),
                out@ == self.audit_log@.take(i as int),
            decreases self.audit_log@.len() - i,
        {
            proof {
                crate::seqs::lemma_take_succ(self.audit_log@, i as int);
            }
            out.push(self.audit_log[i]);
            i = i + 1;
        }
        proof {
            crate::seqs::lemma_take_full(self.audit_log@);
        }
        out
    }

    pub fn audit_count(&self) -> (r: usize)
        requires
            self.wf(),
        ensures
            r == self@.audit.len(),
            r <= MAX_AUDIT_ENTRIES,
    {
        self.audit_log.len()
    }

    // ── Stats ───────────────────────────────────────────────

    pub fn stats(&self) -> (st: SignalStats)
        requires
            self.wf(),
        ensures
            st == (SignalStats {
                registered_processes: self@.procs.dom().len() as usize,
                process_groups: self@.groups.dom().len() as usize,
                containers: self@.containers.dom().len() as usize,
                total_sent: self@.total_sent,
                total_delivered: self@.total_delivered,
                total_coalesced: self@.total_coalesced,
                total_dropped: self@.total_dropped,
                audit_entries: self@.audit.len() as usize,
            }),
    {
        proof {
            self.processes.lemma_wf();
            self.container_pids.lemma_wf();
            assert(self@.procs.dom() =~= self.processes@.dom());
            assert(self@.containers.dom() =~= self.container_pids@.dom());
        }
        SignalStats {
            registered_processes: self.processes.len(),
            process_groups: self.group_count(),
            containers: self.container_pids.len(),
            total_sent: self.total_sent,
            total_delivered: self.total_delivered,
            total_coalesced: self.total_coalesced,
            total_dropped: self.total_dropped,
            audit_entries: self.audit_count(),
        }
    }
}

} // verus!
