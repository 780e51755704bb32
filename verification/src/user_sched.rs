//! Preemptive round-robin scheduling of ring-3 processes: saved register
//! state and IRET frames, time quanta, per-process scheduling state, and the
//! scheduler that picks, preempts, blocks, sleeps and reaps processes.

use vstd::prelude::*;
use crate::system::{Pid, ExitCode};

verus! {

// ═══════════════════════════════════════════════════════════════════════════════
// Register state
// ═══════════════════════════════════════════════════════════════════════════════

/// The user-mode register state of a process that the scheduler saves and
/// restores.
#[derive(Clone, Copy, Debug, PartialEq, Eq, Structural)]
pub struct UserContext {
    pub rip: u64,
    pub cs: u16,
    pub rflags: u64,
    pub rsp: u64,
    pub ss: u16,
    pub rax: u64,
    pub rbp: u64,
}

/// The IRET frame: what the CPU restores on the way to ring 3.
#[derive(Clone, Copy, Debug, PartialEq, Eq, Structural)]
pub struct IretFrame {
    pub rip: u64,
    pub cs: u16,
    pub rflags: u64,
    pub rsp: u64,
    pub ss: u16,
}

/// Both selectors request privilege level 3.
pub open spec fn ring3(f: IretFrame) -> bool {
    f.cs & 3u16 == 3 && f.ss & 3u16 == 3
}

/// Ring 3, a stack and an entry point, and interrupts enabled (IF).
pub open spec fn iret_valid(f: IretFrame) -> bool {
    ring3(f) && f.rsp > 0 && f.rip > 0 && f.rflags & 0x200u64 != 0
}

pub open spec fn frame_of(ctx: UserContext) -> IretFrame {
    IretFrame { rip: ctx.rip, cs: ctx.cs, rflags: ctx.rflags, rsp: ctx.rsp, ss: ctx.ss }
}

impl IretFrame {
    pub fn from_user_context(ctx: &UserContext) -> (f: Self)
        ensures
            f == frame_of(*ctx),
    {
        IretFrame { rip: ctx.rip, cs: ctx.cs, rflags: ctx.rflags, rsp: ctx.rsp, ss: ctx.ss }
    }

    pub fn is_ring3(&self) -> (r: bool)
        ensures
            r == ring3(*self),
    {
        (self.cs & 0x03) == 3 && (self.ss & 0x03) == 3
    }

    pub fn is_valid(&self) -> (r: bool)
        ensures
            r == iret_valid(*self),
    {
        self.is_ring3() && self.rsp > 0 && self.rip > 0 && (self.rflags & 0x200) != 0
    }
}

/// The general-purpose registers saved on a context switch.
#[derive(Clone, Copy, Debug, PartialEq, Eq, Structural)]
pub struct SavedRegisters {
    pub rax: u64,
    pub rbx: u64,
    pub rcx: u64,
    pub rdx: u64,
    pub rsi: u64,
    pub rdi: u64,
    pub rbp: u64,
    pub rsp: u64,
    pub r8: u64,
    pub r9: u64,
    pub r10: u64,
    pub r11: u64,
    pub r12: u64,
    pub r13: u64,
    pub r14: u64,
    pub r15: u64,
}

/// All registers zero.
pub open spec fn zero_regs() -> SavedRegisters {
    SavedRegisters {
        rax: 0,
        rbx: 0,
        rcx: 0,
        rdx: 0,
        rsi: 0,
        rdi: 0,
        rbp: 0,
        rsp: 0,
        r8: 0,
        r9: 0,
        r10: 0,
        r11: 0,
        r12: 0,
        r13: 0,
        r14: 0,
        r15: 0,
    }
}

/// The registers a context carries (rax, rbp, rsp); the rest zero.
pub open spec fn regs_of(ctx: UserContext) -> SavedRegisters {
    SavedRegisters { rax: ctx.rax, rbp: ctx.rbp, rsp: ctx.rsp, ..zero_regs() }
}

impl Default for SavedRegisters {
    fn default() -> (r: Self)
        ensures
            r == zero_regs(),
    {
        SavedRegisters {
            rax: 0,
            rbx: 0,
            rcx: 0,
            rdx: 0,
            rsi: 0,
            rdi: 0,
            rbp: 0,
            rsp: 0,
            r8: 0,
            r9: 0,
            r10: 0,
            r11: 0,
            r12: 0,
            r13: 0,
            r14: 0,
            r15: 0,
        }
    }
}

impl SavedRegisters {
    pub fn from_user_context(ctx: &UserContext) -> (r: Self)
        ensures
            r == regs_of(*ctx),
    {
        let zero = SavedRegisters::default();
        SavedRegisters { rax: ctx.rax, rbp: ctx.rbp, rsp: ctx.rsp, ..zero }
    }

    /// Writes rax, rbp and rsp back into `ctx`.
    pub fn apply_to(&self, ctx: &mut UserContext)
        ensures
            *final(ctx) == (UserContext { rax: self.rax, rbp: self.rbp, rsp: self.rsp, ..*old(ctx) }),
    {
        ctx.rax = self.rax;
        ctx.rbp = self.rbp;
        ctx.rsp = self.rsp;
    }
}

/// Saved registers and the IRET frame.
#[derive(Clone, Copy, Debug, PartialEq, Eq, Structural)]
pub struct SavedContext {
    pub regs: SavedRegisters,
    pub iret: IretFrame,
}

pub open spec fn saved_of(ctx: UserContext) -> SavedContext {
    SavedContext { regs: regs_of(ctx), iret: frame_of(ctx) }
}

/// `ctx` with a saved context written back: rax, rbp from the registers; rip,
/// rsp and rflags from the frame.
pub open spec fn restored(s: SavedContext, ctx: UserContext) -> UserContext {
    UserContext {
        rax: s.regs.rax,
        rbp: s.regs.rbp,
        rip: s.iret.rip,
        rsp: s.iret.rsp,
        rflags: s.iret.rflags,
        ..ctx
    }
}

impl SavedContext {
    pub fn from_user_context(ctx: &UserContext) -> (s: Self)
        ensures
            s == saved_of(*ctx),
    {
        SavedContext {
            regs: SavedRegisters::from_user_context(ctx),
            iret: IretFrame::from_user_context(ctx),
        }
    }

    pub fn apply_to(&self, ctx: &mut UserContext)
        ensures
            *final(ctx) == restored(*self, *old(ctx)),
    {
        self.regs.apply_to(ctx);
        ctx.rip = self.iret.rip;
        ctx.rsp = self.iret.rsp;
        ctx.rflags = self.iret.rflags;
    }

    pub fn is_ring3(&self) -> (r: bool)
        ensures
            r == ring3(self.iret),
    {
        self.iret.is_ring3()
    }

    pub fn is_valid(&self) -> (r: bool)
        ensures
            r == iret_valid(self.iret),
    {
        self.iret.is_valid()
    }
}

// ═══════════════════════════════════════════════════════════════════════════════
// Quanta
// ═══════════════════════════════════════════════════════════════════════════════

/// A time slice in timer ticks.
#[derive(Clone, Copy, PartialEq, Eq, Debug, Structural)]
pub struct Quantum {
    pub ticks_remaining: u32,
    pub ticks_total: u32,
}

/// One tick off the slice, stopping at zero.
pub open spec fn quantum_ticked(q: Quantum) -> Quantum {
    if q.ticks_remaining > 0 {
        Quantum { ticks_remaining: (q.ticks_remaining - 1) as u32, ..q }
    } else {
        q
    }
}

impl Quantum {
    pub fn new(ticks: u32) -> (q: Self)
        ensures
            q == (Quantum { ticks_remaining: ticks, ticks_total: ticks }),
    {
        Quantum { ticks_remaining: ticks, ticks_total: ticks }
    }

    /// Ten ticks.
    pub fn default_quantum() -> (q: Self)
        ensures
            q == (Quantum { ticks_remaining: 10, ticks_total: 10 }),
    {
        Self::new(10)
    }

    /// Takes one tick; true when the slice is used up.
    pub fn tick(&mut self) -> (expired: bool)
        ensures
            *final(self) == quantum_ticked(*old(self)),
            expired == (final(self).ticks_remaining == 0),
    {
        if self.ticks_remaining > 0 {
            self.ticks_remaining = self.ticks_remaining - 1;
        }
        self.ticks_remaining == 0
    }

    pub fn reset(&mut self)
        ensures
            *final(self) == (Quantum { ticks_remaining: old(self).ticks_total, ..*old(self) }),
    {
        self.ticks_remaining = self.ticks_total;
    }

    pub fn is_expired(&self) -> (r: bool)
        ensures
            r == (self.ticks_remaining == 0),
    {
        self.ticks_remaining == 0
    }

    pub fn remaining(&self) -> (r: u32)
        ensures
            r == self.ticks_remaining,
    {
        self.ticks_remaining
    }
}

// ═══════════════════════════════════════════════════════════════════════════════
// Scheduling states
// ═══════════════════════════════════════════════════════════════════════════════

/// Why a process is blocked.
#[derive(Clone, Copy, PartialEq, Eq, Debug, Structural)]
pub enum BlockReason {
    IoWait,
    SignalWait,
    IpcWait,
    /// Asleep until the given timer tick.
    Sleep(u64),
    /// Stopped by a signal.
    Stopped,
    WaitChild,
}

#[derive(Clone, Copy, PartialEq, Eq, Debug, Structural)]
pub enum SchedState {
    Ready,
    Running,
    Blocked(BlockReason),
    /// Exited, waiting to be reaped.
    Zombie(ExitCode),
}

pub open spec fn runnable(s: SchedState) -> bool {
    s is Ready || s is Running
}

impl SchedState {
    pub fn is_runnable(&self) -> (r: bool)
        ensures
            r == runnable(*self),
    {
        matches!(self, SchedState::Ready | SchedState::Running)
    }

    pub fn is_running(&self) -> (r: bool)
        ensures
            r == (*self is Running),
    {
        matches!(self, SchedState::Running)
    }

    pub fn is_blocked(&self) -> (r: bool)
        ensures
            r == (*self is Blocked),
    {
        matches!(self, SchedState::Blocked(_))
    }

    pub fn is_zombie(&self) -> (r: bool)
        ensures
            r == (*self is Zombie),
    {
        matches!(self, SchedState::Zombie(_))
    }
}

// ═══════════════════════════════════════════════════════════════════════════════
// Scheduler entries
// ═══════════════════════════════════════════════════════════════════════════════

/// A process as the scheduler sees it; priority 0 is the highest.
#[derive(Clone, Copy, Debug, PartialEq, Eq, Structural)]
pub struct SchedEntry {
    pub pid: Pid,
    pub state: SchedState,
    pub quantum: Quantum,
    pub priority: u8,
    pub saved_ctx: SavedContext,
    pub total_cpu_ticks: u64,
    pub context_switches: u64,
    pub wake_tick: Option<u64>,
}

/// `e` after saving `ctx` into it: one more context switch counted.
pub open spec fn entry_saved(e: SchedEntry, ctx: UserContext) -> SchedEntry {
    SchedEntry { saved_ctx: saved_of(ctx), context_switches: (e.context_switches + 1) as u64, ..e }
}

/// `e` after one timer tick on the cpu.
pub open spec fn entry_ticked(e: SchedEntry) -> SchedEntry {
    SchedEntry {
        total_cpu_ticks: (e.total_cpu_ticks + 1) as u64,
        quantum: quantum_ticked(e.quantum),
        ..e
    }
}

impl SchedEntry {
    /// A ready process with a fresh default quantum and `ctx` saved.
    pub fn new(pid: Pid, ctx: &UserContext, priority: u8) -> (e: Self)
        ensures
            e == (SchedEntry {
                pid,
                state: SchedState::Ready,
                quantum: Quantum { ticks_remaining: 10, ticks_total: 10 },
                priority,
                saved_ctx: saved_of(*ctx),
                total_cpu_ticks: 0,
                context_switches: 0,
                wake_tick: None,
            }),
    {
        SchedEntry {
            pid,
            state: SchedState::Ready,
            quantum: Quantum::default_quantum(),
            priority,
            saved_ctx: SavedContext::from_user_context(ctx),
            total_cpu_ticks: 0,
            context_switches: 0,
            wake_tick: None,
        }
    }

    pub fn is_runnable(&self) -> (r: bool)
        ensures
            r == runnable(self.state),
    {
        self.state.is_runnable()
    }

    /// Saves `ctx` on preemption.
    pub fn save_context(&mut self, ctx: &UserContext)
        requires
            old(self).context_switches < u64::MAX,
        ensures
            *final(self) == entry_saved(*old(self), *ctx),
    {
        self.saved_ctx = SavedContext::from_user_context(ctx);
        self.context_switches = self.context_switches + 1;
    }

    pub fn restore_context(&self) -> (s: SavedContext)
        ensures
            s == self.saved_ctx,
    {
        self.saved_ctx
    }

    pub fn reset_quantum(&mut self)
        ensures
            *final(self) == (SchedEntry {
                quantum: Quantum { ticks_remaining: old(self).quantum.ticks_total, ..old(self).quantum },
                ..*old(self)
            }),
    {
        self.quantum.reset();
    }

    /// One tick on the cpu; true when the quantum is used up.
    pub fn tick_quantum(&mut self) -> (expired: bool)
        requires
            old(self).total_cpu_ticks < u64::MAX,
        ensures
            *final(self) == entry_ticked(*old(self)),
            expired == (final(self).quantum.ticks_remaining == 0),
    {
        self.total_cpu_ticks = self.total_cpu_ticks + 1;
        self.quantum.tick()
    }
}


// ═══════════════════════════════════════════════════════════════════════════════
// The scheduler
// ═══════════════════════════════════════════════════════════════════════════════

/// The processes in the order they were added, the running one, and counters.
pub struct SchedView {
    pub entries: Seq<SchedEntry>,
    pub current: Option<Pid>,
    pub timer_ticks: u64,
    pub context_switches: u64,
    pub preemptions: u64,
    pub voluntary_yields: u64,
}

/// `s[k]` is the first entry of process `pid`.
pub open spec fn first_at(s: Seq<SchedEntry>, pid: Pid, k: int) -> bool {
    &&& 0 <= k < s.len()
    &&& s[k].pid == pid
    &&& forall|j: int| 0 <= j < k ==> #[trigger] s[j].pid != pid
}

pub open spec fn has_pid(s: Seq<SchedEntry>, pid: Pid) -> bool {
    exists|k: int| 0 <= k < s.len() && s[k].pid == pid
}

/// `s[i]` may be picked instead of the running process `cur`.
pub open spec fn candidate(s: Seq<SchedEntry>, cur: Option<Pid>, i: int) -> bool {
    runnable(s[i].state) && cur != Some(s[i].pid)
}

/// `s[i]` is the first candidate of the highest priority (lowest number).
pub open spec fn best_at(s: Seq<SchedEntry>, cur: Option<Pid>, i: int) -> bool {
    &&& 0 <= i < s.len()
    &&& candidate(s, cur, i)
    &&& forall|j: int| 0 <= j < s.len() && candidate(s, cur, j) ==> s[i].priority <= #[trigger] s[j].priority
    &&& forall|j: int| 0 <= j < i && candidate(s, cur, j) ==> #[trigger] s[j].priority > s[i].priority
}

/// The entry to run next: the best candidate other than the running process;
/// without one, the running process itself while it is runnable.
pub open spec fn pick(s: Seq<SchedEntry>, cur: Option<Pid>) -> Option<int> {
    if exists|i: int| best_at(s, cur, i) {
        Some(choose|i: int| best_at(s, cur, i))
    } else {
        match cur {
            Some(p) => if exists|k: int| first_at(s, p, k) && runnable(s[k].state) {
                Some(choose|k: int| first_at(s, p, k))
            } else {
                None
            },
            None => None,
        }
    }
}

/// The entries after saving `ctx` into the running process, where there is
/// both.
pub open spec fn saved_current(v: SchedView, ctx: Option<UserContext>) -> Seq<SchedEntry> {
    match (v.current, ctx) {
        (Some(p), Some(c)) => if has_pid(v.entries, p) {
            let k = choose|k: int| first_at(v.entries, p, k);
            v.entries.update(k, entry_saved(v.entries[k], c))
        } else {
            v.entries
        },
        _ => v.entries,
    }
}

/// The entries with the running process, if it runs, set back to ready.
pub open spec fn demoted(s: Seq<SchedEntry>, cur: Option<Pid>) -> Seq<SchedEntry> {
    match cur {
        Some(p) => if has_pid(s, p) {
            let k = choose|k: int| first_at(s, p, k);
            if s[k].state is Running {
                s.update(k, SchedEntry { state: SchedState::Ready, ..s[k] })
            } else {
                s
            }
        } else {
            s
        },
        None => s,
    }
}

/// `e` set running with a full quantum.
pub open spec fn started(e: SchedEntry) -> SchedEntry {
    SchedEntry {
        state: SchedState::Running,
        quantum: Quantum { ticks_remaining: e.quantum.ticks_total, ..e.quantum },
        ..e
    }
}

/// One scheduling decision: count it, save `ctx` into the running process,
/// pick the next (see `pick`), set the previous one back to ready and start the
/// next. Returns the next process and the context to restore.
pub open spec fn schedule_step(v: SchedView, ctx: Option<UserContext>) -> (
    SchedView,
    Option<(Pid, SavedContext)>,
) {
    let s1 = saved_current(v, ctx);
    let v1 = SchedView { entries: s1, context_switches: (v.context_switches + 1) as u64, ..v };
    match pick(s1, v.current) {
        None => (v1, None),
        Some(n) => {
            let s2 = demoted(s1, v.current);
            let s3 = s2.update(n, started(s2[n]));
            (
                SchedView { entries: s3, current: Some(s3[n].pid), ..v1 },
                Some((s3[n].pid, s3[n].saved_ctx)),
            )
        },
    }
}

/// The first entry of `pid` has room to count one more context switch.
pub open spec fn pid_room(v: SchedView, pid: Pid) -> bool {
    forall|k: int| first_at(v.entries, pid, k) ==> v.entries[k].context_switches < u64::MAX
}

/// The running process, if any, has room to count one more context switch.
pub open spec fn current_room(v: SchedView) -> bool {
    match v.current {
        Some(p) => pid_room(v, p),
        None => true,
    }
}

/// A timer tick overflows no counter: the tick count, the running process's
/// cpu ticks, and, where its quantum runs out (or nothing runs), the counters a
/// scheduling decision bumps.
pub open spec fn tick_room(v: SchedView) -> bool {
    &&& v.timer_ticks < u64::MAX
    &&& v.current is None ==> v.context_switches < u64::MAX
    &&& forall|k: int|
        v.current matches Some(p) && first_at(v.entries, p, k) ==> {
            &&& v.entries[k].total_cpu_ticks < u64::MAX
            &&& v.entries[k].quantum.ticks_remaining <= 1 ==> v.preemptions < u64::MAX && v.context_switches
                < u64::MAX && v.entries[k].context_switches < u64::MAX
        }
}

/// A sleeper whose wake tick has come at tick `t` is ready again.
pub open spec fn woken(e: SchedEntry, t: u64) -> SchedEntry {
    match e.state {
        SchedState::Blocked(BlockReason::Sleep(w)) => if t >= w {
            SchedEntry { state: SchedState::Ready, wake_tick: None, ..e }
        } else {
            e
        },
        _ => e,
    }
}

pub open spec fn all_woken(s: Seq<SchedEntry>, t: u64) -> Seq<SchedEntry> {
    s.map_values(|e: SchedEntry| woken(e, t))
}

/// A timer tick: count it, wake due sleepers, and charge the running process;
/// when its quantum runs out it is preempted and the next one scheduled. With
/// nothing running, one is scheduled.
pub open spec fn tick_step(v: SchedView, ctx: UserContext) -> (SchedView, Option<(Pid, SavedContext)>) {
    let t = (v.timer_ticks + 1) as u64;
    let v1 = SchedView { timer_ticks: t, entries: all_woken(v.entries, t), ..v };
    match v1.current {
        None => schedule_step(v1, None),
        Some(p) => if has_pid(v1.entries, p) {
            let k = choose|k: int| first_at(v1.entries, p, k);
            let e = entry_ticked(v1.entries[k]);
            let v2 = SchedView { entries: v1.entries.update(k, e), ..v1 };
            if e.quantum.ticks_remaining == 0 {
                schedule_step(SchedView { preemptions: (v2.preemptions + 1) as u64, ..v2 }, Some(ctx))
            } else {
                (v2, None)
            }
        } else {
            (v1, None)
        },
    }
}

/// `v` with the first entry of `pid`, where there is one, changed by `f`.
pub open spec fn with_first(v: SchedView, pid: Pid, f: spec_fn(SchedEntry) -> SchedEntry) -> SchedView {
    if has_pid(v.entries, pid) {
        let k = choose|k: int| first_at(v.entries, pid, k);
        SchedView { entries: v.entries.update(k, f(v.entries[k])), ..v }
    } else {
        v
    }
}

/// `v` no longer running `pid`.
pub open spec fn not_running(v: SchedView, pid: Pid) -> SchedView {
    if v.current == Some(pid) {
        SchedView { current: None, ..v }
    } else {
        v
    }
}

pub open spec fn zombie_code(e: SchedEntry) -> ExitCode {
    match e.state {
        SchedState::Zombie(c) => c,
        _ => 0,
    }
}

proof fn lemma_first_unique(s: Seq<SchedEntry>, pid: Pid, a: int, b: int)
    requires
        first_at(s, pid, a),
        first_at(s, pid, b),
    ensures
        a == b,
{
    if a < b {
        assert(s[a].pid != pid);
    } else if b < a {
        assert(s[b].pid != pid);
    }
}

proof fn lemma_best_unique(s: Seq<SchedEntry>, cur: Option<Pid>, a: int, b: int)
    requires
        best_at(s, cur, a),
        best_at(s, cur, b),
    ensures
        a == b,
{
    if a < b {
        assert(s[a].priority > s[b].priority);
        assert(s[b].priority <= s[a].priority);
    } else if b < a {
        assert(s[b].priority > s[a].priority);
        assert(s[a].priority <= s[b].priority);
    }
}

/// The preemptive round-robin scheduler of user processes.
pub struct UserScheduler {
    entries: Vec<SchedEntry>,
    current: Option<Pid>,
    timer_ticks: u64,
    context_switches: u64,
    preemptions: u64,
    voluntary_yields: u64,
}

impl View for UserScheduler {
    type V = SchedView;

    closed spec fn view(&self) -> SchedView {
        SchedView {
            entries: self.entries@,
            current: self.current,
            timer_ticks: self.timer_ticks,
            context_switches: self.context_switches,
            preemptions: self.preemptions,
            voluntary_yields: self.voluntary_yields,
        }
    }
}

impl Default for UserScheduler {
    fn default() -> (s: Self)
        ensures
            s@ == (SchedView {
                entries: Seq::empty(),
                current: None,
                timer_ticks: 0,
                context_switches: 0,
                preemptions: 0,
                voluntary_yields: 0,
            }),
    {
        Self::new()
    }
}

impl UserScheduler {
    pub fn new() -> (s: Self)
        ensures
            s@ == (SchedView {
                entries: Seq::empty(),
                current: None,
                timer_ticks: 0,
                context_switches: 0,
                preemptions: 0,
                voluntary_yields: 0,
            }),
    {
        UserScheduler {
            entries: Vec::new(),
            current: None,
            timer_ticks: 0,
            context_switches: 0,
            preemptions: 0,
            voluntary_yields: 0,
        }
    }

    fn find(&self, pid: Pid) -> (r: Option<usize>)
        ensures
            r matches Some(k) ==> first_at(self@.entries, pid, k as int),
            r is None ==> !has_pid(self@.entries, pid),
    {
        let mut i: usize = 0;
        while i < self.entries.len()
            invariant
                i <= self.entries@.len(),
                forall|j: int| 0 <= j < i ==> #[trigger] self.entries@[j].pid != pid,
            decreases self.entries@.len() - i,
        {
            if self.entries[i].pid == pid {
                return Some(i);
            }
            i = i + 1;
        }
        None
    }

    /// Adds a ready process with `ctx` saved.
    pub fn add_process(&mut self, pid: Pid, ctx: &UserContext, priority: u8)
        ensures
            final(self)@ == (SchedView {
                entries: old(self)@.entries.push(
                    SchedEntry {
                        pid,
                        state: SchedState::Ready,
                        quantum: Quantum { ticks_remaining: 10, ticks_total: 10 },
                        priority,
                        saved_ctx: saved_of(*ctx),
                        total_cpu_ticks: 0,
                        context_switches: 0,
                        wake_tick: None,
                    },
                ),
                ..old(self)@
            }),
    {
        self.entries.push(SchedEntry::new(pid, ctx, priority));
    }

    /// Removes every entry of `pid`; true when there was one.
    pub fn remove_process(&mut self, pid: Pid) -> (r: bool)
        ensures
            r == has_pid(old(self)@.entries, pid),
            final(self)@ == (SchedView {
                entries: old(self)@.entries.filter(|e: SchedEntry| e.pid != pid),
                ..not_running(old(self)@, pid)
            }),
    {
        if self.current == Some(pid) {
            self.current = None;
        }
        let ghost pred = |e: SchedEntry| e.pid != pid;
        let ghost s = self.entries@;
        let mut kept: Vec<SchedEntry> = Vec::new();
        let mut removed = false;
        let mut i: usize = 0;
        while i < self.entries.len()
            invariant
                self.entries@ == s,
                pred == (|e: SchedEntry| e.pid != pid),
                i <= s.len(),
                kept@ == s.take(i as int).filter(pred),
                removed == exists|j: int| 0 <= j < i && s[j].pid == pid,
            decreases s.len() - i,
        {
            proof {
                crate::seqs::lemma_filter_take_succ(s, i as int, pred);
            }
            if self.entries[i].pid != pid {
                kept.push(self.entries[i]);
            } else {
                removed = true;
            }
            i = i + 1;
        }
        proof {
            crate::seqs::lemma_take_full(s);
        }
        self.entries = kept;
        removed
    }

    pub fn current_pid(&self) -> (r: Option<Pid>)
        ensures
            r == self@.current,
    {
        self.current
    }

    /// The first entry of `pid`.
    pub fn get_entry(&self, pid: Pid) -> (r: Option<&SchedEntry>)
        ensures
            r is None <==> !has_pid(self@.entries, pid),
            r matches Some(e) ==> exists|k: int| first_at(self@.entries, pid, k) && *e == self@.entries[k],
    {
        match self.find(pid) {
            Some(k) => Some(&self.entries[k]),
            None => None,
        }
    }

    /// The first entry of `pid`, to change.
    pub fn get_entry_mut(&mut self, pid: Pid) -> (r: Option<&mut SchedEntry>)
        ensures
            r is None <==> !has_pid(old(self)@.entries, pid),
            r is None ==> final(self)@ == old(self)@,
            r matches Some(e) ==> exists|k: int|
                first_at(old(self)@.entries, pid, k) && *e == old(self)@.entries[k] && final(self)@ == (
                SchedView { entries: old(self)@.entries.update(k, *final(e)), ..old(self)@ }),
    {
        match self.find(pid) {
            Some(k) => Some(&mut self.entries[k]),
            None => None,
        }
    }

    fn pick_next(&self) -> (r: Option<usize>)
        ensures
            r matches Some(i) ==> pick(self@.entries, self@.current) == Some(i as int) && i < self@.entries.len(),
            r is None ==> pick(self@.entries, self@.current) is None,
    {
        let ghost s = self@.entries;
        let ghost cur = self.current;
        let mut best: Option<usize> = None;
        let mut best_prio: u8 = 0;
        let mut i: usize = 0;
        while i < self.entries.len()
            invariant
                self@.entries == s,
                self.current == cur,
                i <= s.len(),
                best is None ==> forall|j: int| 0 <= j < i ==> !candidate(s, cur, j),
                best matches Some(b) ==> {
                    &&& b < i
                    &&& best_prio == s[b as int].priority
                    &&& candidate(s, cur, b as int)
                    &&& forall|j: int| 0 <= j < i && candidate(s, cur, j) ==> best_prio <= #[trigger] s[j].priority
                    &&& forall|j: int| 0 <= j < b && candidate(s, cur, j) ==> #[trigger] s[j].priority > best_prio
                },
            decreases s.len() - i,
        {
            let e = &self.entries[i];
            if e.is_runnable() && self.current != Some(e.pid) {
                match best {
                    None => {
                        best = Some(i);
                        best_prio = e.priority;
                    },
                    Some(_) => {
                        if e.priority < best_prio {
                            best = Some(i);
                            best_prio = e.priority;
                        }
                    },
                }
            }
            i = i + 1;
        }
        match best {
            Some(b) => {
                proof {
                    assert(best_at(s, cur, b as int));
                    assert forall|j: int| best_at(s, cur, j) implies j == b as int by {
                        lemma_best_unique(s, cur, j, b as int);
                    }
                }
                Some(b)
            },
            None => {
                proof {
                    assert forall|j: int| !best_at(s, cur, j) by {}
                }
                match self.current {
                    Some(cpid) => {
                        match self.find(cpid) {
                            Some(k) => {
                                proof {
                                    assert forall|j: int| first_at(s, cpid, j) implies j == k as int by {
                                        lemma_first_unique(s, cpid, j, k as int);
                                    }
                                }
                                if self.entries[k].is_runnable() {
                                    Some(k)
                                } else {
                                    None
                                }
                            },
                            None => None,
                        }
                    },
                    None => None,
                }
            },
        }
    }
}


/// The context a call hands over, by value.
pub open spec fn ctx_val(c: Option<&UserContext>) -> Option<UserContext> {
    match c {
        Some(x) => Some(*x),
        None => None,
    }
}

impl UserScheduler {
    /// One scheduling decision; see `schedule_step`.
    pub fn schedule(&mut self, current_ctx: Option<&UserContext>) -> (r: Option<(Pid, SavedContext)>)
        requires
            old(self)@.context_switches < u64::MAX,
            current_ctx is Some ==> current_room(old(self)@),
        ensures
            (final(self)@, r) == schedule_step(old(self)@, ctx_val(current_ctx)),
    {
        let ghost v = self@;
        self.context_switches = self.context_switches + 1;
        match self.current {
            Some(pid) => {
                match current_ctx {
                    Some(ctx) => {
                        match self.find(pid) {
                            Some(k) => {
                                proof {
                                    assert forall|j: int| first_at(v.entries, pid, j) implies j == k as int by {
                                        lemma_first_unique(v.entries, pid, j, k as int);
                                    }
                                    assert(v.entries[k as int].context_switches < u64::MAX);
                                }
                                self.entries[k].save_context(ctx);
                                assert(self.entries@ =~= saved_current(v, ctx_val(current_ctx)));
                            },
                            None => {},
                        }
                    },
                    None => {},
                }
            },
            None => {},
        }
        assert(self.entries@ =~= saved_current(v, ctx_val(current_ctx)));
        let ghost s1 = self.entries@;
        let next = match self.pick_next() {
            Some(n) => n,
            None => {
                return None;
            },
        };
        match self.current {
            Some(old_pid) => {
                match self.find(old_pid) {
                    Some(k) => {
                        proof {
                            assert forall|j: int| first_at(s1, old_pid, j) implies j == k as int by {
                                lemma_first_unique(s1, old_pid, j, k as int);
                            }
                        }
                        if self.entries[k].state == SchedState::Running {
                            self.entries[k].state = SchedState::Ready;
                        }
                    },
                    None => {},
                }
            },
            None => {},
        }
        assert(self.entries@ =~= demoted(s1, v.current));
        let next_pid = self.entries[next].pid;
        self.entries[next].state = SchedState::Running;
        self.entries[next].reset_quantum();
        self.current = Some(next_pid);
        let saved = self.entries[next].restore_context();
        proof {
            let s2 = demoted(s1, v.current);
            assert(self.entries@ =~= s2.update(next as int, started(s2[next as int])));
        }
        Some((next_pid, saved))
    }
}


impl UserScheduler {
    /// A timer tick; see `tick_step`.
    pub fn timer_tick(&mut self, current_ctx: &UserContext) -> (r: Option<(Pid, SavedContext)>)
        requires
            tick_room(old(self)@),
        ensures
            (final(self)@, r) == tick_step(old(self)@, *current_ctx),
    {
        let ghost v = self@;
        self.timer_ticks = self.timer_ticks + 1;
        let t = self.timer_ticks;
        let mut i: usize = 0;
        while i < self.entries.len()
            invariant
                self.entries@.len() == v.entries.len(),
                i <= v.entries.len(),
                self.timer_ticks == t,
                t == v.timer_ticks + 1,
                self.current == v.current,
                self.context_switches == v.context_switches,
                self.preemptions == v.preemptions,
                self.voluntary_yields == v.voluntary_yields,
                forall|j: int| 0 <= j < i ==> #[trigger] self.entries@[j] == woken(v.entries[j], t),
                forall|j: int| i <= j < v.entries.len() ==> #[trigger] self.entries@[j] == v.entries[j],
            decreases v.entries.len() - i,
        {
            match self.entries[i].state {
                SchedState::Blocked(BlockReason::Sleep(wake)) => {
                    if t >= wake {
                        self.entries[i].state = SchedState::Ready;
                        self.entries[i].wake_tick = None;
                    }
                },
                _ => {},
            }
            i = i + 1;
        }
        let ghost s1 = all_woken(v.entries, t);
        assert(self.entries@ =~= s1);
        match self.current {
            Some(pid) => {
                match self.find(pid) {
                    Some(k) => {
                        proof {
                            assert forall|j: int| first_at(s1, pid, j) implies j == k as int by {
                                lemma_first_unique(s1, pid, j, k as int);
                            }
                            assert forall|j: int| 0 <= j < k implies #[trigger] v.entries[j].pid != pid by {
                                assert(s1[j].pid == v.entries[j].pid);
                            }
                            assert(s1[k as int].pid == v.entries[k as int].pid);
                            assert(first_at(v.entries, pid, k as int));
                            assert(v.entries[k as int].total_cpu_ticks < u64::MAX);
                        }
                        let expired = self.entries[k].tick_quantum();
                        if expired {
                            proof {
                                assert(v.entries[k as int].quantum.ticks_remaining <= 1);
                            }
                            self.preemptions = self.preemptions + 1;
                            proof {
                                assert forall|j: int| first_at(self@.entries, pid, j) implies j == k as int by {
                                    lemma_first_unique(self@.entries, pid, j, k as int);
                                }
                            }
                            return self.schedule(Some(current_ctx));
                        }
                        None
                    },
                    None => None,
                }
            },
            None => self.schedule(None),
        }
    }
}


proof fn lemma_with_first(v: SchedView, pid: Pid, k: int, f: spec_fn(SchedEntry) -> SchedEntry)
    requires
        first_at(v.entries, pid, k),
    ensures
        with_first(v, pid, f) == (SchedView { entries: v.entries.update(k, f(v.entries[k])), ..v }),
{
    assert forall|j: int| first_at(v.entries, pid, j) implies j == k by {
        lemma_first_unique(v.entries, pid, j, k);
    }
}

/// `e` blocked for `reason`, with `ctx` saved.
pub open spec fn blocked_with(e: SchedEntry, reason: BlockReason, ctx: UserContext) -> SchedEntry {
    SchedEntry { state: SchedState::Blocked(reason), ..entry_saved(e, ctx) }
}

/// `e` with `ctx` saved, where one is given.
pub open spec fn maybe_saved(e: SchedEntry, ctx: Option<UserContext>) -> SchedEntry {
    match ctx {
        Some(c) => entry_saved(e, c),
        None => e,
    }
}

/// A process set to `state`, with `ctx` saved where one is given.
pub open spec fn set_state(state: SchedState, ctx: Option<UserContext>) -> spec_fn(SchedEntry) -> SchedEntry {
    |e: SchedEntry| SchedEntry { state, ..maybe_saved(e, ctx) }
}

/// A process asleep until tick `wake_at`.
pub open spec fn asleep(wake_at: u64) -> spec_fn(SchedEntry) -> SchedEntry {
    |e: SchedEntry|
        SchedEntry { wake_tick: Some(wake_at), state: SchedState::Blocked(BlockReason::Sleep(wake_at)), ..e }
}

/// A stopped process made ready; any other left as it is.
pub open spec fn continued() -> spec_fn(SchedEntry) -> SchedEntry {
    |e: SchedEntry|
        if e.state == SchedState::Blocked(BlockReason::Stopped) {
            SchedEntry { state: SchedState::Ready, ..e }
        } else {
            e
        }
}

impl UserScheduler {
    /// Gives up the cpu (sys_yield): counted, then a scheduling decision saving
    /// `ctx`.
    pub fn yield_now(&mut self, current_ctx: &UserContext) -> (r: Option<(Pid, SavedContext)>)
        requires
            old(self)@.voluntary_yields < u64::MAX,
            old(self)@.context_switches < u64::MAX,
            current_room(old(self)@),
        ensures
            (final(self)@, r) == schedule_step(
                SchedView { voluntary_yields: (old(self)@.voluntary_yields + 1) as u64, ..old(self)@ },
                Some(*current_ctx),
            ),
    {
        self.voluntary_yields = self.voluntary_yields + 1;
        self.schedule(Some(current_ctx))
    }

    /// Blocks the running process for `reason`, saving `ctx`, and schedules.
    pub fn block_current(&mut self, reason: BlockReason, current_ctx: &UserContext) -> (r: Option<
        (Pid, SavedContext),
    >)
        requires
            old(self)@.context_switches < u64::MAX,
            current_room(old(self)@),
        ensures
            ({
                let v1 = match old(self)@.current {
                    Some(p) => with_first(old(self)@, p, set_state(SchedState::Blocked(reason), Some(*current_ctx))),
                    None => old(self)@,
                };
                (final(self)@, r) == schedule_step(SchedView { current: None, ..v1 }, None)
            }),
    {
        let ghost v = self@;
        match self.current {
            Some(pid) => {
                match self.find(pid) {
                    Some(k) => {
                        proof {
                            lemma_with_first(v, pid, k as int, set_state(SchedState::Blocked(reason), Some(*current_ctx)));
                        }
                        self.entries[k].save_context(current_ctx);
                        self.entries[k].state = SchedState::Blocked(reason);
                        assert(self.entries@ =~= v.entries.update(k as int, set_state(SchedState::Blocked(reason), Some(*current_ctx))(v.entries[k as int])));
                    },
                    None => {},
                }
            },
            None => {},
        }
        self.current = None;
        self.schedule(None)
    }

    /// Makes the first entry of `pid` ready.
    pub fn unblock(&mut self, pid: Pid)
        ensures
            final(self)@ == with_first(old(self)@, pid, |e: SchedEntry| SchedEntry { state: SchedState::Ready, ..e }),
    {
        let ghost v = self@;
        match self.find(pid) {
            Some(k) => {
                proof {
                    lemma_with_first(v, pid, k as int, |e: SchedEntry| SchedEntry { state: SchedState::Ready, ..e });
                }
                self.entries[k].state = SchedState::Ready;
                assert(self.entries@ =~= v.entries.update(k as int, SchedEntry { state: SchedState::Ready, ..v.entries[k as int] }));
            },
            None => {},
        }
    }

    /// Marks `pid` exited with `exit_code` (saving `ctx` where given), stops
    /// running it, and schedules.
    pub fn exit_process(&mut self, pid: Pid, exit_code: ExitCode, current_ctx: Option<&UserContext>) -> (r: Option<
        (Pid, SavedContext),
    >)
        requires
            old(self)@.context_switches < u64::MAX,
            current_ctx is Some ==> pid_room(old(self)@, pid),
        ensures
            (final(self)@, r) == schedule_step(
                not_running(with_first(old(self)@, pid, set_state(SchedState::Zombie(exit_code), ctx_val(current_ctx))), pid),
                None,
            ),
    {
        let ghost v = self@;
        let ghost f = set_state(SchedState::Zombie(exit_code), ctx_val(current_ctx));
        match self.find(pid) {
            Some(k) => {
                proof {
                    lemma_with_first(v, pid, k as int, f);
                }
                match current_ctx {
                    Some(ctx) => {
                        self.entries[k].save_context(ctx);
                    },
                    None => {},
                }
                self.entries[k].state = SchedState::Zombie(exit_code);
                assert(self.entries@ =~= v.entries.update(k as int, f(v.entries[k as int])));
            },
            None => {},
        }
        if self.current == Some(pid) {
            self.current = None;
        }
        self.schedule(None)
    }

    /// Stops `pid` (SIGSTOP), saving `ctx` where given, stops running it, and
    /// schedules.
    pub fn stop_process(&mut self, pid: Pid, current_ctx: Option<&UserContext>) -> (r: Option<
        (Pid, SavedContext),
    >)
        requires
            old(self)@.context_switches < u64::MAX,
            current_ctx is Some ==> pid_room(old(self)@, pid),
        ensures
            (final(self)@, r) == schedule_step(
                not_running(
                    with_first(old(self)@, pid, set_state(SchedState::Blocked(BlockReason::Stopped), ctx_val(current_ctx))),
                    pid,
                ),
                None,
            ),
    {
        let ghost v = self@;
        let ghost f = set_state(SchedState::Blocked(BlockReason::Stopped), ctx_val(current_ctx));
        match self.find(pid) {
            Some(k) => {
                proof {
                    lemma_with_first(v, pid, k as int, f);
                }
                match current_ctx {
                    Some(ctx) => {
                        self.entries[k].save_context(ctx);
                    },
                    None => {},
                }
                self.entries[k].state = SchedState::Blocked(BlockReason::Stopped);
                assert(self.entries@ =~= v.entries.update(k as int, f(v.entries[k as int])));
            },
            None => {},
        }
        if self.current == Some(pid) {
            self.current = None;
        }
        self.schedule(None)
    }

    /// Makes a stopped `pid` ready again (SIGCONT).
    pub fn continue_process(&mut self, pid: Pid)
        ensures
            final(self)@ == with_first(old(self)@, pid, continued()),
    {
        let ghost v = self@;
        match self.find(pid) {
            Some(k) => {
                proof {
                    lemma_with_first(v, pid, k as int, continued());
                }
                if self.entries[k].state == SchedState::Blocked(BlockReason::Stopped) {
                    self.entries[k].state = SchedState::Ready;
                }
                assert(self.entries@ =~= v.entries.update(k as int, continued()(v.entries[k as int])));
            },
            None => {},
        }
    }

    /// Puts `pid` to sleep for `ticks` timer ticks, stops running it, and
    /// schedules, saving `ctx` into whatever process still runs.
    pub fn sleep(&mut self, pid: Pid, ticks: u64, current_ctx: &UserContext) -> (r: Option<(Pid, SavedContext)>)
        requires
            old(self)@.timer_ticks + ticks <= u64::MAX,
            old(self)@.context_switches < u64::MAX,
            old(self)@.current != Some(pid) ==> current_room(old(self)@),
        ensures
            (final(self)@, r) == schedule_step(
                not_running(with_first(old(self)@, pid, asleep((old(self)@.timer_ticks + ticks) as u64)), pid),
                Some(*current_ctx),
            ),
    {
        let ghost v = self@;
        let wake_at = self.timer_ticks + ticks;
        match self.find(pid) {
            Some(k) => {
                proof {
                    lemma_with_first(v, pid, k as int, asleep(wake_at));
                }
                self.entries[k].wake_tick = Some(wake_at);
                self.entries[k].state = SchedState::Blocked(BlockReason::Sleep(wake_at));
                assert(self.entries@ =~= v.entries.update(k as int, asleep(wake_at)(v.entries[k as int])));
            },
            None => {},
        }
        if self.current == Some(pid) {
            self.current = None;
        }
        proof {
            match self.current {
                Some(p) => {
                    assert forall|k: int| first_at(self@.entries, p, k) implies self@.entries[k].context_switches
                        < u64::MAX by {
                        assert(self@.entries[k].pid == v.entries[k].pid);
                        assert forall|j: int| 0 <= j < k implies #[trigger] v.entries[j].pid != p by {
                            assert(self@.entries[j].pid == v.entries[j].pid);
                        }
                        assert(first_at(v.entries, p, k));
                    }
                },
                None => {},
            }
        }
        self.schedule(Some(current_ctx))
    }
}


pub open spec fn is_zombie_entry(e: SchedEntry) -> bool {
    e.state is Zombie
}

/// The entries of `s` that have not exited.
pub open spec fn live_entries(s: Seq<SchedEntry>) -> Seq<SchedEntry> {
    s.filter(|e: SchedEntry| !is_zombie_entry(e))
}

/// Each zombie of `s` as its pid and exit code, in order.
pub open spec fn zombies_of(s: Seq<SchedEntry>) -> Seq<(Pid, ExitCode)> {
    s.filter(|e: SchedEntry| is_zombie_entry(e)).map_values(|e: SchedEntry| (e.pid, zombie_code(e)))
}

impl UserScheduler {
    /// Removes the exited processes and returns their pids and exit codes, in
    /// order.
    pub fn reap_zombies(&mut self) -> (r: Vec<(Pid, ExitCode)>)
        ensures
            r@ == zombies_of(old(self)@.entries),
            final(self)@ == (SchedView {
                entries: live_entries(old(self)@.entries),
                ..old(self)@
            }),
    {
        let ghost s = self.entries@;
        let ghost zp = |e: SchedEntry| is_zombie_entry(e);
        let ghost lp = |e: SchedEntry| !is_zombie_entry(e);
        let ghost f = |e: SchedEntry| (e.pid, zombie_code(e));
        let mut zombies: Vec<(Pid, ExitCode)> = Vec::new();
        let mut kept: Vec<SchedEntry> = Vec::new();
        let mut i: usize = 0;
        while i < self.entries.len()
            invariant
                self.entries@ == s,
                zp == (|e: SchedEntry| is_zombie_entry(e)),
                lp == (|e: SchedEntry| !is_zombie_entry(e)),
                f == (|e: SchedEntry| (e.pid, zombie_code(e))),
                i <= s.len(),
                zombies@ == s.take(i as int).filter(zp).map_values(f),
                kept@ == s.take(i as int).filter(lp),
            decreases s.len() - i,
        {
            proof {
                crate::seqs::lemma_filter_take_succ(s, i as int, zp);
                crate::seqs::lemma_filter_take_succ(s, i as int, lp);
            }
            let e = self.entries[i];
            match e.state {
                SchedState::Zombie(code) => {
                    proof {
                        let a = s.take(i as int).filter(zp);
                        assert(a.push(e).map_values(f) =~= a.map_values(f).push(f(e)));
                    }
                    zombies.push((e.pid, code));
                },
                _ => {
                    kept.push(e);
                },
            }
            i = i + 1;
        }
        proof {
            crate::seqs::lemma_take_full(s);
        }
        self.entries = kept;
        zombies
    }

    /// How many processes are ready or running.
    pub fn runnable_count(&self) -> (n: usize)
        ensures
            n == self@.entries.filter(|e: SchedEntry| runnable(e.state)).len(),
    {
        let ghost s = self.entries@;
        let ghost p = |e: SchedEntry| runnable(e.state);
        let mut n: usize = 0;
        let mut i: usize = 0;
        while i < self.entries.len()
            invariant
                self.entries@ == s,
                p == (|e: SchedEntry| runnable(e.state)),
                i <= s.len(),
                n == s.take(i as int).filter(p).len(),
                n <= i,
            decreases s.len() - i,
        {
            proof {
                crate::seqs::lemma_filter_take_succ(s, i as int, p);
            }
            if self.entries[i].is_runnable() {
                n = n + 1;
            }
            i = i + 1;
        }
        proof {
            crate::seqs::lemma_take_full(s);
        }
        n
    }

    pub fn entries(&self) -> (r: &[SchedEntry])
        ensures
            r@ == self@.entries,
    {
        self.entries.as_slice()
    }

    pub fn entry_count(&self) -> (n: usize)
        ensures
            n == self@.entries.len(),
    {
        self.entries.len()
    }

    pub fn timer_ticks(&self) -> (n: u64)
        ensures
            n == self@.timer_ticks,
    {
        self.timer_ticks
    }

    pub fn context_switches(&self) -> (n: u64)
        ensures
            n == self@.context_switches,
    {
        self.context_switches
    }

    pub fn preemptions(&self) -> (n: u64)
        ensures
            n == self@.preemptions,
    {
        self.preemptions
    }

    pub fn voluntary_yields(&self) -> (n: u64)
        ensures
            n == self@.voluntary_yields,
    {
        self.voluntary_yields
    }

    /// Whether any process is ready or running.
    pub fn has_runnable(&self) -> (r: bool)
        ensures
            r == exists|i: int| 0 <= i < self@.entries.len() && runnable(self@.entries[i].state),
    {
        let mut i: usize = 0;
        while i < self.entries.len()
            invariant
                i <= self.entries@.len(),
                forall|j: int| 0 <= j < i ==> !runnable(#[trigger] self.entries@[j].state),
            decreases self.entries@.len() - i,
        {
            if self.entries[i].is_runnable() {
                return true;
            }
            i = i + 1;
        }
        false
    }
}


proof fn lemma_first_of_min(s: Seq<SchedEntry>, cur: Option<Pid>, i: int)
    requires
        0 <= i < s.len(),
        candidate(s, cur, i),
        forall|j: int| 0 <= j < s.len() && candidate(s, cur, j) ==> s[i].priority <= #[trigger] s[j].priority,
    ensures
        exists|b: int| best_at(s, cur, b),
    decreases i,
{
    if exists|j: int| 0 <= j < i && candidate(s, cur, j) && s[j].priority == s[i].priority {
        let j = choose|j: int| 0 <= j < i && candidate(s, cur, j) && s[j].priority == s[i].priority;
        lemma_first_of_min(s, cur, j);
    } else {
        assert(best_at(s, cur, i));
    }
}

proof fn lemma_best_exists(s: Seq<SchedEntry>, cur: Option<Pid>, i: int)
    requires
        0 <= i < s.len(),
        candidate(s, cur, i),
    ensures
        exists|b: int| best_at(s, cur, b),
    decreases s[i].priority,
{
    if exists|j: int| 0 <= j < s.len() && candidate(s, cur, j) && s[j].priority < s[i].priority {
        let j = choose|j: int| 0 <= j < s.len() && candidate(s, cur, j) && s[j].priority < s[i].priority;
        lemma_best_exists(s, cur, j);
    } else {
        lemma_first_of_min(s, cur, i);
    }
}

/// The scheduler only picks a runnable process, of the highest priority among
/// those it may pick; and while another process than the running one is
/// runnable, it picks one of those: the running process does not keep the cpu.
pub proof fn law_pick_round_robin(s: Seq<SchedEntry>, cur: Option<Pid>)
    ensures
        pick(s, cur) matches Some(n) ==> 0 <= n < s.len() && runnable(s[n].state),
        (exists|j: int| 0 <= j < s.len() && candidate(s, cur, j)) ==> (pick(s, cur) matches Some(n) && candidate(
            s,
            cur,
            n,
        ) && forall|j: int| 0 <= j < s.len() && candidate(s, cur, j) ==> s[n].priority <= #[trigger] s[j].priority),
{
    if exists|j: int| 0 <= j < s.len() && candidate(s, cur, j) {
        let j = choose|j: int| 0 <= j < s.len() && candidate(s, cur, j);
        lemma_best_exists(s, cur, j);
    }
}

/// A scheduling decision that picks a process leaves it current, running and
/// with a full quantum, keeps every process (pids and priorities in order), and
/// counts one context switch whether or not it picks one.
pub proof fn law_schedule_runs_pick(v: SchedView, ctx: Option<UserContext>)
    requires
        v.context_switches < u64::MAX,
    ensures
        ({
            let (w, r) = schedule_step(v, ctx);
            &&& w.context_switches == v.context_switches + 1
            &&& w.entries.len() == v.entries.len()
            &&& forall|i: int| 0 <= i < v.entries.len() ==> (#[trigger] w.entries[i]).pid == v.entries[i].pid
                && w.entries[i].priority == v.entries[i].priority
            &&& r matches Some((p, c)) ==> {
                &&& w.current == Some(p)
                &&& exists|n: int|
                    0 <= n < w.entries.len() && w.entries[n].pid == p && w.entries[n].state is Running
                        && w.entries[n].quantum.ticks_remaining == w.entries[n].quantum.ticks_total
                        && c == w.entries[n].saved_ctx
            }
        }),
{
    let s1 = saved_current(v, ctx);
    match (v.current, ctx) {
        (Some(p), Some(c)) => {
            if has_pid(v.entries, p) {
                let k0 = choose|k0: int| 0 <= k0 < v.entries.len() && v.entries[k0].pid == p;
                lemma_first_exists(v.entries, p, k0);
            }
        },
        _ => {},
    }
    assert(s1.len() == v.entries.len());
    assert(forall|i: int| 0 <= i < s1.len() ==> (#[trigger] s1[i]).pid == v.entries[i].pid
        && s1[i].priority == v.entries[i].priority);
    law_pick_round_robin(s1, v.current);
    match pick(s1, v.current) {
        None => {},
        Some(n) => {
            let s2 = demoted(s1, v.current);
            match v.current {
                Some(p) => {
                    if has_pid(s1, p) {
                        let k0 = choose|k0: int| 0 <= k0 < s1.len() && s1[k0].pid == p;
                        lemma_first_exists(s1, p, k0);
                    }
                },
                None => {},
            }
            assert(s2.len() == s1.len());
            assert(forall|i: int| 0 <= i < s2.len() ==> (#[trigger] s2[i]).pid == s1[i].pid
                && s2[i].priority == s1[i].priority);
            let s3 = s2.update(n, started(s2[n]));
            let (w, r) = schedule_step(v, ctx);
            assert(w.entries == s3);
            assert(r == Some((s3[n].pid, s3[n].saved_ctx)));
            assert(w.entries[n].state is Running);
            assert(0 <= n < w.entries.len() && w.entries[n].pid == s3[n].pid && w.entries[n].quantum.ticks_remaining
                == w.entries[n].quantum.ticks_total && s3[n].saved_ctx == w.entries[n].saved_ctx);
            assert(forall|i: int| 0 <= i < v.entries.len() ==> (#[trigger] w.entries[i]).pid == v.entries[i].pid
                && w.entries[i].priority == v.entries[i].priority);
        },
    }
}

proof fn lemma_first_exists(s: Seq<SchedEntry>, pid: Pid, i: int)
    requires
        0 <= i < s.len(),
        s[i].pid == pid,
    ensures
        exists|k: int| first_at(s, pid, k),
    decreases i,
{
    if exists|j: int| 0 <= j < i && s[j].pid == pid {
        let j = choose|j: int| 0 <= j < i && s[j].pid == pid;
        lemma_first_exists(s, pid, j);
    } else {
        assert(first_at(s, pid, i));
    }
}

/// Reaping returns every exited process and leaves none behind.
pub proof fn law_reap_leaves_no_zombie(s: Seq<SchedEntry>)
    ensures
        forall|i: int| 0 <= i < live_entries(s).len() ==> !is_zombie_entry(#[trigger] live_entries(s)[i]),
        zombies_of(s).len() + live_entries(s).len() == s.len(),
{
    let lp = |e: SchedEntry| !is_zombie_entry(e);
    let zp = |e: SchedEntry| is_zombie_entry(e);
    assert forall|i: int| 0 <= i < live_entries(s).len() implies !is_zombie_entry(#[trigger] live_entries(s)[i]) by {
        s.filter_lemma(lp);
    }
    lemma_filter_split(s, zp, lp);
}

proof fn lemma_filter_split(s: Seq<SchedEntry>, zp: spec_fn(SchedEntry) -> bool, lp: spec_fn(SchedEntry) -> bool)
    requires
        forall|e: SchedEntry| #[trigger] lp(e) == !zp(e),
    ensures
        s.filter(zp).len() + s.filter(lp).len() == s.len(),
    decreases s.len(),
{
    reveal(Seq::filter);
    if s.len() > 0 {
        lemma_filter_split(s.drop_last(), zp, lp);
    }
}

} // verus!
