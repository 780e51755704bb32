//! Multi-threaded user processes: threads, thread groups, clone flags,
//! futex wait queues and userspace synchronisation helpers.

use vstd::prelude::*;
use crate::seqs::{lemma_take_succ, lemma_take_full, sum_nat, lemma_sum_take_succ, lemma_sum_take_le};

verus! {

// ─── Thread ID ────────────────────────────────────────────────────

/// Thread identifier.
#[derive(Clone, Copy, Debug, PartialEq, Eq, Structural, Hash)]
pub struct Tid(pub u64);

impl Tid {
    pub fn new(n: u64) -> (t: Self)
        ensures
            t.0 == n,
    {
        Tid(n)
    }

    pub fn as_u64(&self) -> (r: u64)
        ensures
            r == self.0,
    {
        self.0
    }

    pub fn is_zero(&self) -> (r: bool)
        ensures
            r == (self.0 == 0),
    {
        self.0 == 0
    }
}

// ─── Thread State ─────────────────────────────────────────────────

#[derive(Clone, Copy, Debug, PartialEq, Eq, Structural)]
pub enum ThreadState {
    Created,
    Ready,
    Running,
    Blocked(BlockReason),
    Exited(ExitCode),
}

#[derive(Clone, Copy, Debug, PartialEq, Eq, Structural)]
pub enum BlockReason {
    Futex,
    Signal,
    IoWait,
    Sleep,
    Stopped,
    Parked,
}

#[derive(Clone, Copy, Debug, PartialEq, Eq, Structural)]
pub enum ExitCode {
    Success,
    Error(u32),
    Killed(SignalType),
}

#[derive(Clone, Copy, Debug, PartialEq, Eq, Structural)]
pub enum SignalType {
    Kill,
    Term,
    Segv,
    Abort,
}

impl ExitCode {
    /// The numeric exit status: 0 for success, the error code reinterpreted as
    /// `i32` for errors, -1 for a kill.
    pub open spec fn code_spec(self) -> i32 {
        match self {
            ExitCode::Success => 0,
            ExitCode::Error(c) => c as i32,
            ExitCode::Killed(_) => -1i32,
        }
    }

    pub fn is_success(&self) -> (r: bool)
        ensures
            r == (*self is Success),
    {
        matches!(self, ExitCode::Success)
    }

    pub fn code(&self) -> (r: i32)
        ensures
            r == self.code_spec(),
    {
        match self {
            ExitCode::Success => 0,
            ExitCode::Error(c) => *c as i32,
            ExitCode::Killed(_) => -1,
        }
    }
}

// ─── Saved Registers ──────────────────────────────────────────────

#[derive(Clone, Copy, Debug)]
pub struct SavedRegs {
    pub rax: u64,
    pub rbx: u64,
    pub rcx: u64,
    pub rdx: u64,
    pub rsi: u64,
    pub rdi: u64,
    pub rbp: u64,
    pub rsp: u64,
    pub r8: u64,
    pub r9: u64,
    pub r10: u64,
    pub r11: u64,
    pub r12: u64,
    pub r13: u64,
    pub r14: u64,
    pub r15: u64,
    pub rip: u64,
    pub rflags: u64,
}

/// The interrupt flag (IF) set in RFLAGS, with the reserved bit 1.
pub const RFLAGS_IF: u64 = 0x202;

impl SavedRegs {
    /// All registers zero.
    pub open spec fn zeroed() -> SavedRegs {
        SavedRegs {
            rax: 0,
            rbx: 0,
            rcx: 0,
            rdx: 0,
            rsi: 0,
            rdi: 0,
            rbp: 0,
            rsp: 0,
            r8: 0,
            r9: 0,
            r10: 0,
            r11: 0,
            r12: 0,
            r13: 0,
            r14: 0,
            r15: 0,
            rip: 0,
            rflags: 0,
        }
    }

    /// Zeroed registers with a stack pointer, an entry point and interrupts enabled.
    pub open spec fn with_rsp_rip(rsp: u64, rip: u64) -> SavedRegs {
        SavedRegs { rsp: rsp, rip: rip, rflags: RFLAGS_IF, ..SavedRegs::zeroed() }
    }

    pub fn new() -> (r: Self)
        ensures
            r == SavedRegs::zeroed(),
    {
        SavedRegs {
            rax: 0,
            rbx: 0,
            rcx: 0,
            rdx: 0,
            rsi: 0,
            rdi: 0,
            rbp: 0,
            rsp: 0,
            r8: 0,
            r9: 0,
            r10: 0,
            r11: 0,
            r12: 0,
            r13: 0,
            r14: 0,
            r15: 0,
            rip: 0,
            rflags: 0,
        }
    }

    pub fn new_with_rsp_rip(rsp: u64, rip: u64) -> (r: Self)
        ensures
            r == SavedRegs::with_rsp_rip(rsp, rip),
    {
        let mut r = Self::new();
        r.rsp = rsp;
        r.rip = rip;
        r.rflags = RFLAGS_IF;
        r
    }
}

impl Default for SavedRegs {
    fn default() -> (r: Self)
        ensures
            r == SavedRegs::zeroed(),
    {
        Self::new()
    }
}

// ─── Thread-Local Storage ────────────────────────────────────────

#[derive(Debug)]
pub struct TlsBlock {
    pub addr: u64,
    pub size: usize,
    pub data: Vec<u8>,
}

impl TlsBlock {
    /// The backing bytes cover the declared size.
    pub open spec fn wf(&self) -> bool {
        self.data@.len() == self.size
    }

    pub fn new(size: usize) -> (t: Self)
        ensures
            t.addr == 0,
            t.size == size,
            t.data@ == Seq::new(size as nat, |i: int| 0u8),
    {
        let mut data: Vec<u8> = Vec::new();
        let mut i: usize = 0;
        while i < size
            invariant
                i <= size,
                data@ == Seq::new(i as nat, |k: int| 0u8),
            decreases size - i,
        {
            data.push(0u8);
            i = i + 1;
            assert(data@ =~= Seq::new(i as nat, |k: int| 0u8));
        }
        TlsBlock { addr: 0, size, data }
    }

    pub fn new_init(addr: u64, data: &[u8]) -> (t: Self)
        ensures
            t.addr == addr,
            t.size == data@.len(),
            t.data@ == data@,
    {
        let mut v: Vec<u8> = Vec::new();
        let mut i: usize = 0;
        while i < data.len()
            invariant
                i <= data@.len(),
                v@ == data@.take(i as int),
            decreases data@.len() - i,
        {
            proof { lemma_take_succ(data@, i as int); }
            v.push(data[i]);
            i = i + 1;
        }
        proof { lemma_take_full(data@); }
        TlsBlock { addr, size: data.len(), data: v }
    }

    pub fn write_at(&mut self, offset: usize, src: &[u8]) -> (r: Result<(), ThreadError>)
        requires
            old(self).wf(),
        ensures
            final(self).wf(),
            final(self).addr == old(self).addr,
            final(self).size == old(self).size,
            offset + src@.len() > old(self).size ==> r == Err::<(), ThreadError>(
                ThreadError::TlsOutOfBounds,
            ) && final(self).data@ == old(self).data@,
            offset + src@.len() <= old(self).size ==> r is Ok && final(self).data@ == old(
                self,
            ).data@.take(offset as int) + src@ + old(self).data@.skip(offset + src@.len()),
    {
        if offset > self.size || src.len() > self.size - offset {
            return Err(ThreadError::TlsOutOfBounds);
        }
        let mut i: usize = 0;
        let ghost d0 = self.data@;
        while i < src.len()
            invariant
                i <= src@.len(),
                offset + src@.len() <= d0.len(),
                self.data@.len() == d0.len(),
                self.size == d0.len(),
                self.addr == old(self).addr,
                forall|k: int| 0 <= k < offset ==> self.data@[k] == d0[k],
                forall|k: int| 0 <= k < i ==> self.data@[offset + k] == src@[k],
                forall|k: int| offset + i <= k < d0.len() ==> self.data@[k] == d0[k],
            decreases src@.len() - i,
        {
            self.data.set(offset + i, src[i]);
            i = i + 1;
        }
        assert(self.data@ =~= d0.take(offset as int) + src@ + d0.skip(offset + src@.len()));
        Ok(())
    }

    pub fn read_at(&self, offset: usize, len: usize) -> (r: Result<Vec<u8>, ThreadError>)
        requires
            self.wf(),
        ensures
            offset + len > self.size ==> r == Err::<Vec<u8>, ThreadError>(
                ThreadError::TlsOutOfBounds,
            ),
            offset + len <= self.size ==> (r matches Ok(v) && v@ == self.data@.subrange(
                offset as int,
                offset + len,
            )),
    {
        if offset > self.size || len > self.size - offset {
            return Err(ThreadError::TlsOutOfBounds);
        }
        let mut v: Vec<u8> = Vec::new();
        let mut i: usize = 0;
        while i < len
            invariant
                i <= len,
                offset + len <= self.data@.len(),
                self.data@.len() == self.size,
                v@ == self.data@.subrange(offset as int, offset + i),
            decreases len - i,
        {
            v.push(self.data[offset + i]);
            i = i + 1;
            assert(v@ =~= self.data@.subrange(offset as int, offset + i));
        }
        Ok(v)
    }
}

// ─── Thread ───────────────────────────────────────────────────────

/// Default stack size of a process's main thread (8 MiB).
pub const MAIN_STACK_SIZE: usize = 8388608;

#[derive(Debug)]
pub struct Thread {
    pub tid: Tid,
    pub pid: u64,
    pub state: ThreadState,
    pub regs: SavedRegs,
    pub stack_top: u64,
    pub stack_size: usize,
    pub tls: Option<TlsBlock>,
    pub user_arg: u64,
    pub exit_code: Option<ExitCode>,
    pub create_time_ns: u64,
    pub cpu_time_ns: u64,
    pub futex_addr: Option<u64>,
}

/// Every state but `Exited`: a thread counts as alive from its creation until it exits.
pub open spec fn alive_state(s: ThreadState) -> bool {
    !(s is Exited)
}

impl Thread {
    pub open spec fn is_alive_spec(&self) -> bool {
        alive_state(self.state)
    }

    pub open spec fn is_exited_spec(&self) -> bool {
        self.state is Exited
    }

    /// The thread after it exits with `code`.
    pub open spec fn exited(self, code: ExitCode) -> Thread {
        Thread { exit_code: Some(code), state: ThreadState::Exited(code), ..self }
    }

    /// The thread in state `s`.
    pub open spec fn in_state(self, s: ThreadState) -> Thread {
        Thread { state: s, ..self }
    }

    /// A freshly created thread: no TLS, zero times, no futex.
    pub open spec fn fresh_fields(&self) -> bool {
        &&& self.tls is None
        &&& self.user_arg == 0
        &&& self.exit_code is None
        &&& self.create_time_ns == 0
        &&& self.cpu_time_ns == 0
        &&& self.futex_addr is None
    }

    pub fn new(tid: Tid, pid: u64, stack_top: u64, stack_size: usize) -> (t: Self)
        ensures
            t.tid == tid,
            t.pid == pid,
            t.state == ThreadState::Created,
            t.regs == SavedRegs::zeroed(),
            t.stack_top == stack_top,
            t.stack_size == stack_size,
            t.fresh_fields(),
    {
        Thread {
            tid,
            pid,
            state: ThreadState::Created,
            regs: SavedRegs::new(),
            stack_top,
            stack_size,
            tls: None,
            user_arg: 0,
            exit_code: None,
            create_time_ns: 0,
            cpu_time_ns: 0,
            futex_addr: None,
        }
    }

    pub fn new_main(pid: u64, rsp: u64, rip: u64) -> (t: Self)
        ensures
            t.tid == Tid(pid),
            t.pid == pid,
            t.state == ThreadState::Running,
            t.regs == SavedRegs::with_rsp_rip(rsp, rip),
            t.stack_top == rsp,
            t.stack_size == MAIN_STACK_SIZE,
            t.fresh_fields(),
    {
        Thread {
            tid: Tid(pid),
            pid,
            state: ThreadState::Running,
            regs: SavedRegs::new_with_rsp_rip(rsp, rip),
            stack_top: rsp,
            stack_size: MAIN_STACK_SIZE,
            tls: None,
            user_arg: 0,
            exit_code: None,
            create_time_ns: 0,
            cpu_time_ns: 0,
            futex_addr: None,
        }
    }

    pub fn is_alive(&self) -> (r: bool)
        ensures
            r == self.is_alive_spec(),
    {
        !matches!(self.state, ThreadState::Exited(_))
    }

    pub fn is_exited(&self) -> (r: bool)
        ensures
            r == self.is_exited_spec(),
    {
        matches!(self.state, ThreadState::Exited(_))
    }

    pub fn set_blocked(&mut self, reason: BlockReason)
        ensures
            *final(self) == old(self).in_state(ThreadState::Blocked(reason)),
    {
        self.state = ThreadState::Blocked(reason);
    }

    pub fn set_ready(&mut self)
        ensures
            *final(self) == old(self).in_state(ThreadState::Ready),
    {
        self.state = ThreadState::Ready;
    }

    pub fn set_running(&mut self)
        ensures
            *final(self) == old(self).in_state(ThreadState::Running),
    {
        self.state = ThreadState::Running;
    }

    pub fn exit(&mut self, code: ExitCode)
        ensures
            *final(self) == old(self).exited(code),
    {
        self.exit_code = Some(code);
        self.state = ThreadState::Exited(code);
    }

    pub fn set_tls(&mut self, tls: TlsBlock)
        ensures
            *final(self) == (Thread { tls: Some(tls), ..*old(self) }),
    {
        self.tls = Some(tls);
    }

    pub fn tick_cpu(&mut self, ns: u64)
        requires
            old(self).cpu_time_ns + ns <= u64::MAX,
        ensures
            *final(self) == (Thread { cpu_time_ns: (old(self).cpu_time_ns + ns) as u64, ..*old(self) }),
    {
        self.cpu_time_ns = self.cpu_time_ns + ns;
    }
}

// ─── Thread searches ─────────────────────────────────────────────

/// `i` is the first position of a thread with identifier `tid`.
pub open spec fn tid_first_at(s: Seq<Thread>, tid: Tid, i: int) -> bool {
    &&& 0 <= i < s.len()
    &&& s[i].tid == tid
    &&& forall|j: int| 0 <= j < i ==> s[j].tid != tid
}

/// Some thread in `s` has identifier `tid`.
pub open spec fn has_tid(s: Seq<Thread>, tid: Tid) -> bool {
    exists|i: int| 0 <= i < s.len() && s[i].tid == tid
}

/// The first position of `tid` in `s`, found left to right.
pub fn thread_position(s: &Vec<Thread>, tid: Tid) -> (r: Option<usize>)
    ensures
        match r {
            Some(i) => tid_first_at(s@, tid, i as int),
            None => !has_tid(s@, tid),
        },
{
    let mut i: usize = 0;
    while i < s.len()
        invariant
            i <= s@.len(),
            forall|j: int| 0 <= j < i ==> s@[j].tid != tid,
        decreases s@.len() - i,
    {
        if s[i].tid == tid {
            return Some(i);
        }
        i = i + 1;
    }
    None
}

/// Threads that are alive.
pub open spec fn alive_pred() -> spec_fn(Thread) -> bool {
    |t: Thread| t.is_alive_spec()
}

/// Threads that have exited.
pub open spec fn exited_pred() -> spec_fn(Thread) -> bool {
    |t: Thread| t.is_exited_spec()
}

/// Threads that are ready or running.
pub open spec fn runnable_pred() -> spec_fn(Thread) -> bool {
    |t: Thread| t.state is Ready || t.state is Running
}

/// Threads that reaping removes: exited threads other than the main one.
pub open spec fn reap_pred(main: Tid) -> spec_fn(Thread) -> bool {
    |t: Thread| t.is_exited_spec() && t.tid != main
}

/// Threads that reaping keeps.
pub open spec fn keep_pred(main: Tid) -> spec_fn(Thread) -> bool {
    |t: Thread| !(t.is_exited_spec() && t.tid != main)
}

/// Counts the threads of `s` that satisfy `p`, left to right.
fn count_threads(s: &Vec<Thread>, p: Ghost<spec_fn(Thread) -> bool>, which: u8) -> (r: usize)
    requires
        which == 0 ==> p@ == alive_pred(),
        which == 1 ==> p@ == runnable_pred(),
        which <= 1,
    ensures
        r == s@.filter(p@).len(),
{
    let mut n: usize = 0;
    let mut i: usize = 0;
    while i < s.len()
        invariant
            i <= s@.len(),
            which == 0 ==> p@ == alive_pred(),
            which == 1 ==> p@ == runnable_pred(),
            which <= 1,
            n == s@.take(i as int).filter(p@).len(),
            n <= i,
        decreases s@.len() - i,
    {
        proof {
            crate::seqs::lemma_filter_take_succ(s@, i as int, p@);
        }
        let hit = if which == 0 {
            s[i].is_alive()
        } else {
            matches!(s[i].state, ThreadState::Ready | ThreadState::Running)
        };
        if hit {
            n = n + 1;
        }
        i = i + 1;
    }
    proof {
        lemma_take_full(s@);
    }
    n
}

// ─── Thread Group ─────────────────────────────────────────────────

#[derive(Debug)]
pub struct ThreadGroup {
    pub pid: u64,
    pub threads: Vec<Thread>,
    pub next_tid: u64,
    pub main_tid: Tid,
}

impl ThreadGroup {
    pub fn new(pid: u64, main_thread: Thread) -> (g: Self)
        requires
            pid < u64::MAX,
        ensures
            g.pid == pid,
            g.threads@ == seq![main_thread],
            g.next_tid == pid + 1,
            g.main_tid == main_thread.tid,
    {
        let main_tid = main_thread.tid;
        let mut threads: Vec<Thread> = Vec::new();
        threads.push(main_thread);
        ThreadGroup { pid, threads, next_tid: pid + 1, main_tid }
    }

    pub fn get_thread(&self, tid: Tid) -> (r: Option<&Thread>)
        ensures
            match r {
                Some(t) => exists|i: int| tid_first_at(self.threads@, tid, i) && *t == self.threads@[i],
                None => !has_tid(self.threads@, tid),
            },
    {
        match thread_position(&self.threads, tid) {
            Some(i) => Some(&self.threads[i]),
            None => None,
        }
    }

    pub fn get_thread_mut(&mut self, tid: Tid) -> (r: Option<&mut Thread>)
        ensures
            final(self).pid == old(self).pid,
            final(self).next_tid == old(self).next_tid,
            final(self).main_tid == old(self).main_tid,
            match r {
                Some(t) => exists|i: int|
                    tid_first_at(old(self).threads@, tid, i) && *t == old(self).threads@[i]
                        && final(self).threads@ == old(self).threads@.update(i, *final(t)),
                None => !has_tid(old(self).threads@, tid) && *final(self) == *old(self),
            },
    {
        match thread_position(&self.threads, tid) {
            Some(i) => Some(&mut self.threads[i]),
            None => None,
        }
    }

    pub fn alloc_tid(&mut self) -> (t: Tid)
        requires
            old(self).next_tid < u64::MAX,
        ensures
            t == Tid(old(self).next_tid),
            *final(self) == (ThreadGroup { next_tid: (old(self).next_tid + 1) as u64, ..*old(self) }),
    {
        let t = Tid(self.next_tid);
        self.next_tid = self.next_tid + 1;
        t
    }

    pub fn add_thread(&mut self, thread: Thread) -> (t: Tid)
        ensures
            t == thread.tid,
            final(self).threads@ == old(self).threads@.push(thread),
            final(self).pid == old(self).pid,
            final(self).next_tid == old(self).next_tid,
            final(self).main_tid == old(self).main_tid,
    {
        let tid = thread.tid;
        self.threads.push(thread);
        tid
    }

    pub fn remove_thread(&mut self, tid: Tid) -> (r: Option<Thread>)
        ensures
            final(self).pid == old(self).pid,
            final(self).next_tid == old(self).next_tid,
            final(self).main_tid == old(self).main_tid,
            tid == old(self).main_tid || !has_tid(old(self).threads@, tid) ==> r is None
                && final(self).threads@ == old(self).threads@,
            tid != old(self).main_tid && has_tid(old(self).threads@, tid) ==> exists|i: int|
                tid_first_at(old(self).threads@, tid, i) && r == Some(old(self).threads@[i])
                    && final(self).threads@ == old(self).threads@.remove(i),
    {
        if tid == self.main_tid {
            return None;
        }
        match thread_position(&self.threads, tid) {
            Some(i) => Some(self.threads.remove(i)),
            None => None,
        }
    }

    pub fn alive_threads(&self) -> (r: usize)
        ensures
            r == self.threads@.filter(alive_pred()).len(),
    {
        count_threads(&self.threads, Ghost(alive_pred()), 0)
    }

    pub fn exited_threads(&self) -> (r: Vec<Tid>)
        ensures
            r@ == self.threads@.filter(exited_pred()).map_values(|t: Thread| t.tid),
    {
        let mut out: Vec<Tid> = Vec::new();
        let mut i: usize = 0;
        while i < self.threads.len()
            invariant
                i <= self.threads@.len(),
                out@ == self.threads@.take(i as int).filter(exited_pred()).map_values(
                    |t: Thread| t.tid,
                ),
            decreases self.threads@.len() - i,
        {
            proof {
                crate::seqs::lemma_filter_take_succ(self.threads@, i as int, exited_pred());
            }
            if self.threads[i].is_exited() {
                out.push(self.threads[i].tid);
                proof {
                    let f = self.threads@.take(i as int).filter(exited_pred());
                    assert(f.push(self.threads@[i as int]).map_values(|t: Thread| t.tid)
                        =~= f.map_values(|t: Thread| t.tid).push(self.threads@[i as int].tid));
                }
            }
            i = i + 1;
        }
        proof {
            lemma_take_full(self.threads@);
        }
        out
    }

    pub fn reap_exited(&mut self) -> (r: Vec<Thread>)
        ensures
            final(self).pid == old(self).pid,
            final(self).next_tid == old(self).next_tid,
            final(self).main_tid == old(self).main_tid,
            final(self).threads@ == old(self).threads@.filter(keep_pred(old(self).main_tid)),
            r@ == old(self).threads@.filter(reap_pred(old(self).main_tid)),
    {
        let mut rest: Vec<Thread> = Vec::new();
        std::mem::swap(&mut rest, &mut self.threads);
        let ghost all = rest@;
        let main = self.main_tid;
        let mut reaped: Vec<Thread> = Vec::new();
        let mut i: usize = 0;
        let n = rest.len();
        while i < n
            invariant
                n == all.len(),
                i <= n,
                rest@ == all.skip(i as int),
                self.threads@ == all.take(i as int).filter(keep_pred(main)),
                reaped@ == all.take(i as int).filter(reap_pred(main)),
                self.pid == old(self).pid,
                self.next_tid == old(self).next_tid,
                self.main_tid == main,
                main == old(self).main_tid,
                all == old(self).threads@,
            decreases n - i,
        {
            proof {
                crate::seqs::lemma_filter_take_succ(all, i as int, keep_pred(main));
                crate::seqs::lemma_filter_take_succ(all, i as int, reap_pred(main));
            }
            let t = rest.remove(0);
            assert(t == all[i as int]);
            if t.is_exited() && t.tid != main {
                reaped.push(t);
            } else {
                self.threads.push(t);
            }
            i = i + 1;
            assert(rest@ =~= all.skip(i as int));
        }
        proof {
            lemma_take_full(all);
        }
        reaped
    }

    pub fn thread_count(&self) -> (r: usize)
        ensures
            r == self.threads@.len(),
    {
        self.threads.len()
    }

    pub fn ready_count(&self) -> (r: usize)
        ensures
            r == self.threads@.filter(runnable_pred()).len(),
    {
        count_threads(&self.threads, Ghost(runnable_pred()), 1)
    }
}

// ─── Clone Flags ──────────────────────────────────────────────────

/// Flags of the clone() system call, one bit each.
#[derive(Clone, Copy, Debug, PartialEq, Eq, Structural)]
pub struct CloneFlags {
    pub bits: u64,
}

/// CLONE_VM — share memory space.
pub const CLONE_VM: u64 = 0x1;
/// CLONE_FS — share cwd/root.
pub const CLONE_FS: u64 = 0x2;
/// CLONE_FILES — share the fd table.
pub const CLONE_FILES: u64 = 0x4;
/// CLONE_SIGHAND — share signal handlers.
pub const CLONE_SIGHAND: u64 = 0x8;
/// CLONE_PARENT — same parent.
pub const CLONE_PARENT: u64 = 0x10;
/// CLONE_THREAD — same thread group.
pub const CLONE_THREAD: u64 = 0x20;
/// CLONE_NEWNS — new mount namespace.
pub const CLONE_NEWNS: u64 = 0x40;
/// CLONE_SYSVSEM — share SysV semaphores.
pub const CLONE_SYSVSEM: u64 = 0x80;
/// CLONE_SETTLS — set the TLS area.
pub const CLONE_SETTLS: u64 = 0x100;
/// CLONE_PARENT_SETTID.
pub const CLONE_PARENT_SETTID: u64 = 0x200;
/// CLONE_CHILD_CLEARTID.
pub const CLONE_CHILD_CLEARTID: u64 = 0x400;
/// CLONE_CHILD_SETTID.
pub const CLONE_CHILD_SETTID: u64 = 0x800;
/// CLONE_VFORK.
pub const CLONE_VFORK: u64 = 0x1000;
/// CLONE_IO — share the i/o context.
pub const CLONE_IO: u64 = 0x2000;

/// The flags a new thread of the same process is created with.
pub const DEFAULT_THREAD_FLAGS: u64 = 0x2f;

impl CloneFlags {
    /// Whether every bit of `flag` is set.
    pub open spec fn has(self, flag: u64) -> bool {
        self.bits & flag == flag
    }

    pub fn from_bits(bits: u64) -> (f: Self)
        ensures
            f.bits == bits,
    {
        CloneFlags { bits }
    }

    pub fn bits(&self) -> (r: u64)
        ensures
            r == self.bits,
    {
        self.bits
    }

    pub fn empty() -> (f: Self)
        ensures
            f.bits == 0,
    {
        CloneFlags { bits: 0 }
    }

    pub fn settls() -> (f: Self)
        ensures
            f.bits == CLONE_SETTLS,
    {
        CloneFlags { bits: CLONE_SETTLS }
    }

    pub fn union(self, other: CloneFlags) -> (f: Self)
        ensures
            f.bits == self.bits | other.bits,
    {
        CloneFlags { bits: self.bits | other.bits }
    }

    pub fn contains(&self, other: CloneFlags) -> (r: bool)
        ensures
            r == self.has(other.bits),
    {
        self.bits & other.bits == other.bits
    }

    pub fn default_thread() -> (f: Self)
        ensures
            f.bits == CLONE_VM | CLONE_FS | CLONE_FILES | CLONE_SIGHAND | CLONE_THREAD,
            f.bits == DEFAULT_THREAD_FLAGS,
    {
        assert(CLONE_VM | CLONE_FS | CLONE_FILES | CLONE_SIGHAND | CLONE_THREAD == 0x2f)
            by (bit_vector);
        CloneFlags { bits: CLONE_VM | CLONE_FS | CLONE_FILES | CLONE_SIGHAND | CLONE_THREAD }
    }

    pub fn default_process() -> (f: Self)
        ensures
            f.bits == 0,
    {
        CloneFlags::empty()
    }

    pub fn is_thread(&self) -> (r: bool)
        ensures
            r == self.has(CLONE_THREAD),
    {
        self.bits & CLONE_THREAD == CLONE_THREAD
    }

    pub fn shares_vm(&self) -> (r: bool)
        ensures
            r == self.has(CLONE_VM),
    {
        self.bits & CLONE_VM == CLONE_VM
    }

    pub fn shares_files(&self) -> (r: bool)
        ensures
            r == self.has(CLONE_FILES),
    {
        self.bits & CLONE_FILES == CLONE_FILES
    }

    pub fn sets_tls(&self) -> (r: bool)
        ensures
            r == self.has(CLONE_SETTLS),
    {
        self.bits & CLONE_SETTLS == CLONE_SETTLS
    }
}

// ─── Futex ────────────────────────────────────────────────────────

/// The bitset that matches every waker.
pub const FUTEX_BITSET_MATCH_ANY: u32 = 0xFFFFFFFF;

#[derive(Clone, Copy, Debug, PartialEq, Eq, Structural)]
pub struct FutexWaiter {
    pub tid: Tid,
    pub pid: u64,
    pub addr: u64,
    pub val: u32,
    pub bitset: u32,
    pub queued_ns: u64,
}

impl FutexWaiter {
    pub fn new(tid: Tid, pid: u64, addr: u64, val: u32) -> (w: Self)
        ensures
            w == (FutexWaiter {
                tid: tid,
                pid: pid,
                addr: addr,
                val: val,
                bitset: FUTEX_BITSET_MATCH_ANY,
                queued_ns: 0,
            }),
    {
        FutexWaiter { tid, pid, addr, val, bitset: FUTEX_BITSET_MATCH_ANY, queued_ns: 0 }
    }

    pub fn new_bitset(tid: Tid, pid: u64, addr: u64, val: u32, bitset: u32) -> (w: Self)
        ensures
            w == (FutexWaiter {
                tid: tid,
                pid: pid,
                addr: addr,
                val: val,
                bitset: bitset,
                queued_ns: 0,
            }),
    {
        FutexWaiter { tid, pid, addr, val, bitset, queued_ns: 0 }
    }
}

/// Wakes waiters left to right: a waiter that `hit` selects is woken while fewer than
/// `max` have been; the result is the remaining queue and the number woken.
pub open spec fn wake_scan(s: Seq<FutexWaiter>, hit: spec_fn(FutexWaiter) -> bool, max: nat) -> (
    Seq<FutexWaiter>,
    nat,
)
    decreases s.len(),
{
    if s.len() == 0 {
        (s, 0)
    } else {
        let (kept, woken) = wake_scan(s.drop_last(), hit, max);
        if hit(s.last()) && woken < max {
            (kept, woken + 1)
        } else {
            (kept.push(s.last()), woken)
        }
    }
}

/// Waiters on `addr`.
pub open spec fn at_addr(addr: u64) -> spec_fn(FutexWaiter) -> bool {
    |w: FutexWaiter| w.addr == addr
}

/// Waiters on `addr` whose bitset shares a bit with `bitset`.
pub open spec fn at_addr_bits(addr: u64, bitset: u32) -> spec_fn(FutexWaiter) -> bool {
    |w: FutexWaiter| w.addr == addr && w.bitset & bitset != 0
}

/// The requeue pass: of the waiters on `a1`, the first `max_wake` are counted as woken and
/// the next `max_requeue` are moved to `a2`; the result holds the new queue, the number
/// counted as woken and the number moved.
pub open spec fn requeue_scan(s: Seq<FutexWaiter>, a1: u64, a2: u64, max_wake: nat, max_requeue: nat) -> (
    Seq<FutexWaiter>,
    nat,
    nat,
)
    decreases s.len(),
{
    if s.len() == 0 {
        (s, 0, 0)
    } else {
        let (q, w, r) = requeue_scan(s.drop_last(), a1, a2, max_wake, max_requeue);
        let x = s.last();
        if x.addr == a1 {
            if w < max_wake {
                (q.push(x), w + 1, r)
            } else if r < max_requeue {
                (q.push(FutexWaiter { addr: a2, ..x }), w, r + 1)
            } else {
                (q.push(x), w, r)
            }
        } else {
            (q.push(x), w, r)
        }
    }
}

/// Waiters not owned by process `pid`.
pub open spec fn not_of_pid(pid: u64) -> spec_fn(FutexWaiter) -> bool {
    |w: FutexWaiter| w.pid != pid
}

/// The first waiter of thread `tid` is at position `i`.
pub open spec fn waiter_first_at(s: Seq<FutexWaiter>, tid: Tid, i: int) -> bool {
    &&& 0 <= i < s.len()
    &&& s[i].tid == tid
    &&& forall|j: int| 0 <= j < i ==> s[j].tid != tid
}

/// Some waiter belongs to thread `tid`.
pub open spec fn has_waiter(s: Seq<FutexWaiter>, tid: Tid) -> bool {
    exists|i: int| 0 <= i < s.len() && s[i].tid == tid
}

/// The removal of the first waiter of `tid`, if any.
pub open spec fn without_waiter(s: Seq<FutexWaiter>, tid: Tid) -> Seq<FutexWaiter> {
    if has_waiter(s, tid) {
        s.remove(choose|i: int| waiter_first_at(s, tid, i))
    } else {
        s
    }
}

proof fn lemma_wake_scan_len(s: Seq<FutexWaiter>, hit: spec_fn(FutexWaiter) -> bool, max: nat)
    ensures
        wake_scan(s, hit, max).1 <= max,
        wake_scan(s, hit, max).0.len() + wake_scan(s, hit, max).1 == s.len(),
    decreases s.len(),
{
    if s.len() > 0 {
        lemma_wake_scan_len(s.drop_last(), hit, max);
    }
}

proof fn lemma_wake_scan_step(s: Seq<FutexWaiter>, i: int, hit: spec_fn(FutexWaiter) -> bool, max: nat)
    requires
        0 <= i < s.len(),
    ensures
        wake_scan(s.take(i + 1), hit, max) == ({
            let (kept, woken) = wake_scan(s.take(i), hit, max);
            if hit(s[i]) && woken < max {
                (kept, woken + 1)
            } else {
                (kept.push(s[i]), woken)
            }
        }),
{
    lemma_take_succ(s, i);
    assert(s.take(i + 1).drop_last() =~= s.take(i));
}

proof fn lemma_waiter_position_unique(s: Seq<FutexWaiter>, tid: Tid, i: int)
    requires
        waiter_first_at(s, tid, i),
    ensures
        has_waiter(s, tid),
        (choose|j: int| waiter_first_at(s, tid, j)) == i,
{
    let j = choose|j: int| waiter_first_at(s, tid, j);
    assert(waiter_first_at(s, tid, j));
    if j < i {
        assert(s[j].tid != tid);
    } else if i < j {
        assert(s[i].tid != tid);
    }
}

#[derive(Debug)]
pub struct FutexTable {
    waiters: Vec<FutexWaiter>,
    next_key: u64,
}

impl View for FutexTable {
    type V = Seq<FutexWaiter>;

    /// The queue of waiters, oldest first.
    closed spec fn view(&self) -> Seq<FutexWaiter> {
        self.waiters@
    }
}

impl Default for FutexTable {
    fn default() -> (t: Self)
        ensures
            t@ == Seq::<FutexWaiter>::empty(),
    {
        FutexTable { waiters: Vec::new(), next_key: 0 }
    }
}

impl FutexTable {
    pub fn new() -> (t: Self)
        ensures
            t@ == Seq::<FutexWaiter>::empty(),
    {
        FutexTable { waiters: Vec::new(), next_key: 1 }
    }

    /// Queues the caller if the futex word still holds `val`.
    pub fn wait(&mut self, tid: Tid, pid: u64, addr: u64, val: u32, current_val: u32) -> (r: Result<bool, ThreadError>)
        ensures
            current_val != val ==> r == Ok::<bool, ThreadError>(false) && final(self)@ == old(self)@,
            current_val == val ==> r == Ok::<bool, ThreadError>(true) && final(self)@ == old(
                self,
            )@.push(
                FutexWaiter {
                    tid: tid,
                    pid: pid,
                    addr: addr,
                    val: val,
                    bitset: FUTEX_BITSET_MATCH_ANY,
                    queued_ns: 0,
                },
            ),
    {
        if current_val != val {
            return Ok(false);
        }
        let waiter = FutexWaiter::new(tid, pid, addr, val);
        self.waiters.push(waiter);
        Ok(true)
    }

    pub fn wait_bitset(&mut self, tid: Tid, pid: u64, addr: u64, val: u32, bitset: u32, current_val: u32) -> (r: Result<bool, ThreadError>)
        ensures
            current_val != val ==> r == Ok::<bool, ThreadError>(false) && final(self)@ == old(self)@,
            current_val == val ==> r == Ok::<bool, ThreadError>(true) && final(self)@ == old(
                self,
            )@.push(
                FutexWaiter {
                    tid: tid,
                    pid: pid,
                    addr: addr,
                    val: val,
                    bitset: bitset,
                    queued_ns: 0,
                },
            ),
    {
        if current_val != val {
            return Ok(false);
        }
        let waiter = FutexWaiter::new_bitset(tid, pid, addr, val, bitset);
        self.waiters.push(waiter);
        Ok(true)
    }

    /// Removes the first `max_count` waiters that `hit` selects (`which` 0: by address,
    /// 1: by address and bitset).
    fn wake_where(&mut self, addr: u64, max_count: usize, bitset: u32, which: u8, hit: Ghost<spec_fn(FutexWaiter) -> bool>) -> (r: usize)
        requires
            which == 0 ==> hit@ == at_addr(addr),
            which == 1 ==> hit@ == at_addr_bits(addr, bitset),
            which <= 1,
        ensures
            (final(self)@, r as nat) == wake_scan(old(self)@, hit@, max_count as nat),
    {
        let mut rest: Vec<FutexWaiter> = Vec::new();
        std::mem::swap(&mut rest, &mut self.waiters);
        let ghost all = rest@;
        let mut woken: usize = 0;
        let mut i: usize = 0;
        while i < rest.len()
            invariant
                all == old(self)@,
                rest@ == all,
                i <= all.len(),
                which == 0 ==> hit@ == at_addr(addr),
                which == 1 ==> hit@ == at_addr_bits(addr, bitset),
                which <= 1,
                (self.waiters@, woken as nat) == wake_scan(all.take(i as int), hit@, max_count as nat),
            decreases all.len() - i,
        {
            proof {
                lemma_wake_scan_step(all, i as int, hit@, max_count as nat);
                lemma_wake_scan_len(all.take(i as int), hit@, max_count as nat);
            }
            let w = rest[i];
            let selected = if which == 0 {
                w.addr == addr
            } else {
                w.addr == addr && (w.bitset & bitset) != 0
            };
            if selected && woken < max_count {
                woken = woken + 1;
            } else {
                self.waiters.push(w);
            }
            i = i + 1;
        }
        proof {
            lemma_take_full(all);
        }
        woken
    }

    pub fn wake(&mut self, addr: u64, max_count: usize) -> (r: usize)
        ensures
            (final(self)@, r as nat) == wake_scan(old(self)@, at_addr(addr), max_count as nat),
    {
        self.wake_where(addr, max_count, 0, 0, Ghost(at_addr(addr)))
    }

    pub fn wake_bitset(&mut self, addr: u64, max_count: usize, bitset: u32) -> (r: usize)
        ensures
            (final(self)@, r as nat) == wake_scan(
                old(self)@,
                at_addr_bits(addr, bitset),
                max_count as nat,
            ),
    {
        self.wake_where(addr, max_count, bitset, 1, Ghost(at_addr_bits(addr, bitset)))
    }

    /// Wakes up to `max_wake` waiters on `addr1` and moves up to `max_requeue` of the
    /// following ones to `addr2`; returns how many were woken and how many moved.
    pub fn requeue(&mut self, addr1: u64, addr2: u64, max_wake: usize, max_requeue: usize) -> (r: (usize, usize))
        ensures
            ({
                let (q, w, m) = requeue_scan(
                    old(self)@,
                    addr1,
                    addr2,
                    max_wake as nat,
                    max_requeue as nat,
                );
                &&& r.0 == w
                &&& r.1 == m
                &&& final(self)@ == wake_scan(q, at_addr(addr1), w).0
            }),
    {
        let mut rest: Vec<FutexWaiter> = Vec::new();
        std::mem::swap(&mut rest, &mut self.waiters);
        let ghost all = rest@;
        let mut woken: usize = 0;
        let mut requeued: usize = 0;
        let mut i: usize = 0;
        while i < rest.len()
            invariant
                all == old(self)@,
                rest@ == all,
                i <= all.len(),
                (self.waiters@, woken as nat, requeued as nat) == requeue_scan(
                    all.take(i as int),
                    addr1,
                    addr2,
                    max_wake as nat,
                    max_requeue as nat,
                ),
                woken <= max_wake,
                requeued <= max_requeue,
            decreases all.len() - i,
        {
            proof {
                lemma_take_succ(all, i as int);
                assert(all.take(i + 1).drop_last() =~= all.take(i as int));
            }
            let w = rest[i];
            if w.addr == addr1 {
                if woken < max_wake {
                    woken = woken + 1;
                    self.waiters.push(w);
                } else if requeued < max_requeue {
                    self.waiters.push(FutexWaiter { addr: addr2, ..w });
                    requeued = requeued + 1;
                } else {
                    self.waiters.push(w);
                }
            } else {
                self.waiters.push(w);
            }
            i = i + 1;
        }
        proof {
            lemma_take_full(all);
        }
        let ghost q = self.waiters@;
        self.wake_where(addr1, woken, 0, 0, Ghost(at_addr(addr1)));
        (woken, requeued)
    }

    pub fn waiting_count(&self) -> (r: usize)
        ensures
            r == self@.len(),
    {
        self.waiters.len()
    }

    pub fn waiting_at(&self, addr: u64) -> (r: usize)
        ensures
            r == self@.filter(at_addr(addr)).len(),
    {
        let mut n: usize = 0;
        let mut i: usize = 0;
        while i < self.waiters.len()
            invariant
                i <= self.waiters@.len(),
                n == self.waiters@.take(i as int).filter(at_addr(addr)).len(),
                n <= i,
            decreases self.waiters@.len() - i,
        {
            proof {
                crate::seqs::lemma_filter_take_succ(self.waiters@, i as int, at_addr(addr));
            }
            if self.waiters[i].addr == addr {
                n = n + 1;
            }
            i = i + 1;
        }
        proof {
            lemma_take_full(self.waiters@);
        }
        n
    }

    fn waiter_position(&self, tid: Tid) -> (r: Option<usize>)
        ensures
            match r {
                Some(i) => waiter_first_at(self@, tid, i as int),
                None => !has_waiter(self@, tid),
            },
    {
        let mut i: usize = 0;
        while i < self.waiters.len()
            invariant
                i <= self.waiters@.len(),
                forall|j: int| 0 <= j < i ==> self.waiters@[j].tid != tid,
            decreases self.waiters@.len() - i,
        {
            if self.waiters[i].tid == tid {
                return Some(i);
            }
            i = i + 1;
        }
        None
    }

    pub fn waiting_for(&self, tid: Tid) -> (r: bool)
        ensures
            r == has_waiter(self@, tid),
    {
        self.waiter_position(tid).is_some()
    }

    pub fn remove_waiter(&mut self, tid: Tid) -> (r: bool)
        ensures
            r == has_waiter(old(self)@, tid),
            final(self)@ == without_waiter(old(self)@, tid),
    {
        match self.waiter_position(tid) {
            Some(i) => {
                proof {
                    lemma_waiter_position_unique(self@, tid, i as int);
                }
                self.waiters.remove(i);
                true
            },
            None => false,
        }
    }

    pub fn clear_pid(&mut self, pid: u64) -> (r: usize)
        ensures
            final(self)@ == old(self)@.filter(not_of_pid(pid)),
            r == old(self)@.len() - old(self)@.filter(not_of_pid(pid)).len(),
    {
        let mut rest: Vec<FutexWaiter> = Vec::new();
        std::mem::swap(&mut rest, &mut self.waiters);
        let ghost all = rest@;
        let before = rest.len();
        let mut i: usize = 0;
        while i < rest.len()
            invariant
                all == old(self)@,
                rest@ == all,
                before == all.len(),
                i <= all.len(),
                self.waiters@ == all.take(i as int).filter(not_of_pid(pid)),
                self.waiters@.len() <= i,
            decreases all.len() - i,
        {
            proof {
                crate::seqs::lemma_filter_take_succ(all, i as int, not_of_pid(pid));
            }
            if rest[i].pid != pid {
                self.waiters.push(rest[i]);
            }
            i = i + 1;
        }
        proof {
            lemma_take_full(all);
        }
        before - self.waiters.len()
    }
}

// ─── Thread Manager ───────────────────────────────────────────────

/// Size of the TLS block of a thread created with CLONE_SETTLS.
pub const DEFAULT_TLS_SIZE: usize = 4096;

/// `i` is the first position of a group of process `pid`.
pub open spec fn group_first_at(gs: Seq<ThreadGroup>, pid: u64, i: int) -> bool {
    &&& 0 <= i < gs.len()
    &&& gs[i].pid == pid
    &&& forall|j: int| 0 <= j < i ==> gs[j].pid != pid
}

/// Some group belongs to process `pid`.
pub open spec fn has_group(gs: Seq<ThreadGroup>, pid: u64) -> bool {
    exists|i: int| 0 <= i < gs.len() && gs[i].pid == pid
}

/// `t` is the main thread of a process `pid` started at `rip` with stack `rsp`.
pub open spec fn is_main_thread(t: Thread, pid: u64, rsp: u64, rip: u64) -> bool {
    &&& t.tid == Tid(pid)
    &&& t.pid == pid
    &&& t.state == ThreadState::Running
    &&& t.regs == SavedRegs::with_rsp_rip(rsp, rip)
    &&& t.stack_top == rsp
    &&& t.stack_size == MAIN_STACK_SIZE
    &&& t.fresh_fields()
}

/// `t` is a thread just created by clone() with these arguments.
pub open spec fn is_spawned(
    t: Thread,
    tid: Tid,
    pid: u64,
    stack_top: u64,
    stack_size: usize,
    entry: u64,
    arg: u64,
    flags: CloneFlags,
) -> bool {
    &&& t.tid == tid
    &&& t.pid == pid
    &&& t.state == ThreadState::Ready
    &&& t.regs == (SavedRegs { rdi: arg, ..SavedRegs::with_rsp_rip(stack_top, entry) })
    &&& t.stack_top == stack_top
    &&& t.stack_size == stack_size
    &&& t.user_arg == arg
    &&& t.exit_code is None
    &&& t.create_time_ns == 0
    &&& t.cpu_time_ns == 0
    &&& t.futex_addr is None
    &&& flags.has(CLONE_SETTLS) ==> (t.tls matches Some(b) && b.addr == 0 && b.size
        == DEFAULT_TLS_SIZE && b.data@ == Seq::new(DEFAULT_TLS_SIZE as nat, |k: int| 0u8))
    &&& !flags.has(CLONE_SETTLS) ==> t.tls is None
}

/// Every group but the one at `i` is unchanged and there are as many groups.
pub open spec fn others_unchanged(old_gs: Seq<ThreadGroup>, new_gs: Seq<ThreadGroup>, i: int) -> bool {
    &&& new_gs.len() == old_gs.len()
    &&& forall|k: int| 0 <= k < old_gs.len() && k != i ==> new_gs[k] == old_gs[k]
}

/// The group has the same identity and allocation counter.
pub open spec fn same_group_header(a: ThreadGroup, b: ThreadGroup) -> bool {
    a.pid == b.pid && a.next_tid == b.next_tid && a.main_tid == b.main_tid
}

/// The thread at `j` of group `i` is replaced by `t`, all else unchanged.
pub open spec fn thread_replaced(
    old_gs: Seq<ThreadGroup>,
    new_gs: Seq<ThreadGroup>,
    i: int,
    j: int,
    t: Thread,
) -> bool {
    &&& others_unchanged(old_gs, new_gs, i)
    &&& same_group_header(old_gs[i], new_gs[i])
    &&& new_gs[i].threads@ == old_gs[i].threads@.update(j, t)
}

/// Every group keeps its header and has each of its threads mapped by `f`.
pub open spec fn threads_mapped(old_gs: Seq<ThreadGroup>, new_gs: Seq<ThreadGroup>, f: spec_fn(Thread) -> Thread) -> bool {
    &&& new_gs.len() == old_gs.len()
    &&& forall|k: int|
        0 <= k < old_gs.len() ==> same_group_header(#[trigger] old_gs[k], new_gs[k])
            && new_gs[k].threads@ == old_gs[k].threads@.map_values(f)
}

/// One scheduler tick: running threads accumulate `q` nanoseconds of CPU time.
pub open spec fn tick_thread(q: u64) -> spec_fn(Thread) -> Thread {
    |t: Thread|
        if t.state is Running {
            Thread { cpu_time_ns: (t.cpu_time_ns + q) as u64, ..t }
        } else {
            t
        }
}

/// A futex wake at `addr`: alive threads parked on `addr` become ready.
pub open spec fn wake_thread(addr: u64) -> spec_fn(Thread) -> Thread {
    |t: Thread|
        if t.futex_addr == Some(addr) && t.is_alive_spec() {
            Thread { state: ThreadState::Ready, futex_addr: None, ..t }
        } else {
            t
        }
}

/// Number of threads in each group.
pub open spec fn group_sizes(gs: Seq<ThreadGroup>) -> Seq<nat> {
    gs.map_values(|g: ThreadGroup| g.threads@.len())
}

/// Number of alive threads in each group.
pub open spec fn group_alive(gs: Seq<ThreadGroup>) -> Seq<nat> {
    gs.map_values(|g: ThreadGroup| g.threads@.filter(alive_pred()).len())
}

#[derive(Debug)]
pub struct ThreadManager {
    pub groups: Vec<ThreadGroup>,
    pub futex: FutexTable,
    pub next_pid: u64,
    pub tick_count: u64,
}

#[derive(Debug, Clone, Copy, PartialEq, Eq, Structural)]
pub struct ThreadStats {
    pub processes: usize,
    pub threads: usize,
    pub alive: usize,
    pub futex_waiters: usize,
    pub ticks: u64,
}

impl ThreadManager {
    pub fn new() -> (m: Self)
        ensures
            m.groups@ == Seq::<ThreadGroup>::empty(),
            m.futex@ == Seq::<FutexWaiter>::empty(),
            m.next_pid == 1,
            m.tick_count == 0,
    {
        ThreadManager { groups: Vec::new(), futex: FutexTable::new(), next_pid: 1, tick_count: 0 }
    }

    fn find_group(&self, pid: u64) -> (r: Option<usize>)
        ensures
            match r {
                Some(i) => group_first_at(self.groups@, pid, i as int),
                None => !has_group(self.groups@, pid),
            },
    {
        let mut i: usize = 0;
        while i < self.groups.len()
            invariant
                i <= self.groups@.len(),
                forall|j: int| 0 <= j < i ==> self.groups@[j].pid != pid,
            decreases self.groups@.len() - i,
        {
            if self.groups[i].pid == pid {
                return Some(i);
            }
            i = i + 1;
        }
        None
    }

    pub fn create_process(&mut self, main_rsp: u64, main_rip: u64) -> (pid: u64)
        requires
            old(self).next_pid < u64::MAX,
        ensures
            pid == old(self).next_pid,
            final(self).next_pid == pid + 1,
            final(self).groups@.len() == old(self).groups@.len() + 1,
            final(self).groups@.take(old(self).groups@.len() as int) == old(self).groups@,
            ({
                let g = final(self).groups@.last();
                &&& g.pid == pid
                &&& g.next_tid == pid + 1
                &&& g.main_tid == Tid(pid)
                &&& g.threads@.len() == 1
                &&& is_main_thread(g.threads@[0], pid, main_rsp, main_rip)
            }),
            final(self).futex@ == old(self).futex@,
            final(self).tick_count == old(self).tick_count,
    {
        let pid = self.next_pid;
        self.next_pid = self.next_pid + 1;
        let main = Thread::new_main(pid, main_rsp, main_rip);
        let group = ThreadGroup::new(pid, main);
        self.groups.push(group);
        assert(self.groups@.take(old(self).groups@.len() as int) =~= old(self).groups@);
        pid
    }

    pub fn create_thread(
        &mut self,
        pid: u64,
        stack_top: u64,
        stack_size: usize,
        entry: u64,
        arg: u64,
        flags: CloneFlags,
    ) -> (r: Result<Tid, ThreadError>)
        requires
            forall|i: int|
                group_first_at(old(self).groups@, pid, i) ==> old(self).groups@[i].next_tid
                    < u64::MAX,
        ensures
            final(self).next_pid == old(self).next_pid,
            final(self).tick_count == old(self).tick_count,
            final(self).futex@ == old(self).futex@,
            !has_group(old(self).groups@, pid) ==> r == Err::<Tid, ThreadError>(
                ThreadError::ProcessNotFound,
            ) && final(self).groups@ == old(self).groups@,
            has_group(old(self).groups@, pid) ==> exists|i: int|
                #![trigger group_first_at(old(self).groups@, pid, i)]
                group_first_at(old(self).groups@, pid, i) && ({
                    let og = old(self).groups@[i];
                    let ng = final(self).groups@[i];
                    let tid = Tid(og.next_tid);
                    &&& r == Ok::<Tid, ThreadError>(tid)
                    &&& others_unchanged(old(self).groups@, final(self).groups@, i)
                    &&& ng.pid == og.pid && ng.main_tid == og.main_tid
                    &&& ng.next_tid == og.next_tid + 1
                    &&& ng.threads@.len() == og.threads@.len() + 1
                    &&& ng.threads@.take(og.threads@.len() as int) == og.threads@
                    &&& is_spawned(
                        ng.threads@.last(),
                        tid,
                        pid,
                        stack_top,
                        stack_size,
                        entry,
                        arg,
                        flags,
                    )
                }),
    {
        let i = match self.find_group(pid) {
            Some(i) => i,
            None => return Err(ThreadError::ProcessNotFound),
        };
        let tid = self.groups[i].alloc_tid();
        let mut thread = Thread::new(tid, pid, stack_top, stack_size);
        thread.regs = SavedRegs::new_with_rsp_rip(stack_top, entry);
        thread.regs.rdi = arg;
        thread.user_arg = arg;
        thread.set_ready();
        if flags.sets_tls() {
            thread.tls = Some(TlsBlock::new(DEFAULT_TLS_SIZE));
        }
        self.groups[i].add_thread(thread);
        proof {
            let og = old(self).groups@[i as int];
            let ng = self.groups@[i as int];
            assert(ng.threads@.take(og.threads@.len() as int) =~= og.threads@);
            assert(group_first_at(old(self).groups@, pid, i as int));
        }
        Ok(tid)
    }

    pub fn exit_thread(&mut self, pid: u64, tid: Tid, code: ExitCode) -> (r: Result<(), ThreadError>)
        ensures
            final(self).next_pid == old(self).next_pid,
            final(self).tick_count == old(self).tick_count,
            !has_group(old(self).groups@, pid) ==> r == Err::<(), ThreadError>(
                ThreadError::ProcessNotFound,
            ) && *final(self) == *old(self),
            forall|i: int|
                #![trigger group_first_at(old(self).groups@, pid, i)]
                group_first_at(old(self).groups@, pid, i) ==> {
                    let ts = old(self).groups@[i].threads@;
                    &&& !has_tid(ts, tid) ==> r == Err::<(), ThreadError>(
                        ThreadError::ThreadNotFound,
                    ) && *final(self) == *old(self)
                    &&& forall|j: int|
                        #![trigger tid_first_at(ts, tid, j)]
                        tid_first_at(ts, tid, j) ==> r == Ok::<(), ThreadError>(())
                            && thread_replaced(
                            old(self).groups@,
                            final(self).groups@,
                            i,
                            j,
                            ts[j].exited(code),
                        ) && final(self).futex@ == without_waiter(old(self).futex@, tid)
                },
    {
        let i = match self.find_group(pid) {
            Some(i) => i,
            None => return Err(ThreadError::ProcessNotFound),
        };
        let j = match thread_position(&self.groups[i].threads, tid) {
            Some(j) => j,
            None => return Err(ThreadError::ThreadNotFound),
        };
        self.groups[i].threads[j].exit(code);
        self.futex.remove_waiter(tid);
        Ok(())
    }

    pub fn join_thread(&mut self, pid: u64, tid: Tid) -> (r: Result<ExitCode, ThreadError>)
        ensures
            *final(self) == *old(self),
            !has_group(old(self).groups@, pid) ==> r == Err::<ExitCode, ThreadError>(
                ThreadError::ProcessNotFound,
            ),
            forall|i: int|
                #![trigger group_first_at(old(self).groups@, pid, i)]
                group_first_at(old(self).groups@, pid, i) ==> {
                    let ts = old(self).groups@[i].threads@;
                    &&& !has_tid(ts, tid) ==> r == Err::<ExitCode, ThreadError>(
                        ThreadError::ThreadNotFound,
                    )
                    &&& forall|j: int|
                        #![trigger tid_first_at(ts, tid, j)]
                        tid_first_at(ts, tid, j) ==> r == (match ts[j].exit_code {
                            Some(c) if ts[j].is_exited_spec() => Ok::<ExitCode, ThreadError>(c),
                            _ => Err::<ExitCode, ThreadError>(ThreadError::ThreadNotExited),
                        })
                },
    {
        let i = match self.find_group(pid) {
            Some(i) => i,
            None => return Err(ThreadError::ProcessNotFound),
        };
        let j = match thread_position(&self.groups[i].threads, tid) {
            Some(j) => j,
            None => return Err(ThreadError::ThreadNotFound),
        };
        let thread = &self.groups[i].threads[j];
        if !thread.is_exited() {
            return Err(ThreadError::ThreadNotExited);
        }
        match thread.exit_code {
            Some(c) => Ok(c),
            None => Err(ThreadError::ThreadNotExited),
        }
    }

    pub fn kill_thread(&mut self, pid: u64, tid: Tid, sig: SignalType) -> (r: Result<(), ThreadError>)
        ensures
            final(self).next_pid == old(self).next_pid,
            final(self).tick_count == old(self).tick_count,
            !has_group(old(self).groups@, pid) ==> r == Err::<(), ThreadError>(
                ThreadError::ProcessNotFound,
            ) && *final(self) == *old(self),
            forall|i: int|
                #![trigger group_first_at(old(self).groups@, pid, i)]
                group_first_at(old(self).groups@, pid, i) ==> {
                    let ts = old(self).groups@[i].threads@;
                    &&& !has_tid(ts, tid) ==> r == Err::<(), ThreadError>(
                        ThreadError::ThreadNotFound,
                    ) && *final(self) == *old(self)
                    &&& forall|j: int|
                        #![trigger tid_first_at(ts, tid, j)]
                        tid_first_at(ts, tid, j) ==> if ts[j].is_alive_spec() {
                            r == Ok::<(), ThreadError>(()) && thread_replaced(
                                old(self).groups@,
                                final(self).groups@,
                                i,
                                j,
                                ts[j].exited(ExitCode::Killed(sig)),
                            ) && final(self).futex@ == without_waiter(old(self).futex@, tid)
                        } else {
                            r == Err::<(), ThreadError>(ThreadError::ThreadNotAlive)
                                && *final(self) == *old(self)
                        }
                },
    {
        let i = match self.find_group(pid) {
            Some(i) => i,
            None => return Err(ThreadError::ProcessNotFound),
        };
        let j = match thread_position(&self.groups[i].threads, tid) {
            Some(j) => j,
            None => return Err(ThreadError::ThreadNotFound),
        };
        if !self.groups[i].threads[j].is_alive() {
            return Err(ThreadError::ThreadNotAlive);
        }
        self.groups[i].threads[j].exit(ExitCode::Killed(sig));
        self.futex.remove_waiter(tid);
        Ok(())
    }

    /// Puts the thread into state `st` (blocked or ready).
    fn set_thread_state(&mut self, pid: u64, tid: Tid, st: ThreadState) -> (r: Result<(), ThreadError>)
        ensures
            final(self).next_pid == old(self).next_pid,
            final(self).tick_count == old(self).tick_count,
            final(self).futex@ == old(self).futex@,
            !has_group(old(self).groups@, pid) ==> r == Err::<(), ThreadError>(
                ThreadError::ProcessNotFound,
            ) && final(self).groups@ == old(self).groups@,
            forall|i: int|
                #![trigger group_first_at(old(self).groups@, pid, i)]
                group_first_at(old(self).groups@, pid, i) ==> {
                    let ts = old(self).groups@[i].threads@;
                    &&& !has_tid(ts, tid) ==> r == Err::<(), ThreadError>(
                        ThreadError::ThreadNotFound,
                    ) && final(self).groups@ == old(self).groups@
                    &&& forall|j: int|
                        #![trigger tid_first_at(ts, tid, j)]
                        tid_first_at(ts, tid, j) ==> r == Ok::<(), ThreadError>(())
                            && thread_replaced(
                            old(self).groups@,
                            final(self).groups@,
                            i,
                            j,
                            ts[j].in_state(st),
                        )
                },
    {
        let i = match self.find_group(pid) {
            Some(i) => i,
            None => return Err(ThreadError::ProcessNotFound),
        };
        let j = match thread_position(&self.groups[i].threads, tid) {
            Some(j) => j,
            None => return Err(ThreadError::ThreadNotFound),
        };
        self.groups[i].threads[j].state = st;
        Ok(())
    }

    pub fn block_thread(&mut self, pid: u64, tid: Tid, reason: BlockReason) -> (r: Result<(), ThreadError>)
        ensures
            final(self).next_pid == old(self).next_pid,
            final(self).tick_count == old(self).tick_count,
            final(self).futex@ == old(self).futex@,
            !has_group(old(self).groups@, pid) ==> r == Err::<(), ThreadError>(
                ThreadError::ProcessNotFound,
            ) && final(self).groups@ == old(self).groups@,
            forall|i: int|
                #![trigger group_first_at(old(self).groups@, pid, i)]
                group_first_at(old(self).groups@, pid, i) ==> {
                    let ts = old(self).groups@[i].threads@;
                    &&& !has_tid(ts, tid) ==> r == Err::<(), ThreadError>(
                        ThreadError::ThreadNotFound,
                    ) && final(self).groups@ == old(self).groups@
                    &&& forall|j: int|
                        #![trigger tid_first_at(ts, tid, j)]
                        tid_first_at(ts, tid, j) ==> r == Ok::<(), ThreadError>(())
                            && thread_replaced(
                            old(self).groups@,
                            final(self).groups@,
                            i,
                            j,
                            ts[j].in_state(ThreadState::Blocked(reason)),
                        )
                },
    {
        self.set_thread_state(pid, tid, ThreadState::Blocked(reason))
    }

    pub fn unblock_thread(&mut self, pid: u64, tid: Tid) -> (r: Result<(), ThreadError>)
        ensures
            final(self).next_pid == old(self).next_pid,
            final(self).tick_count == old(self).tick_count,
            final(self).futex@ == old(self).futex@,
            !has_group(old(self).groups@, pid) ==> r == Err::<(), ThreadError>(
                ThreadError::ProcessNotFound,
            ) && final(self).groups@ == old(self).groups@,
            forall|i: int|
                #![trigger group_first_at(old(self).groups@, pid, i)]
                group_first_at(old(self).groups@, pid, i) ==> {
                    let ts = old(self).groups@[i].threads@;
                    &&& !has_tid(ts, tid) ==> r == Err::<(), ThreadError>(
                        ThreadError::ThreadNotFound,
                    ) && final(self).groups@ == old(self).groups@
                    &&& forall|j: int|
                        #![trigger tid_first_at(ts, tid, j)]
                        tid_first_at(ts, tid, j) ==> r == Ok::<(), ThreadError>(())
                            && thread_replaced(
                            old(self).groups@,
                            final(self).groups@,
                            i,
                            j,
                            ts[j].in_state(ThreadState::Ready),
                        )
                },
    {
        self.set_thread_state(pid, tid, ThreadState::Ready)
    }

}

impl ThreadManager {
    /// Queues the thread on the futex and, if it was queued, blocks it.
    pub fn futex_wait(&mut self, pid: u64, tid: Tid, addr: u64, val: u32, current_val: u32) -> (r: Result<bool, ThreadError>)
        ensures
            final(self).next_pid == old(self).next_pid,
            final(self).tick_count == old(self).tick_count,
            current_val != val ==> r == Ok::<bool, ThreadError>(false) && final(self).groups@ == old(
                self,
            ).groups@ && final(self).futex@ == old(self).futex@,
            current_val == val ==> final(self).futex@ == old(self).futex@.push(
                FutexWaiter {
                    tid: tid,
                    pid: pid,
                    addr: addr,
                    val: val,
                    bitset: FUTEX_BITSET_MATCH_ANY,
                    queued_ns: 0,
                },
            ),
            current_val == val && !has_group(old(self).groups@, pid) ==> r == Err::<
                bool,
                ThreadError,
            >(ThreadError::ProcessNotFound) && final(self).groups@ == old(self).groups@,
            current_val == val ==> forall|i: int|
                #![trigger group_first_at(old(self).groups@, pid, i)]
                group_first_at(old(self).groups@, pid, i) ==> {
                    let ts = old(self).groups@[i].threads@;
                    &&& !has_tid(ts, tid) ==> r == Err::<bool, ThreadError>(
                        ThreadError::ThreadNotFound,
                    ) && final(self).groups@ == old(self).groups@
                    &&& forall|j: int|
                        #![trigger tid_first_at(ts, tid, j)]
                        tid_first_at(ts, tid, j) ==> r == Ok::<bool, ThreadError>(true)
                            && thread_replaced(
                            old(self).groups@,
                            final(self).groups@,
                            i,
                            j,
                            ts[j].in_state(ThreadState::Blocked(BlockReason::Futex)),
                        )
                },
    {
        let waited = match self.futex.wait(tid, pid, addr, val, current_val) {
            Ok(w) => w,
            Err(e) => return Err(e),
        };
        if waited {
            match self.block_thread(pid, tid, BlockReason::Futex) {
                Ok(()) => {},
                Err(e) => return Err(e),
            }
        }
        Ok(waited)
    }

    /// Wakes up to `max_count` waiters on `addr`, then readies every alive thread
    /// parked on `addr`.
    pub fn futex_wake(&mut self, addr: u64, max_count: usize) -> (r: Result<usize, ThreadError>)
        ensures
            final(self).next_pid == old(self).next_pid,
            final(self).tick_count == old(self).tick_count,
            ({
                let (q, n) = wake_scan(old(self).futex@, at_addr(addr), max_count as nat);
                r == Ok::<usize, ThreadError>(n as usize) && final(self).futex@ == q
            }),
            threads_mapped(old(self).groups@, final(self).groups@, wake_thread(addr)),
    {
        let woken = self.futex.wake(addr, max_count);
        let mut gi: usize = 0;
        while gi < self.groups.len()
            invariant
                gi <= self.groups@.len(),
                self.groups@.len() == old(self).groups@.len(),
                self.next_pid == old(self).next_pid,
                self.tick_count == old(self).tick_count,
                (self.futex@, woken as nat) == wake_scan(old(self).futex@, at_addr(addr), max_count as nat),
                forall|k: int|
                    0 <= k < gi ==> same_group_header(#[trigger] old(self).groups@[k], self.groups@[k])
                        && self.groups@[k].threads@ == old(self).groups@[k].threads@.map_values(
                        wake_thread(addr),
                    ),
                forall|k: int| gi <= k < self.groups@.len() ==> self.groups@[k] == old(self).groups@[k],
            decreases self.groups@.len() - gi,
        {
            let ghost g0 = self.groups@[gi as int];
            let mut ti: usize = 0;
            while ti < self.groups[gi].threads.len()
                invariant
                    gi < self.groups@.len(),
                    self.groups@.len() == old(self).groups@.len(),
                    ti <= self.groups@[gi as int].threads@.len(),
                    self.next_pid == old(self).next_pid,
                    self.tick_count == old(self).tick_count,
                    (self.futex@, woken as nat) == wake_scan(old(self).futex@, at_addr(addr), max_count as nat),
                    g0 == old(self).groups@[gi as int],
                    same_group_header(g0, self.groups@[gi as int]),
                    self.groups@[gi as int].threads@.len() == g0.threads@.len(),
                    forall|m: int|
                        0 <= m < ti ==> self.groups@[gi as int].threads@[m] == (wake_thread(addr))(
                            g0.threads@[m],
                        ),
                    forall|m: int|
                        ti <= m < g0.threads@.len() ==> self.groups@[gi as int].threads@[m]
                            == g0.threads@[m],
                    forall|k: int|
                        0 <= k < gi ==> same_group_header(#[trigger] old(self).groups@[k], self.groups@[k])
                            && self.groups@[k].threads@ == old(self).groups@[k].threads@.map_values(
                            wake_thread(addr),
                        ),
                    forall|k: int|
                        gi < k < self.groups@.len() ==> self.groups@[k] == old(self).groups@[k],
                decreases g0.threads@.len() - ti,
            {
                let hit = self.groups[gi].threads[ti].futex_addr == Some(addr)
                    && self.groups[gi].threads[ti].is_alive();
                if hit {
                    self.groups[gi].threads[ti].set_ready();
                    self.groups[gi].threads[ti].futex_addr = None;
                }
                ti = ti + 1;
            }
            assert(self.groups@[gi as int].threads@ =~= g0.threads@.map_values(wake_thread(addr)));
            gi = gi + 1;
        }
        Ok(woken)
    }

    pub fn futex_wake_bitset(&mut self, addr: u64, max_count: usize, bitset: u32) -> (r: Result<usize, ThreadError>)
        ensures
            final(self).groups@ == old(self).groups@,
            final(self).next_pid == old(self).next_pid,
            final(self).tick_count == old(self).tick_count,
            ({
                let (q, n) = wake_scan(old(self).futex@, at_addr_bits(addr, bitset), max_count as nat);
                r == Ok::<usize, ThreadError>(n as usize) && final(self).futex@ == q
            }),
    {
        let woken = self.futex.wake_bitset(addr, max_count, bitset);
        Ok(woken)
    }

    pub fn futex_requeue(&mut self, addr1: u64, addr2: u64, max_wake: usize, max_requeue: usize) -> (r: Result<(usize, usize), ThreadError>)
        ensures
            final(self).groups@ == old(self).groups@,
            final(self).next_pid == old(self).next_pid,
            final(self).tick_count == old(self).tick_count,
            ({
                let (q, w, m) = requeue_scan(
                    old(self).futex@,
                    addr1,
                    addr2,
                    max_wake as nat,
                    max_requeue as nat,
                );
                &&& r == Ok::<(usize, usize), ThreadError>((w as usize, m as usize))
                &&& final(self).futex@ == wake_scan(q, at_addr(addr1), w).0
            }),
    {
        let (woken, requeued) = self.futex.requeue(addr1, addr2, max_wake, max_requeue);
        Ok((woken, requeued))
    }

    pub fn reap_exited(&mut self, pid: u64) -> (r: Vec<Thread>)
        ensures
            final(self).next_pid == old(self).next_pid,
            final(self).tick_count == old(self).tick_count,
            final(self).futex@ == old(self).futex@,
            !has_group(old(self).groups@, pid) ==> r@.len() == 0 && final(self).groups@ == old(
                self,
            ).groups@,
            forall|i: int|
                #![trigger group_first_at(old(self).groups@, pid, i)]
                group_first_at(old(self).groups@, pid, i) ==> {
                    let og = old(self).groups@[i];
                    &&& others_unchanged(old(self).groups@, final(self).groups@, i)
                    &&& same_group_header(og, final(self).groups@[i])
                    &&& final(self).groups@[i].threads@ == og.threads@.filter(keep_pred(og.main_tid))
                    &&& r@ == og.threads@.filter(reap_pred(og.main_tid))
                },
    {
        match self.find_group(pid) {
            Some(i) => self.groups[i].reap_exited(),
            None => Vec::new(),
        }
    }

    pub fn get_thread(&self, pid: u64, tid: Tid) -> (r: Option<&Thread>)
        ensures
            !has_group(self.groups@, pid) ==> r is None,
            forall|i: int|
                #![trigger group_first_at(self.groups@, pid, i)]
                group_first_at(self.groups@, pid, i) ==> {
                    let ts = self.groups@[i].threads@;
                    &&& !has_tid(ts, tid) ==> r is None
                    &&& forall|j: int|
                        #![trigger tid_first_at(ts, tid, j)]
                        tid_first_at(ts, tid, j) ==> r == Some(&ts[j])
                },
    {
        match self.find_group(pid) {
            Some(i) => match thread_position(&self.groups[i].threads, tid) {
                Some(j) => Some(&self.groups[i].threads[j]),
                None => None,
            },
            None => None,
        }
    }

    pub fn get_thread_mut(&mut self, pid: u64, tid: Tid) -> (r: Option<&mut Thread>)
        ensures
            final(self).next_pid == old(self).next_pid,
            final(self).tick_count == old(self).tick_count,
            final(self).futex@ == old(self).futex@,
            match r {
                Some(t) => exists|i: int, j: int|
                    #![trigger group_first_at(old(self).groups@, pid, i), tid_first_at(old(self).groups@[i].threads@, tid, j)]
                    group_first_at(old(self).groups@, pid, i) && tid_first_at(
                        old(self).groups@[i].threads@,
                        tid,
                        j,
                    ) && *t == old(self).groups@[i].threads@[j] && thread_replaced(
                        old(self).groups@,
                        final(self).groups@,
                        i,
                        j,
                        *final(t),
                    ),
                None => final(self).groups@ == old(self).groups@ && (!has_group(
                    old(self).groups@,
                    pid,
                ) || forall|i: int|
                    group_first_at(old(self).groups@, pid, i) ==> !has_tid(
                        old(self).groups@[i].threads@,
                        tid,
                    )),
            },
    {
        match self.find_group(pid) {
            Some(i) => match thread_position(&self.groups[i].threads, tid) {
                Some(j) => {
                    assert(group_first_at(old(self).groups@, pid, i as int));
                    assert(tid_first_at(old(self).groups@[i as int].threads@, tid, j as int));
                    Some(&mut self.groups[i].threads[j])
                },
                None => None,
            },
            None => None,
        }
    }

    pub fn get_group(&self, pid: u64) -> (r: Option<&ThreadGroup>)
        ensures
            match r {
                Some(g) => exists|i: int| group_first_at(self.groups@, pid, i) && *g == self.groups@[i],
                None => !has_group(self.groups@, pid),
            },
    {
        match self.find_group(pid) {
            Some(i) => Some(&self.groups[i]),
            None => None,
        }
    }

    pub fn get_group_mut(&mut self, pid: u64) -> (r: Option<&mut ThreadGroup>)
        ensures
            final(self).next_pid == old(self).next_pid,
            final(self).tick_count == old(self).tick_count,
            final(self).futex@ == old(self).futex@,
            match r {
                Some(g) => exists|i: int|
                    group_first_at(old(self).groups@, pid, i) && *g == old(self).groups@[i]
                        && final(self).groups@ == old(self).groups@.update(i, *final(g)),
                None => !has_group(old(self).groups@, pid) && final(self).groups@ == old(self).groups@,
            },
    {
        match self.find_group(pid) {
            Some(i) => Some(&mut self.groups[i]),
            None => None,
        }
    }

    /// Counts a tick and charges `quantum_ns` of CPU time to every running thread.
    pub fn tick(&mut self, quantum_ns: u64)
        requires
            old(self).tick_count < u64::MAX,
            forall|k: int, m: int|
                0 <= k < old(self).groups@.len() && 0 <= m < old(self).groups@[k].threads@.len()
                    && #[trigger] old(self).groups@[k].threads@[m].state is Running ==> old(
                    self,
                ).groups@[k].threads@[m].cpu_time_ns + quantum_ns <= u64::MAX,
        ensures
            final(self).tick_count == old(self).tick_count + 1,
            final(self).next_pid == old(self).next_pid,
            final(self).futex@ == old(self).futex@,
            threads_mapped(old(self).groups@, final(self).groups@, tick_thread(quantum_ns)),
    {
        self.tick_count = self.tick_count + 1;
        let mut gi: usize = 0;
        while gi < self.groups.len()
            invariant
                gi <= self.groups@.len(),
                self.groups@.len() == old(self).groups@.len(),
                self.next_pid == old(self).next_pid,
                self.tick_count == old(self).tick_count + 1,
                self.futex@ == old(self).futex@,
                forall|k: int, m: int|
                    0 <= k < old(self).groups@.len() && 0 <= m < old(self).groups@[k].threads@.len()
                        && #[trigger] old(self).groups@[k].threads@[m].state is Running ==> old(
                        self,
                    ).groups@[k].threads@[m].cpu_time_ns + quantum_ns <= u64::MAX,
                forall|k: int|
                    0 <= k < gi ==> same_group_header(#[trigger] old(self).groups@[k], self.groups@[k])
                        && self.groups@[k].threads@ == old(self).groups@[k].threads@.map_values(
                        tick_thread(quantum_ns),
                    ),
                forall|k: int| gi <= k < self.groups@.len() ==> self.groups@[k] == old(self).groups@[k],
            decreases self.groups@.len() - gi,
        {
            let ghost g0 = self.groups@[gi as int];
            let mut ti: usize = 0;
            while ti < self.groups[gi].threads.len()
                invariant
                    gi < self.groups@.len(),
                    self.groups@.len() == old(self).groups@.len(),
                    ti <= self.groups@[gi as int].threads@.len(),
                    self.next_pid == old(self).next_pid,
                    self.tick_count == old(self).tick_count + 1,
                    self.futex@ == old(self).futex@,
                    g0 == old(self).groups@[gi as int],
                    forall|m: int|
                        0 <= m < g0.threads@.len() && #[trigger] g0.threads@[m].state is Running
                            ==> g0.threads@[m].cpu_time_ns + quantum_ns <= u64::MAX,
                    same_group_header(g0, self.groups@[gi as int]),
                    self.groups@[gi as int].threads@.len() == g0.threads@.len(),
                    forall|m: int|
                        0 <= m < ti ==> self.groups@[gi as int].threads@[m] == (tick_thread(
                            quantum_ns,
                        ))(g0.threads@[m]),
                    forall|m: int|
                        ti <= m < g0.threads@.len() ==> self.groups@[gi as int].threads@[m]
                            == g0.threads@[m],
                    forall|k: int|
                        0 <= k < gi ==> same_group_header(#[trigger] old(self).groups@[k], self.groups@[k])
                            && self.groups@[k].threads@ == old(self).groups@[k].threads@.map_values(
                            tick_thread(quantum_ns),
                        ),
                    forall|k: int|
                        gi < k < self.groups@.len() ==> self.groups@[k] == old(self).groups@[k],
                decreases g0.threads@.len() - ti,
            {
                if matches!(self.groups[gi].threads[ti].state, ThreadState::Running) {
                    assert(g0.threads@[ti as int].state is Running);
                    self.groups[gi].threads[ti].tick_cpu(quantum_ns);
                }
                ti = ti + 1;
            }
            assert(self.groups@[gi as int].threads@ =~= g0.threads@.map_values(tick_thread(quantum_ns)));
            gi = gi + 1;
        }
    }

    pub fn total_threads(&self) -> (r: usize)
        requires
            sum_nat(group_sizes(self.groups@)) <= usize::MAX,
        ensures
            r == sum_nat(group_sizes(self.groups@)),
    {
        let mut n: usize = 0;
        let mut i: usize = 0;
        while i < self.groups.len()
            invariant
                i <= self.groups@.len(),
                sum_nat(group_sizes(self.groups@)) <= usize::MAX,
                n == sum_nat(group_sizes(self.groups@).take(i as int)),
            decreases self.groups@.len() - i,
        {
            proof {
                lemma_sum_take_succ(group_sizes(self.groups@), i as int);
                lemma_sum_take_le(group_sizes(self.groups@), i + 1);
            }
            n = n + self.groups[i].thread_count();
            i = i + 1;
        }
        proof {
            lemma_take_full(group_sizes(self.groups@));
        }
        n
    }

    pub fn alive_threads(&self) -> (r: usize)
        requires
            sum_nat(group_alive(self.groups@)) <= usize::MAX,
        ensures
            r == sum_nat(group_alive(self.groups@)),
    {
        let mut n: usize = 0;
        let mut i: usize = 0;
        while i < self.groups.len()
            invariant
                i <= self.groups@.len(),
                sum_nat(group_alive(self.groups@)) <= usize::MAX,
                n == sum_nat(group_alive(self.groups@).take(i as int)),
            decreases self.groups@.len() - i,
        {
            proof {
                lemma_sum_take_succ(group_alive(self.groups@), i as int);
                lemma_sum_take_le(group_alive(self.groups@), i + 1);
            }
            n = n + self.groups[i].alive_threads();
            i = i + 1;
        }
        proof {
            lemma_take_full(group_alive(self.groups@));
        }
        n
    }

    pub fn process_count(&self) -> (r: usize)
        ensures
            r == self.groups@.len(),
    {
        self.groups.len()
    }

    pub fn destroy_process(&mut self, pid: u64) -> (r: Result<(), ThreadError>)
        ensures
            final(self).next_pid == old(self).next_pid,
            final(self).tick_count == old(self).tick_count,
            !has_group(old(self).groups@, pid) ==> r == Err::<(), ThreadError>(
                ThreadError::ProcessNotFound,
            ) && *final(self) == *old(self),
            forall|i: int|
                #![trigger group_first_at(old(self).groups@, pid, i)]
                group_first_at(old(self).groups@, pid, i) ==> r == Ok::<(), ThreadError>(())
                    && final(self).groups@ == old(self).groups@.remove(i) && final(self).futex@
                    == old(self).futex@.filter(not_of_pid(pid)),
    {
        let i = match self.find_group(pid) {
            Some(i) => i,
            None => return Err(ThreadError::ProcessNotFound),
        };
        self.futex.clear_pid(pid);
        self.groups.remove(i);
        Ok(())
    }

    pub fn stats(&self) -> (st: ThreadStats)
        requires
            sum_nat(group_sizes(self.groups@)) <= usize::MAX,
            sum_nat(group_alive(self.groups@)) <= usize::MAX,
        ensures
            st.processes == self.groups@.len(),
            st.threads == sum_nat(group_sizes(self.groups@)),
            st.alive == sum_nat(group_alive(self.groups@)),
            st.futex_waiters == self.futex@.len(),
            st.ticks == self.tick_count,
    {
        ThreadStats {
            processes: self.process_count(),
            threads: self.total_threads(),
            alive: self.alive_threads(),
            futex_waiters: self.futex.waiting_count(),
            ticks: self.tick_count,
        }
    }
}

// ─── Errors ───────────────────────────────────────────────────────

#[derive(Debug, Clone, Copy, PartialEq, Eq, Structural)]
pub enum ThreadError {
    ProcessNotFound,
    ThreadNotFound,
    ThreadNotAlive,
    ThreadNotExited,
    TlsOutOfBounds,
    InvalidCloneFlags,
    FutexValueMismatch,
}

} // verus!

verus! {

// ─── Mutex (Userspace Helper) ─────────────────────────────────────

#[derive(Debug, Clone, Copy, PartialEq, Eq, Structural)]
pub struct FutexMutex {
    pub addr: u64,
    pub state: u32,
}

impl FutexMutex {
    pub const UNLOCKED: u32 = 0;
    pub const LOCKED: u32 = 1;
    pub const CONTESTED: u32 = 2;

    pub fn new(addr: u64) -> (m: Self)
        ensures
            m.addr == addr,
            m.state == Self::UNLOCKED,
    {
        FutexMutex { addr, state: Self::UNLOCKED }
    }

    /// Takes the lock if it is free.
    pub fn try_lock(&mut self) -> (r: bool)
        ensures
            r == (old(self).state == Self::UNLOCKED),
            final(self).addr == old(self).addr,
            final(self).state == if r { Self::LOCKED } else { old(self).state },
    {
        if self.state == Self::UNLOCKED {
            self.state = Self::LOCKED;
            true
        } else {
            false
        }
    }

    /// Takes the lock, or marks it contested; `false` tells the caller to futex_wait.
    pub fn lock(&mut self) -> (r: bool)
        ensures
            r == (old(self).state == Self::UNLOCKED),
            final(self).addr == old(self).addr,
            final(self).state == if r { Self::LOCKED } else { Self::CONTESTED },
    {
        if self.try_lock() {
            return true;
        }
        self.state = Self::CONTESTED;
        false
    }

    /// Releases the lock; `true` tells the caller to futex_wake.
    pub fn unlock(&mut self) -> (r: bool)
        ensures
            r == (old(self).state == Self::CONTESTED),
            final(self).addr == old(self).addr,
            final(self).state == Self::UNLOCKED,
    {
        let was_contested = self.state == Self::CONTESTED;
        self.state = Self::UNLOCKED;
        was_contested
    }

    pub fn is_locked(&self) -> (r: bool)
        ensures
            r == (self.state != Self::UNLOCKED),
    {
        self.state != Self::UNLOCKED
    }
}

// ─── Condition Variable (Userspace Helper) ────────────────────────

#[derive(Debug, Clone, Copy, PartialEq, Eq, Structural)]
pub struct FutexCondvar {
    pub seq_addr: u64,
    pub seq: u32,
}

impl FutexCondvar {
    pub fn new(seq_addr: u64) -> (c: Self)
        ensures
            c.seq_addr == seq_addr,
            c.seq == 0,
    {
        FutexCondvar { seq_addr, seq: 0 }
    }

    pub fn signal(&mut self) -> (r: u32)
        requires
            old(self).seq < u32::MAX,
        ensures
            r == old(self).seq + 1,
            *final(self) == (FutexCondvar { seq: r, ..*old(self) }),
    {
        self.seq = self.seq + 1;
        self.seq
    }

    pub fn broadcast(&mut self) -> (r: u32)
        requires
            old(self).seq < u32::MAX,
        ensures
            r == old(self).seq + 1,
            *final(self) == (FutexCondvar { seq: r, ..*old(self) }),
    {
        self.seq = self.seq + 1;
        self.seq
    }

    pub fn current_seq(&self) -> (r: u32)
        ensures
            r == self.seq,
    {
        self.seq
    }
}

// ─── Barrier ──────────────────────────────────────────────────────

#[derive(Debug, Clone, Copy, PartialEq, Eq, Structural)]
pub struct FutexBarrier {
    pub count_addr: u64,
    pub target: usize,
    pub current: usize,
    pub generation: u32,
}

#[derive(Debug, Clone, Copy, PartialEq, Eq, Structural)]
pub enum BarrierResult {
    Waiting(u32),
    Released(u32),
}

impl FutexBarrier {
    pub fn new(count_addr: u64, target: usize) -> (b: Self)
        ensures
            b == (FutexBarrier { count_addr: count_addr, target: target, current: 0, generation: 0 }),
    {
        FutexBarrier { count_addr, target, current: 0, generation: 0 }
    }

    /// One more thread arrives; the last of `target` releases the barrier and starts a
    /// new generation.
    pub fn arrive(&mut self) -> (r: BarrierResult)
        requires
            old(self).current < usize::MAX,
            old(self).current + 1 >= old(self).target ==> old(self).generation < u32::MAX,
        ensures
            final(self).count_addr == old(self).count_addr,
            final(self).target == old(self).target,
            old(self).current + 1 >= old(self).target ==> final(self).current == 0
                && final(self).generation == old(self).generation + 1 && r
                == BarrierResult::Released(final(self).generation),
            old(self).current + 1 < old(self).target ==> final(self).current == old(self).current
                + 1 && final(self).generation == old(self).generation && r
                == BarrierResult::Waiting(old(self).generation),
    {
        self.current = self.current + 1;
        if self.current >= self.target {
            self.current = 0;
            self.generation = self.generation + 1;
            BarrierResult::Released(self.generation)
        } else {
            BarrierResult::Waiting(self.generation)
        }
    }

    pub fn is_complete(&self) -> (r: bool)
        ensures
            r == (self.current == 0),
    {
        self.current == 0
    }
}

// ─── RwLock (Read-Write Lock) ─────────────────────────────────────

/// Lock word: the number of readers, or -1 while a writer holds the lock.
#[derive(Debug, Clone, Copy, PartialEq, Eq, Structural)]
pub struct FutexRwLock {
    pub state: i32,
}

impl FutexRwLock {
    pub fn new() -> (l: Self)
        ensures
            l.state == 0,
    {
        FutexRwLock { state: 0 }
    }

    pub fn try_read_lock(&mut self) -> (r: bool)
        requires
            old(self).state < i32::MAX,
        ensures
            r == (old(self).state >= 0),
            final(self).state == if r { old(self).state + 1 } else { old(self).state as int },
    {
        if self.state >= 0 {
            self.state = self.state + 1;
            true
        } else {
            false
        }
    }

    pub fn try_write_lock(&mut self) -> (r: bool)
        ensures
            r == (old(self).state == 0),
            final(self).state == if r { -1 } else { old(self).state as int },
    {
        if self.state == 0 {
            self.state = -1;
            true
        } else {
            false
        }
    }

    pub fn read_unlock(&mut self)
        ensures
            final(self).state == if old(self).state > 0 {
                old(self).state - 1
            } else {
                old(self).state as int
            },
    {
        if self.state > 0 {
            self.state = self.state - 1;
        }
    }

    pub fn write_unlock(&mut self)
        ensures
            final(self).state == if old(self).state == -1 { 0 } else { old(self).state as int },
    {
        if self.state == -1 {
            self.state = 0;
        }
    }

    pub fn is_write_locked(&self) -> (r: bool)
        ensures
            r == (self.state == -1),
    {
        self.state == -1
    }

    pub fn reader_count(&self) -> (r: usize)
        ensures
            r == if self.state > 0 { self.state as int } else { 0 },
    {
        if self.state > 0 {
            self.state as usize
        } else {
            0
        }
    }
}

} // verus!
