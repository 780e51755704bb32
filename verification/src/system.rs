//! System boot sequencing, the init process (PID 1), user and group ids,
//! process groups and sessions, and the top-level system manager.

use vstd::prelude::*;
use crate::idmap::IdMap;
use crate::text::{decimal, push_decimal};

verus! {

/// A process identifier.
#[derive(Clone, Copy, Debug, PartialEq, Eq, Structural)]
pub struct Pid(pub u32);

/// The status a process exits with.
pub type ExitCode = i32;

// ═══════════════════════════════════════════════════════════════════════════════
// Boot phases
// ═══════════════════════════════════════════════════════════════════════════════

#[derive(Clone, Copy, Debug, PartialEq, Eq, Structural)]
pub enum BootPhase {
    /// Bootloader hands off to the kernel.
    PreBoot,
    /// GDT, IDT, PIC, serial.
    Early,
    /// Paging, heap, frame allocator.
    Memory,
    /// Process manager, scheduler, capabilities.
    Core,
    /// PCI, HPET, block and network devices.
    Drivers,
    /// VFS and the native filesystem.
    Filesystem,
    /// Ethernet, ARP, TCP/IP.
    Network,
    /// Userspace manager, ELF loader, signals, page faults.
    Userspace,
    /// Start of PID 1.
    Init,
    /// Fully booted.
    Running,
    /// Shutting down.
    Shutdown,
}

/// Number of phases in the boot order (every phase but `Shutdown`).
pub const BOOT_PHASE_COUNT: usize = 10;

/// Position of a phase in the boot order; `Shutdown` comes after all of them.
pub open spec fn phase_ord(p: BootPhase) -> nat {
    match p {
        BootPhase::PreBoot => 0,
        BootPhase::Early => 1,
        BootPhase::Memory => 2,
        BootPhase::Core => 3,
        BootPhase::Drivers => 4,
        BootPhase::Filesystem => 5,
        BootPhase::Network => 6,
        BootPhase::Userspace => 7,
        BootPhase::Init => 8,
        BootPhase::Running => 9,
        BootPhase::Shutdown => 10,
    }
}

/// The phase at position `i` of the boot order.
pub open spec fn phase_at(i: int) -> BootPhase {
    if i <= 0 {
        BootPhase::PreBoot
    } else if i == 1 {
        BootPhase::Early
    } else if i == 2 {
        BootPhase::Memory
    } else if i == 3 {
        BootPhase::Core
    } else if i == 4 {
        BootPhase::Drivers
    } else if i == 5 {
        BootPhase::Filesystem
    } else if i == 6 {
        BootPhase::Network
    } else if i == 7 {
        BootPhase::Userspace
    } else if i == 8 {
        BootPhase::Init
    } else if i == 9 {
        BootPhase::Running
    } else {
        BootPhase::Shutdown
    }
}

/// The boot order: every phase from `PreBoot` to `Running`.
pub open spec fn boot_order() -> Seq<BootPhase> {
    Seq::new(10, |i: int| phase_at(i))
}

/// Name of a phase as it appears in the boot log.
pub open spec fn phase_name(p: BootPhase) -> Seq<char> {
    match p {
        BootPhase::PreBoot => "pre-boot"@,
        BootPhase::Early => "early"@,
        BootPhase::Memory => "memory"@,
        BootPhase::Core => "core"@,
        BootPhase::Drivers => "drivers"@,
        BootPhase::Filesystem => "filesystem"@,
        BootPhase::Network => "network"@,
        BootPhase::Userspace => "userspace"@,
        BootPhase::Init => "init"@,
        BootPhase::Running => "running"@,
        BootPhase::Shutdown => "shutdown"@,
    }
}

/// Position of `p` in the boot order; a phase outside it (`Shutdown`) counts as the first.
pub open spec fn order_index(p: BootPhase) -> int {
    if p == BootPhase::Shutdown { 0 } else { phase_ord(p) as int }
}

/// The phase that `advance` moves to from `p`. A phase outside the boot order
/// (`Shutdown`) is treated as the first one.
pub open spec fn next_phase(p: BootPhase) -> BootPhase {
    if order_index(p) + 1 < 10 {
        phase_at(order_index(p) + 1)
    } else {
        p
    }
}

impl BootPhase {
    pub fn order() -> (r: Vec<BootPhase>)
        ensures
            r@ == boot_order(),
    {
        let r = vec![
            BootPhase::PreBoot,
            BootPhase::Early,
            BootPhase::Memory,
            BootPhase::Core,
            BootPhase::Drivers,
            BootPhase::Filesystem,
            BootPhase::Network,
            BootPhase::Userspace,
            BootPhase::Init,
            BootPhase::Running,
        ];
        assert(r@ =~= boot_order());
        r
    }

    pub fn is_post_init(&self) -> (r: bool)
        ensures
            r == (*self == BootPhase::Init || *self == BootPhase::Running),
    {
        match self {
            BootPhase::Init | BootPhase::Running => true,
            _ => false,
        }
    }

    pub fn is_pre_userspace(&self) -> (r: bool)
        ensures
            r == (phase_ord(*self) < 7),
    {
        match self {
            BootPhase::PreBoot | BootPhase::Early | BootPhase::Memory | BootPhase::Core
            | BootPhase::Drivers | BootPhase::Filesystem | BootPhase::Network => true,
            _ => false,
        }
    }

    pub fn name(&self) -> (r: &'static str)
        ensures
            r@ == phase_name(*self),
    {
        match self {
            BootPhase::PreBoot => "pre-boot",
            BootPhase::Early => "early",
            BootPhase::Memory => "memory",
            BootPhase::Core => "core",
            BootPhase::Drivers => "drivers",
            BootPhase::Filesystem => "filesystem",
            BootPhase::Network => "network",
            BootPhase::Userspace => "userspace",
            BootPhase::Init => "init",
            BootPhase::Running => "running",
            BootPhase::Shutdown => "shutdown",
        }
    }

    /// Position in the boot order, `BOOT_PHASE_COUNT` for `Shutdown`.
    fn ordinal(&self) -> (r: u32)
        ensures
            r == phase_ord(*self),
    {
        match self {
            BootPhase::PreBoot => 0,
            BootPhase::Early => 1,
            BootPhase::Memory => 2,
            BootPhase::Core => 3,
            BootPhase::Drivers => 4,
            BootPhase::Filesystem => 5,
            BootPhase::Network => 6,
            BootPhase::Userspace => 7,
            BootPhase::Init => 8,
            BootPhase::Running => 9,
            BootPhase::Shutdown => 10,
        }
    }
}

// ═══════════════════════════════════════════════════════════════════════════════
// Boot sequence
// ═══════════════════════════════════════════════════════════════════════════════

/// A line of the boot log: the phase it was written in, then the message.
pub open spec fn log_line(p: BootPhase, msg: Seq<char>) -> Seq<char> {
    "["@ + phase_name(p) + "] "@ + msg
}

/// Message written when a phase completes.
pub open spec fn completed_msg(p: BootPhase, ts: u64) -> Seq<char> {
    "phase '"@ + phase_name(p) + "' completed at "@ + decimal(ts as nat) + "ns"@
}

/// Message written when a phase is entered.
pub open spec fn entering_msg(p: BootPhase) -> Seq<char> {
    "entering phase '"@ + phase_name(p) + "'"@
}

/// Message written when the boot completes.
pub open spec fn complete_msg(ts: u64) -> Seq<char> {
    "boot complete in "@ + decimal(ts as nat) + "ns"@
}

/// Views of a sequence of strings.
pub open spec fn string_views(s: Seq<String>) -> Seq<Seq<char>> {
    s.map_values(|x: String| x@)
}

pub struct BootSequence {
    current_phase: BootPhase,
    completed_phases: Vec<BootPhase>,
    boot_log: Vec<String>,
    boot_time_ns: u64,
    phase_timestamps: IdMap<u64>,
}

/// What a boot sequence holds.
pub struct BootView {
    /// The phase the boot is in.
    pub phase: BootPhase,
    /// Phases completed so far, in order of completion.
    pub completed: Seq<BootPhase>,
    /// The boot log.
    pub log: Seq<Seq<char>>,
    /// Completion time of each phase, keyed by its position in the boot order.
    pub times: Map<u32, u64>,
    /// Time at which the boot was declared complete.
    pub boot_time: u64,
}

/// A fresh boot sequence.
pub open spec fn boot_start() -> BootView {
    BootView {
        phase: BootPhase::PreBoot,
        completed: Seq::empty(),
        log: Seq::empty(),
        times: Map::empty(),
        boot_time: 0,
    }
}

/// `msg` is written to the log, tagged with the current phase.
pub open spec fn boot_logged(v: BootView, msg: Seq<char>) -> BootView {
    BootView { log: v.log.push(log_line(v.phase, msg)), ..v }
}

/// The current phase completes at `ts` and the next one is entered.
pub open spec fn boot_advanced(v: BootView, ts: u64) -> BootView {
    let done = BootView {
        completed: v.completed.push(v.phase),
        times: v.times.insert(phase_ord(v.phase) as u32, ts),
        ..boot_logged(v, completed_msg(v.phase, ts))
    };
    if order_index(v.phase) + 1 < 10 {
        let entered = BootView { phase: next_phase(v.phase), ..done };
        boot_logged(entered, entering_msg(next_phase(v.phase)))
    } else {
        done
    }
}

/// The boot is declared complete at `ts`.
pub open spec fn boot_completed(v: BootView, ts: u64) -> BootView {
    boot_logged(BootView { boot_time: ts, phase: BootPhase::Running, ..v }, complete_msg(ts))
}

/// The system starts shutting down.
pub open spec fn boot_shut_down(v: BootView) -> BootView {
    boot_logged(BootView { phase: BootPhase::Shutdown, ..v }, "system shutdown initiated"@)
}

impl View for BootSequence {
    type V = BootView;

    closed spec fn view(&self) -> BootView {
        BootView {
            phase: self.current_phase,
            completed: self.completed_phases@,
            log: string_views(self.boot_log@),
            times: self.phase_timestamps@,
            boot_time: self.boot_time_ns,
        }
    }
}

impl BootSequence {
    pub closed spec fn wf(&self) -> bool {
        self.phase_timestamps.wf()
    }

    pub fn new() -> (b: Self)
        ensures
            b.wf(),
            b@ == boot_start(),
    {
        let b = BootSequence {
            current_phase: BootPhase::PreBoot,
            completed_phases: Vec::new(),
            boot_log: Vec::new(),
            boot_time_ns: 0,
            phase_timestamps: IdMap::new(),
        };
        assert(b@.log =~= Seq::<Seq<char>>::empty());
        assert(b@.completed =~= Seq::<BootPhase>::empty());
        b
    }

    pub fn current_phase(&self) -> (r: BootPhase)
        ensures
            r == self@.phase,
    {
        self.current_phase
    }

    /// Appends `[phase] msg` to the boot log.
    pub fn log(&mut self, msg: &str)
        ensures
            final(self)@ == boot_logged(old(self)@, msg@),
            final(self).wf() == old(self).wf(),
    {
        let mut line = String::from_str("[");
        line.append(self.current_phase.name());
        line.append("] ");
        line.append(msg);
        self.boot_log.push(line);
        assert(self@.log =~= old(self)@.log.push(log_line(old(self)@.phase, msg@)));
    }

    fn log_string(&mut self, msg: String)
        ensures
            final(self)@ == boot_logged(old(self)@, msg@),
            final(self).wf() == old(self).wf(),
    {
        self.log(msg.as_str());
    }

    /// Completes the current phase at `timestamp_ns` and moves to the next one.
    pub fn advance(&mut self, timestamp_ns: u64) -> (r: BootPhase)
        requires
            old(self).wf(),
        ensures
            final(self).wf(),
            final(self)@ == boot_advanced(old(self)@, timestamp_ns),
            r == final(self)@.phase,
    {
        let phases = BootPhase::order();
        let cur = self.current_phase;
        // Position of the current phase in the boot order; a phase outside it counts as the first.
        let idx: usize = if cur == BootPhase::Shutdown { 0 } else { cur.ordinal() as usize };
        self.completed_phases.push(cur);
        self.phase_timestamps.insert(cur.ordinal(), timestamp_ns);
        let mut msg = String::from_str("phase '");
        msg.append(cur.name());
        msg.append("' completed at ");
        push_decimal(&mut msg, timestamp_ns);
        msg.append("ns");
        self.log_string(msg);
        if idx + 1 < phases.len() {
            self.current_phase = phases[idx + 1];
            let mut msg2 = String::from_str("entering phase '");
            msg2.append(self.current_phase.name());
            msg2.append("'");
            self.log_string(msg2);
        }
        self.current_phase
    }

    pub fn is_running(&self) -> (r: bool)
        ensures
            r == (self@.phase == BootPhase::Running),
    {
        self.current_phase == BootPhase::Running
    }

    pub fn is_booting(&self) -> (r: bool)
        ensures
            r == (self@.phase != BootPhase::Running && self@.phase != BootPhase::Shutdown),
    {
        self.current_phase != BootPhase::Running && self.current_phase != BootPhase::Shutdown
    }

    pub fn completed_count(&self) -> (r: usize)
        ensures
            r == self@.completed.len(),
    {
        self.completed_phases.len()
    }

    pub fn total_phases(&self) -> (r: usize)
        ensures
            r == BOOT_PHASE_COUNT,
    {
        BootPhase::order().len()
    }

    /// Boot progress in percent: 100 once the system runs, else the share of
    /// the boot order that has been completed (at most 100).
    pub fn boot_progress(&self) -> (r: u64)
        ensures
            r == boot_percent(self@.phase, self@.completed.len()),
    {
        if self.current_phase == BootPhase::Running {
            100
        } else {
            let c = self.completed_phases.len();
            if c >= BOOT_PHASE_COUNT {
                100
            } else {
                (c as u64) * 100 / (BOOT_PHASE_COUNT as u64)
            }
        }
    }

    pub fn boot_log(&self) -> (r: &[String])
        ensures
            string_views(r@) == self@.log,
    {
        self.boot_log.as_slice()
    }

    pub fn phase_time(&self, phase: BootPhase) -> (r: Option<u64>)
        requires
            self.wf(),
        ensures
            r == (if self@.times.contains_key(phase_ord(phase) as u32) {
                Some(self@.times[phase_ord(phase) as u32])
            } else {
                None::<u64>
            }),
    {
        match self.phase_timestamps.get(phase.ordinal()) {
            Some(t) => Some(*t),
            None => None,
        }
    }

    pub fn total_boot_time(&self) -> (r: u64)
        ensures
            r == self@.boot_time,
    {
        self.boot_time_ns
    }

    pub fn set_boot_complete(&mut self, timestamp_ns: u64)
        ensures
            final(self)@ == boot_completed(old(self)@, timestamp_ns),
            final(self).wf() == old(self).wf(),
    {
        self.boot_time_ns = timestamp_ns;
        self.current_phase = BootPhase::Running;
        let mut msg = String::from_str("boot complete in ");
        push_decimal(&mut msg, timestamp_ns);
        msg.append("ns");
        self.log_string(msg);
    }

    pub fn shutdown(&mut self)
        ensures
            final(self)@ == boot_shut_down(old(self)@),
            final(self).wf() == old(self).wf(),
    {
        self.current_phase = BootPhase::Shutdown;
        self.log("system shutdown initiated");
    }
}

impl Default for BootSequence {
    fn default() -> (b: Self)
        ensures
            b.wf(),
            b@ == boot_start(),
    {
        BootSequence::new()
    }
}

/// Boot progress in percent for a boot in phase `p` with `completed` phases done.
pub open spec fn boot_percent(p: BootPhase, completed: nat) -> nat {
    if p == BootPhase::Running {
        100
    } else if completed >= 10 {
        100
    } else {
        completed * 100 / 10
    }
}


// ═══════════════════════════════════════════════════════════════════════════════
// User and group ids
// ═══════════════════════════════════════════════════════════════════════════════

pub const ROOT_UID: u32 = 0;
pub const ROOT_GID: u32 = 0;
pub const INIT_PID: u32 = 1;

#[derive(Clone, Copy, Debug, PartialEq, Eq, Structural, Default)]
pub struct UserGroup {
    pub uid: u32,
    pub gid: u32,
    /// Effective UID.
    pub euid: u32,
    /// Effective GID.
    pub egid: u32,
}

impl UserGroup {
    /// Whether the real or effective uid is root.
    pub open spec fn root_spec(self) -> bool {
        self.euid == ROOT_UID || self.uid == ROOT_UID
    }

    pub fn root() -> (u: Self)
        ensures
            u == (UserGroup { uid: ROOT_UID, gid: ROOT_GID, euid: ROOT_UID, egid: ROOT_GID }),
    {
        UserGroup { uid: ROOT_UID, gid: ROOT_GID, euid: ROOT_UID, egid: ROOT_GID }
    }

    pub fn new(uid: u32, gid: u32) -> (u: Self)
        ensures
            u == (UserGroup { uid, gid, euid: uid, egid: gid }),
    {
        UserGroup { uid, gid, euid: uid, egid: gid }
    }

    pub fn is_root(&self) -> (r: bool)
        ensures
            r == self.root_spec(),
    {
        self.euid == ROOT_UID || self.uid == ROOT_UID
    }

    /// Only root may change its uid; the effective uid follows.
    pub fn setuid(&mut self, uid: u32)
        ensures
            *final(self) == if old(self).root_spec() {
                UserGroup { uid, euid: uid, ..*old(self) }
            } else {
                *old(self)
            },
    {
        if self.is_root() {
            self.uid = uid;
            self.euid = uid;
        }
    }

    /// Root may set any effective uid, others only their real uid.
    pub fn seteuid(&mut self, euid: u32)
        ensures
            *final(self) == if old(self).root_spec() || euid == old(self).uid {
                UserGroup { euid, ..*old(self) }
            } else {
                *old(self)
            },
    {
        if self.is_root() || euid == self.uid {
            self.euid = euid;
        }
    }

    /// Only root may change its gid; the effective gid follows.
    pub fn setgid(&mut self, gid: u32)
        ensures
            *final(self) == if old(self).root_spec() {
                UserGroup { gid, egid: gid, ..*old(self) }
            } else {
                *old(self)
            },
    {
        if self.is_root() {
            self.gid = gid;
            self.egid = gid;
        }
    }
}

// ═══════════════════════════════════════════════════════════════════════════════
// Process groups and sessions
// ═══════════════════════════════════════════════════════════════════════════════

pub type Pgid = u32;
pub type Sid = u32;

/// `s` with `x` appended unless it is already there.
pub open spec fn add_unique<T>(s: Seq<T>, x: T) -> Seq<T> {
    if s.contains(x) {
        s
    } else {
        s.push(x)
    }
}

/// The pids of `s` other than `pid`, in order.
pub open spec fn without_pid(s: Seq<Pid>, pid: Pid) -> Seq<Pid> {
    s.filter(not_pid(pid))
}

/// The test "is not `pid`".
pub open spec fn not_pid(pid: Pid) -> spec_fn(Pid) -> bool {
    |p: Pid| p != pid
}

fn vec_has_pid(v: &Vec<Pid>, pid: Pid) -> (r: bool)
    ensures
        r == v@.contains(pid),
{
    let mut i: usize = 0;
    while i < v.len()
        invariant
            i <= v@.len(),
            forall|j: int| 0 <= j < i ==> v@[j] != pid,
        decreases v@.len() - i,
    {
        if v[i] == pid {
            return true;
        }
        i = i + 1;
    }
    false
}

fn vec_has_u32(v: &Vec<u32>, x: u32) -> (r: bool)
    ensures
        r == v@.contains(x),
{
    let mut i: usize = 0;
    while i < v.len()
        invariant
            i <= v@.len(),
            forall|j: int| 0 <= j < i ==> v@[j] != x,
        decreases v@.len() - i,
    {
        if v[i] == x {
            return true;
        }
        i = i + 1;
    }
    false
}

fn copy_pids(v: &Vec<Pid>) -> (r: Vec<Pid>)
    ensures
        r@ == v@,
{
    let mut out: Vec<Pid> = Vec::new();
    let mut i: usize = 0;
    while i < v.len()
        invariant
            i <= v@.len(),
            out@ == v@.take(i as int),
        decreases v@.len() - i,
    {
        out.push(v[i]);
        i = i + 1;
        assert(out@ =~= v@.take(i as int));
    }
    assert(v@.take(v@.len() as int) =~= v@);
    out
}

/// A process group, the unit of job control.
#[derive(Clone, Debug)]
pub struct ProcessGroup {
    pub pgid: Pgid,
    pub leader: Pid,
    pub members: Vec<Pid>,
    pub session: Sid,
}

/// What a process group holds.
pub struct GroupView {
    pub pgid: Pgid,
    pub leader: Pid,
    pub members: Seq<Pid>,
    pub session: Sid,
}

impl View for ProcessGroup {
    type V = GroupView;

    open spec fn view(&self) -> GroupView {
        GroupView { pgid: self.pgid, leader: self.leader, members: self.members@, session: self.session }
    }
}

/// A group just created with `leader` as its only member.
pub open spec fn fresh_group(pgid: Pgid, leader: Pid, session: Sid) -> GroupView {
    GroupView { pgid, leader, members: seq![leader], session }
}

/// The group with `pid` added to its members, unless it is already one.
pub open spec fn group_with(g: GroupView, pid: Pid) -> GroupView {
    GroupView { members: add_unique(g.members, pid), ..g }
}

/// The group with `pid` removed from its members.
pub open spec fn group_without(g: GroupView, pid: Pid) -> GroupView {
    GroupView { members: without_pid(g.members, pid), ..g }
}

impl ProcessGroup {
    pub fn new(pgid: Pgid, leader: Pid, session: Sid) -> (g: Self)
        ensures
            g@ == fresh_group(pgid, leader, session),
    {
        let g = ProcessGroup { pgid, leader, members: vec![leader], session };
        assert(g@.members =~= seq![leader]);
        g
    }

    pub fn add_member(&mut self, pid: Pid)
        ensures
            final(self)@ == group_with(old(self)@, pid),
    {
        if !vec_has_pid(&self.members, pid) {
            self.members.push(pid);
        }
    }

    /// Removes `pid`; returns whether members remain.
    pub fn remove_member(&mut self, pid: Pid) -> (r: bool)
        ensures
            final(self)@ == group_without(old(self)@, pid),
            r == (final(self)@.members.len() > 0),
    {
        let mut kept: Vec<Pid> = Vec::new();
        let mut i: usize = 0;
        while i < self.members.len()
            invariant
                i <= self.members@.len(),
                self.members@ == old(self).members@,
                kept@ == self.members@.take(i as int).filter(not_pid(pid)),
            decreases self.members@.len() - i,
        {
            proof {
                crate::seqs::lemma_filter_take_succ(self.members@, i as int, not_pid(pid));
            }
            let m = self.members[i];
            if m != pid {
                kept.push(m);
            }
            i = i + 1;
        }
        proof {
            crate::seqs::lemma_take_full(self.members@);
        }
        self.members = kept;
        self.members.len() > 0
    }

    pub fn member_count(&self) -> (r: usize)
        ensures
            r == self@.members.len(),
    {
        self.members.len()
    }

    pub fn contains(&self, pid: Pid) -> (r: bool)
        ensures
            r == self@.members.contains(pid),
    {
        vec_has_pid(&self.members, pid)
    }
}

/// A login session.
#[derive(Clone, Debug)]
pub struct Session {
    pub sid: Sid,
    pub leader: Pid,
    pub groups: Vec<Pgid>,
    pub controlling_tty: Option<u32>,
}

/// What a session holds.
pub struct SessionView {
    pub sid: Sid,
    pub leader: Pid,
    pub groups: Seq<Pgid>,
    pub controlling_tty: Option<u32>,
}

impl View for Session {
    type V = SessionView;

    open spec fn view(&self) -> SessionView {
        SessionView {
            sid: self.sid,
            leader: self.leader,
            groups: self.groups@,
            controlling_tty: self.controlling_tty,
        }
    }
}

/// The session with `pgid` added to its groups, unless it is already one.
pub open spec fn session_with(s: SessionView, pgid: Pgid) -> SessionView {
    SessionView { groups: add_unique(s.groups, pgid), ..s }
}

impl Session {
    pub fn new(sid: Sid, leader: Pid) -> (s: Self)
        ensures
            s@ == (SessionView { sid, leader, groups: Seq::empty(), controlling_tty: None }),
    {
        let s = Session { sid, leader, groups: Vec::new(), controlling_tty: None };
        assert(s@.groups =~= Seq::<Pgid>::empty());
        s
    }

    pub fn add_group(&mut self, pgid: Pgid)
        ensures
            final(self)@ == session_with(old(self)@, pgid),
    {
        if !vec_has_u32(&self.groups, pgid) {
            self.groups.push(pgid);
        }
    }

    pub fn set_controlling_tty(&mut self, tty: u32)
        ensures
            final(self)@ == (SessionView { controlling_tty: Some(tty), ..old(self)@ }),
    {
        self.controlling_tty = Some(tty);
    }

    pub fn group_count(&self) -> (r: usize)
        ensures
            r == self@.groups.len(),
    {
        self.groups.len()
    }
}


/// What the process group manager holds.
pub struct PgmView {
    pub groups: Seq<GroupView>,
    pub sessions: Seq<SessionView>,
    /// Process group of each process, by pid.
    pub group_of: Map<u32, Pgid>,
    /// Session of each process, by pid.
    pub session_of: Map<u32, Sid>,
    pub next_pgid: Pgid,
    pub next_sid: Sid,
}

pub open spec fn group_views(s: Seq<ProcessGroup>) -> Seq<GroupView> {
    s.map_values(|g: ProcessGroup| g@)
}

pub open spec fn session_views(s: Seq<Session>) -> Seq<SessionView> {
    s.map_values(|x: Session| x@)
}

/// The group at position `i` has id `pgid`.
pub open spec fn pgid_at(gs: Seq<GroupView>, pgid: Pgid, i: int) -> bool {
    0 <= i < gs.len() && gs[i].pgid == pgid
}

/// Position of the group `pgid`, or -1.
pub open spec fn pgid_index(gs: Seq<GroupView>, pgid: Pgid) -> int {
    if exists|i: int| pgid_at(gs, pgid, i) {
        choose|i: int| pgid_at(gs, pgid, i)
    } else {
        -1
    }
}

/// The session at position `i` has id `sid`.
pub open spec fn sid_at(ss: Seq<SessionView>, sid: Sid, i: int) -> bool {
    0 <= i < ss.len() && ss[i].sid == sid
}

/// Position of the session `sid`, or -1.
pub open spec fn sid_index(ss: Seq<SessionView>, sid: Sid) -> int {
    if exists|i: int| sid_at(ss, sid, i) {
        choose|i: int| sid_at(ss, sid, i)
    } else {
        -1
    }
}

/// Group and session ids are distinct and below the next ids to hand out.
pub open spec fn pgm_ids_ok(v: PgmView) -> bool {
    &&& forall|i: int, j: int| 0 <= i < j < v.groups.len() ==> v.groups[i].pgid != v.groups[j].pgid
    &&& forall|i: int| 0 <= i < v.groups.len() ==> v.groups[i].pgid < v.next_pgid
    &&& forall|i: int, j: int| 0 <= i < j < v.sessions.len() ==> v.sessions[i].sid != v.sessions[j].sid
    &&& forall|i: int| 0 <= i < v.sessions.len() ==> v.sessions[i].sid < v.next_sid
}

/// A new group led by `leader` in `session`, taking the next group id.
pub open spec fn pgm_new_group(v: PgmView, leader: Pid, session: Sid) -> PgmView {
    PgmView {
        groups: v.groups.push(fresh_group(v.next_pgid, leader, session)),
        group_of: v.group_of.insert(leader.0, v.next_pgid),
        session_of: v.session_of.insert(leader.0, session),
        next_pgid: (v.next_pgid + 1) as u32,
        ..v
    }
}

/// A new session led by `leader`, with a new group of its own.
pub open spec fn pgm_new_session(v: PgmView, leader: Pid) -> PgmView {
    let sid = v.next_sid;
    let w = pgm_new_group(PgmView { next_sid: (sid + 1) as u32, ..v }, leader, sid);
    PgmView {
        sessions: w.sessions.push(
            SessionView { sid, leader, groups: seq![v.next_pgid], controlling_tty: None },
        ),
        ..w
    }
}

/// `session` records `pgid` as one of its groups, if there is such a session.
pub open spec fn pgm_session_add(v: PgmView, session: Sid, pgid: Pgid) -> PgmView {
    let k = sid_index(v.sessions, session);
    if k >= 0 {
        PgmView { sessions: v.sessions.update(k, session_with(v.sessions[k], pgid)), ..v }
    } else {
        v
    }
}

/// `pid` leaves the group it was recorded in, if that group exists.
pub open spec fn pgm_leave_old(v: PgmView, pid: Pid) -> Seq<GroupView> {
    if v.group_of.contains_key(pid.0) && pgid_index(v.groups, v.group_of[pid.0]) >= 0 {
        let j = pgid_index(v.groups, v.group_of[pid.0]);
        v.groups.update(j, group_without(v.groups[j], pid))
    } else {
        v.groups
    }
}

/// `pid` moves into group `pgid`, if that group exists.
pub open spec fn pgm_join(v: PgmView, pid: Pid, pgid: Pgid) -> PgmView {
    let i = pgid_index(v.groups, pgid);
    if i < 0 {
        v
    } else {
        let gs = pgm_leave_old(v, pid);
        PgmView {
            groups: gs.update(i, group_with(gs[i], pid)),
            group_of: v.group_of.insert(pid.0, pgid),
            session_of: v.session_of.insert(pid.0, v.groups[i].session),
            ..v
        }
    }
}

/// `pid` leaves its group, which disappears once empty, and is forgotten.
pub open spec fn pgm_remove(v: PgmView, pid: Pid) -> PgmView {
    let gs = if v.group_of.contains_key(pid.0) && pgid_index(v.groups, v.group_of[pid.0]) >= 0 {
        let j = pgid_index(v.groups, v.group_of[pid.0]);
        let g = group_without(v.groups[j], pid);
        if g.members.len() == 0 {
            v.groups.remove(j)
        } else {
            v.groups.update(j, g)
        }
    } else {
        v.groups
    };
    PgmView {
        groups: gs,
        group_of: v.group_of.remove(pid.0),
        session_of: v.session_of.remove(pid.0),
        ..v
    }
}

/// Members of the groups of session `sid`, group by group.
pub open spec fn session_members(gs: Seq<GroupView>, sid: Sid) -> Seq<Pid>
    decreases gs.len(),
{
    if gs.len() == 0 {
        Seq::empty()
    } else {
        session_members(gs.drop_last(), sid) + if gs.last().session == sid {
            gs.last().members
        } else {
            Seq::empty()
        }
    }
}

/// Process groups and sessions.
pub struct ProcessGroupManager {
    groups: Vec<ProcessGroup>,
    sessions: Vec<Session>,
    process_groups: IdMap<Pgid>,
    process_sessions: IdMap<Sid>,
    next_pgid: Pgid,
    next_sid: Sid,
}

impl View for ProcessGroupManager {
    type V = PgmView;

    closed spec fn view(&self) -> PgmView {
        PgmView {
            groups: group_views(self.groups@),
            sessions: session_views(self.sessions@),
            group_of: self.process_groups@,
            session_of: self.process_sessions@,
            next_pgid: self.next_pgid,
            next_sid: self.next_sid,
        }
    }
}

proof fn lemma_pgid_index(gs: Seq<GroupView>, pgid: Pgid, i: int)
    requires
        pgid_at(gs, pgid, i),
        forall|a: int, b: int| 0 <= a < b < gs.len() ==> gs[a].pgid != gs[b].pgid,
    ensures
        pgid_index(gs, pgid) == i,
{
    let k = choose|k: int| pgid_at(gs, pgid, k);
    assert(pgid_at(gs, pgid, k));
    if k < i {
        assert(gs[k].pgid != gs[i].pgid);
    } else if i < k {
        assert(gs[i].pgid != gs[k].pgid);
    }
}

proof fn lemma_sid_index(ss: Seq<SessionView>, sid: Sid, i: int)
    requires
        sid_at(ss, sid, i),
        forall|a: int, b: int| 0 <= a < b < ss.len() ==> ss[a].sid != ss[b].sid,
    ensures
        sid_index(ss, sid) == i,
{
    let k = choose|k: int| sid_at(ss, sid, k);
    assert(sid_at(ss, sid, k));
    if k < i {
        assert(ss[k].sid != ss[i].sid);
    } else if i < k {
        assert(ss[i].sid != ss[k].sid);
    }
}

impl ProcessGroupManager {
    pub closed spec fn wf(&self) -> bool {
        &&& pgm_ids_ok(self@)
        &&& self.process_groups.wf()
        &&& self.process_sessions.wf()
    }

    pub fn new() -> (m: Self)
        ensures
            m.wf(),
            m@ == (PgmView {
                groups: Seq::empty(),
                sessions: Seq::empty(),
                group_of: Map::empty(),
                session_of: Map::empty(),
                next_pgid: 1,
                next_sid: 1,
            }),
    {
        let m = ProcessGroupManager {
            groups: Vec::new(),
            sessions: Vec::new(),
            process_groups: IdMap::new(),
            process_sessions: IdMap::new(),
            next_pgid: 1,
            next_sid: 1,
        };
        assert(m@.groups =~= Seq::<GroupView>::empty());
        assert(m@.sessions =~= Seq::<SessionView>::empty());
        m
    }

    fn group_pos(&self, pgid: Pgid) -> (r: Option<usize>)
        requires
            self.wf(),
        ensures
            match r {
                Some(i) => i < self@.groups.len() && i == pgid_index(self@.groups, pgid),
                None => pgid_index(self@.groups, pgid) == -1,
            },
    {
        let mut i: usize = 0;
        while i < self.groups.len()
            invariant
                self.wf(),
                i <= self.groups@.len(),
                forall|j: int| 0 <= j < i ==> self.groups@[j].pgid != pgid,
            decreases self.groups@.len() - i,
        {
            if self.groups[i].pgid == pgid {
                proof {
                    lemma_pgid_index(self@.groups, pgid, i as int);
                }
                return Some(i);
            }
            i = i + 1;
        }
        assert(!exists|k: int| pgid_at(self@.groups, pgid, k));
        None
    }

    fn session_pos(&self, sid: Sid) -> (r: Option<usize>)
        requires
            self.wf(),
        ensures
            match r {
                Some(i) => i < self@.sessions.len() && i == sid_index(self@.sessions, sid),
                None => sid_index(self@.sessions, sid) == -1,
            },
    {
        let mut i: usize = 0;
        while i < self.sessions.len()
            invariant
                self.wf(),
                i <= self.sessions@.len(),
                forall|j: int| 0 <= j < i ==> self.sessions@[j].sid != sid,
            decreases self.sessions@.len() - i,
        {
            if self.sessions[i].sid == sid {
                proof {
                    lemma_sid_index(self@.sessions, sid, i as int);
                }
                return Some(i);
            }
            i = i + 1;
        }
        assert(!exists|k: int| sid_at(self@.sessions, sid, k));
        None
    }

    fn create_group_internal(&mut self, leader: Pid, session: Sid) -> (pgid: Pgid)
        requires
            old(self).wf(),
            old(self)@.next_pgid < u32::MAX,
        ensures
            final(self).wf(),
            pgid == old(self)@.next_pgid,
            final(self)@ == pgm_new_group(old(self)@, leader, session),
    {
        let pgid = self.next_pgid;
        self.next_pgid = self.next_pgid + 1;
        let group = ProcessGroup::new(pgid, leader, session);
        self.groups.push(group);
        self.process_groups.insert(leader.0, pgid);
        self.process_sessions.insert(leader.0, session);
        assert(self@.groups =~= old(self)@.groups.push(fresh_group(pgid, leader, session)));
        pgid
    }

    /// Creates a session led by `leader`, which gets a group of its own (setsid).
    pub fn create_session(&mut self, leader: Pid) -> (sid: Sid)
        requires
            old(self).wf(),
            old(self)@.next_pgid < u32::MAX,
            old(self)@.next_sid < u32::MAX,
        ensures
            final(self).wf(),
            sid == old(self)@.next_sid,
            final(self)@ == pgm_new_session(old(self)@, leader),
    {
        let sid = self.next_sid;
        self.next_sid = self.next_sid + 1;
        let mut session = Session::new(sid, leader);
        let pgid = self.create_group_internal(leader, sid);
        session.add_group(pgid);
        self.sessions.push(session);
        self.process_sessions.insert(leader.0, sid);
        proof {
            let w = pgm_new_group(PgmView { next_sid: (sid + 1) as u32, ..old(self)@ }, leader, sid);
            assert(session@.groups =~= seq![pgid]);
            assert(self@.sessions =~= w.sessions.push(
                SessionView { sid, leader, groups: seq![pgid], controlling_tty: None },
            ));
            assert(self@.session_of =~= w.session_of);
        }
        sid
    }

    /// Creates a group led by `leader` in `session`.
    pub fn create_group(&mut self, leader: Pid, session: Sid) -> (pgid: Pgid)
        requires
            old(self).wf(),
            old(self)@.next_pgid < u32::MAX,
        ensures
            final(self).wf(),
            pgid == old(self)@.next_pgid,
            final(self)@ == pgm_session_add(pgm_new_group(old(self)@, leader, session), session, pgid),
    {
        let pgid = self.create_group_internal(leader, session);
        let ghost mid = self@;
        match self.session_pos(session) {
            Some(k) => {
                self.sessions[k].add_group(pgid);
                assert(self@.sessions =~= mid.sessions.update(
                    k as int,
                    session_with(mid.sessions[k as int], pgid),
                ));
            },
            None => {},
        }
        pgid
    }

    /// Moves `pid` into the existing group `pgid`; false if there is no such group.
    pub fn join_group(&mut self, pid: Pid, pgid: Pgid) -> (r: bool)
        requires
            old(self).wf(),
        ensures
            final(self).wf(),
            r == (pgid_index(old(self)@.groups, pgid) >= 0),
            final(self)@ == pgm_join(old(self)@, pid, pgid),
    {
        let i = match self.group_pos(pgid) {
            Some(i) => i,
            None => {
                return false;
            },
        };
        let session = self.groups[i].session;
        let ghost v = self@;
        match self.process_groups.get(pid.0) {
            Some(old_pgid) => {
                let old_pgid = *old_pgid;
                match self.group_pos(old_pgid) {
                    Some(j) => {
                        self.groups[j].remove_member(pid);
                        assert(self@.groups =~= pgm_leave_old(v, pid));
                    },
                    None => {},
                }
            },
            None => {},
        }
        assert(self@.groups == pgm_leave_old(v, pid));
        let ghost gs = self@.groups;
        self.groups[i].add_member(pid);
        assert(self@.groups =~= gs.update(i as int, group_with(gs[i as int], pid)));
        self.process_groups.insert(pid.0, pgid);
        self.process_sessions.insert(pid.0, session);
        true
    }

    /// The group that `pid` belongs to.
    pub fn get_group(&self, pid: Pid) -> (r: Option<&ProcessGroup>)
        requires
            self.wf(),
        ensures
            match r {
                Some(g) => self@.group_of.contains_key(pid.0) && pgid_index(
                    self@.groups,
                    self@.group_of[pid.0],
                ) >= 0 && g@ == self@.groups[pgid_index(self@.groups, self@.group_of[pid.0])],
                None => !(self@.group_of.contains_key(pid.0) && pgid_index(
                    self@.groups,
                    self@.group_of[pid.0],
                ) >= 0),
            },
    {
        match self.process_groups.get(pid.0) {
            Some(pgid) => match self.group_pos(*pgid) {
                Some(i) => Some(&self.groups[i]),
                None => None,
            },
            None => None,
        }
    }

    /// The session that `pid` belongs to.
    pub fn get_session(&self, pid: Pid) -> (r: Option<&Session>)
        requires
            self.wf(),
        ensures
            match r {
                Some(x) => self@.session_of.contains_key(pid.0) && sid_index(
                    self@.sessions,
                    self@.session_of[pid.0],
                ) >= 0 && x@ == self@.sessions[sid_index(self@.sessions, self@.session_of[pid.0])],
                None => !(self@.session_of.contains_key(pid.0) && sid_index(
                    self@.sessions,
                    self@.session_of[pid.0],
                ) >= 0),
            },
    {
        match self.process_sessions.get(pid.0) {
            Some(sid) => match self.session_pos(*sid) {
                Some(i) => Some(&self.sessions[i]),
                None => None,
            },
            None => None,
        }
    }

    /// Forgets `pid` on exit; its group goes away once empty.
    pub fn remove_process(&mut self, pid: Pid)
        requires
            old(self).wf(),
        ensures
            final(self).wf(),
            final(self)@ == pgm_remove(old(self)@, pid),
    {
        let ghost v = self@;
        match self.process_groups.get(pid.0) {
            Some(pgid) => {
                let pgid = *pgid;
                match self.group_pos(pgid) {
                    Some(j) => {
                        let remains = self.groups[j].remove_member(pid);
                        if !remains {
                            let _ = self.groups.remove(j);
                            assert(self@.groups =~= v.groups.remove(j as int));
                            assert forall|a: int, b: int| 0 <= a < b < self@.groups.len() implies
                                self@.groups[a].pgid != self@.groups[b].pgid by {
                                let a2 = if a < j { a } else { a + 1 };
                                let b2 = if b < j { b } else { b + 1 };
                                assert(v.groups[a2].pgid != v.groups[b2].pgid);
                            }
                        } else {
                            assert(self@.groups =~= v.groups.update(
                                j as int,
                                group_without(v.groups[j as int], pid),
                            ));
                        }
                    },
                    None => {},
                }
            },
            None => {},
        }
        self.process_groups.remove(pid.0);
        self.process_sessions.remove(pid.0);
    }

    pub fn group_count(&self) -> (r: usize)
        ensures
            r == self@.groups.len(),
    {
        self.groups.len()
    }

    pub fn session_count(&self) -> (r: usize)
        ensures
            r == self@.sessions.len(),
    {
        self.sessions.len()
    }

    /// Members of group `pgid` (the targets of killpg); empty if there is no such group.
    pub fn group_members(&self, pgid: Pgid) -> (r: Vec<Pid>)
        requires
            self.wf(),
        ensures
            r@ == if pgid_index(self@.groups, pgid) >= 0 {
                self@.groups[pgid_index(self@.groups, pgid)].members
            } else {
                Seq::<Pid>::empty()
            },
    {
        match self.group_pos(pgid) {
            Some(i) => copy_pids(&self.groups[i].members),
            None => Vec::new(),
        }
    }

    /// All processes of session `sid`.
    pub fn session_processes(&self, sid: Sid) -> (r: Vec<Pid>)
        ensures
            r@ == session_members(self@.groups, sid),
    {
        let mut all: Vec<Pid> = Vec::new();
        let mut i: usize = 0;
        while i < self.groups.len()
            invariant
                i <= self.groups@.len(),
                all@ == session_members(self@.groups.take(i as int), sid),
            decreases self.groups@.len() - i,
        {
            proof {
                crate::seqs::lemma_take_succ(self@.groups, i as int);
                assert(self@.groups.take(i + 1).drop_last() =~= self@.groups.take(i as int));
            }
            if self.groups[i].session == sid {
                let ghost before = all@;
                let ms = &self.groups[i].members;
                let mut k: usize = 0;
                while k < ms.len()
                    invariant
                        k <= ms@.len(),
                        all@ == before + ms@.take(k as int),
                    decreases ms@.len() - k,
                {
                    all.push(ms[k]);
                    k = k + 1;
                    assert(all@ =~= before + ms@.take(k as int));
                }
                assert(ms@.take(ms@.len() as int) =~= ms@);
            } else {
                assert(all@ =~= session_members(self@.groups.take(i as int), sid) + Seq::<Pid>::empty());
            }
            i = i + 1;
        }
        assert(self@.groups.take(self@.groups.len() as int) =~= self@.groups);
        all
    }
}

impl Default for ProcessGroupManager {
    fn default() -> (m: Self)
        ensures
            m.wf(),
            m@ == (PgmView {
                groups: Seq::empty(),
                sessions: Seq::empty(),
                group_of: Map::empty(),
                session_of: Map::empty(),
                next_pgid: 1,
                next_sid: 1,
            }),
    {
        ProcessGroupManager::new()
    }
}


// ═══════════════════════════════════════════════════════════════════════════════
// Init process (PID 1)
// ═══════════════════════════════════════════════════════════════════════════════

#[derive(Clone, Copy, Debug, PartialEq, Eq, Structural)]
pub enum InitState {
    NotStarted,
    Starting,
    Running,
    /// Reaping zombie children.
    Reaping,
    ShuttingDown,
    Exited,
}

/// How PID 1 is started.
#[derive(Clone, Debug)]
pub struct InitConfig {
    pub binary_path: String,
    pub uid: u32,
    pub gid: u32,
    pub env: Vec<(String, String)>,
    /// Reap zombie children automatically.
    pub auto_reap: bool,
    /// How often init may be restarted after it exits.
    pub max_restarts: u32,
    pub restart_count: u32,
}

/// The default init configuration: `/bin/init` as root with a basic environment.
pub open spec fn default_init_config(c: InitConfig) -> bool {
    &&& c.binary_path@ == "/bin/init"@
    &&& c.uid == ROOT_UID
    &&& c.gid == ROOT_GID
    &&& c.env@.len() == 3
    &&& c.env@[0].0@ == "PATH"@ && c.env@[0].1@ == "/bin:/sbin"@
    &&& c.env@[1].0@ == "HOME"@ && c.env@[1].1@ == "/"@
    &&& c.env@[2].0@ == "SHELL"@ && c.env@[2].1@ == "/bin/sh"@
    &&& c.auto_reap
    &&& c.max_restarts == 3
    &&& c.restart_count == 0
}

impl Default for InitConfig {
    fn default() -> (c: Self)
        ensures
            default_init_config(c),
    {
        let mut env: Vec<(String, String)> = Vec::new();
        env.push((String::from_str("PATH"), String::from_str("/bin:/sbin")));
        env.push((String::from_str("HOME"), String::from_str("/")));
        env.push((String::from_str("SHELL"), String::from_str("/bin/sh")));
        InitConfig {
            binary_path: String::from_str("/bin/init"),
            uid: ROOT_UID,
            gid: ROOT_GID,
            env,
            auto_reap: true,
            max_restarts: 3,
            restart_count: 0,
        }
    }
}

/// The init process.
pub struct InitProcess {
    pub pid: Pid,
    pub state: InitState,
    pub config: InitConfig,
    pub children: Vec<Pid>,
    pub exit_code: Option<ExitCode>,
    pub start_time_ns: u64,
}

impl InitProcess {
    pub fn new() -> (p: Self)
        ensures
            p.pid == Pid(INIT_PID),
            p.state == InitState::NotStarted,
            default_init_config(p.config),
            p.children@ == Seq::<Pid>::empty(),
            p.exit_code == None::<ExitCode>,
            p.start_time_ns == 0,
    {
        InitProcess {
            pid: Pid(INIT_PID),
            state: InitState::NotStarted,
            config: InitConfig::default(),
            children: Vec::new(),
            exit_code: None,
            start_time_ns: 0,
        }
    }

    pub fn start(&mut self, timestamp_ns: u64)
        ensures
            final(self).state == InitState::Running,
            final(self).start_time_ns == timestamp_ns,
            final(self).pid == old(self).pid,
            final(self).config == old(self).config,
            final(self).children == old(self).children,
            final(self).exit_code == old(self).exit_code,
    {
        self.state = InitState::Starting;
        self.start_time_ns = timestamp_ns;
        self.state = InitState::Running;
    }

    pub fn add_child(&mut self, pid: Pid)
        ensures
            final(self).children@ == add_unique(old(self).children@, pid),
            final(self).pid == old(self).pid,
            final(self).state == old(self).state,
            final(self).config == old(self).config,
            final(self).exit_code == old(self).exit_code,
            final(self).start_time_ns == old(self).start_time_ns,
    {
        if !vec_has_pid(&self.children, pid) {
            self.children.push(pid);
        }
    }

    pub fn remove_child(&mut self, pid: Pid)
        ensures
            final(self).children@ == without_pid(old(self).children@, pid),
            final(self).pid == old(self).pid,
            final(self).state == old(self).state,
            final(self).config == old(self).config,
            final(self).exit_code == old(self).exit_code,
            final(self).start_time_ns == old(self).start_time_ns,
    {
        let mut kept: Vec<Pid> = Vec::new();
        let mut i: usize = 0;
        while i < self.children.len()
            invariant
                i <= self.children@.len(),
                self.children@ == old(self).children@,
                kept@ == self.children@.take(i as int).filter(not_pid(pid)),
            decreases self.children@.len() - i,
        {
            proof {
                crate::seqs::lemma_filter_take_succ(self.children@, i as int, not_pid(pid));
            }
            let c = self.children[i];
            if c != pid {
                kept.push(c);
            }
            i = i + 1;
        }
        proof {
            crate::seqs::lemma_take_full(self.children@);
        }
        self.children = kept;
    }

    pub fn child_count(&self) -> (r: usize)
        ensures
            r == self.children@.len(),
    {
        self.children.len()
    }

    pub fn should_restart(&self) -> (r: bool)
        ensures
            r == (self.config.restart_count < self.config.max_restarts),
    {
        self.config.restart_count < self.config.max_restarts
    }

    /// Restarts init if the restart budget allows it.
    pub fn restart(&mut self) -> (r: bool)
        ensures
            r == (old(self).config.restart_count < old(self).config.max_restarts),
            r ==> final(self).config == (InitConfig {
                restart_count: (old(self).config.restart_count + 1) as u32,
                ..old(self).config
            }),
            r ==> final(self).state == InitState::Starting,
            r ==> final(self).children@ == Seq::<Pid>::empty(),
            r ==> final(self).exit_code == None::<ExitCode>,
            r ==> final(self).pid == old(self).pid && final(self).start_time_ns
                == old(self).start_time_ns,
            !r ==> *final(self) == *old(self),
    {
        if !self.should_restart() {
            return false;
        }
        self.config.restart_count = self.config.restart_count + 1;
        self.state = InitState::Starting;
        self.children.clear();
        self.exit_code = None;
        true
    }

    pub fn shutdown(&mut self)
        ensures
            *final(self) == (InitProcess { state: InitState::ShuttingDown, ..*old(self) }),
    {
        self.state = InitState::ShuttingDown;
    }

    pub fn exit(&mut self, code: ExitCode)
        ensures
            *final(self) == (InitProcess {
                exit_code: Some(code),
                state: InitState::Exited,
                ..*old(self)
            }),
    {
        self.exit_code = Some(code);
        self.state = InitState::Exited;
    }

    pub fn is_running(&self) -> (r: bool)
        ensures
            r == (self.state == InitState::Running),
    {
        self.state == InitState::Running
    }

    pub fn is_exited(&self) -> (r: bool)
        ensures
            r == (self.state == InitState::Exited),
    {
        self.state == InitState::Exited
    }

    /// Time since start, zero if `now_ns` lies before it.
    pub fn uptime_ns(&self, now_ns: u64) -> (r: u64)
        ensures
            r == (if now_ns >= self.start_time_ns { (now_ns - self.start_time_ns) as u64 } else { 0 }),
    {
        now_ns.saturating_sub(self.start_time_ns)
    }
}


// ═══════════════════════════════════════════════════════════════════════════════
// System manager
// ═══════════════════════════════════════════════════════════════════════════════

/// The simulated boot: each step writes a log line, then completes a phase.
pub open spec fn boot_script(v: BootView) -> BootView {
    let v1 = boot_advanced(boot_logged(v, "initializing GDT, IDT, PIC"@), 1_000_000);
    let v2 = boot_advanced(boot_logged(v1, "initializing paging, heap allocator"@), 3_000_000);
    let v3 = boot_advanced(
        boot_logged(v2, "initializing process manager, scheduler, capabilities"@),
        8_000_000,
    );
    let v4 = boot_advanced(
        boot_logged(v3, "scanning PCI bus, initializing HPET, virtio-blk, virtio-net"@),
        18_000_000,
    );
    let v5 = boot_advanced(boot_logged(v4, "mounting VFS, initializing ATCFS"@), 21_000_000);
    let v6 = boot_advanced(
        boot_logged(v5, "initializing network stack, ARP table, TCP/IP"@),
        29_000_000,
    );
    let v7 = boot_advanced(
        boot_logged(v6, "initializing userspace manager, ELF loader, signal manager"@),
        33_000_000,
    );
    let v8 = boot_advanced(boot_logged(v7, "starting init process (PID 1)"@), 35_000_000);
    boot_completed(v8, 35_000_000)
}

/// The status report of the system.
pub open spec fn system_report(
    phase: BootPhase,
    uptime_ms: u64,
    init_pid: u32,
    init_running: bool,
    sessions: nat,
    groups: nat,
    progress: nat,
) -> Seq<char> {
    "ShivaCore System\nPhase: "@ + phase_name(phase) + "\nUptime: "@ + decimal(uptime_ms as nat)
        + "ms\nInit PID: "@ + decimal(init_pid as nat) + " ("@ + (if init_running {
        "running"@
    } else {
        "stopped"@
    }) + ")\nSessions: "@ + decimal(sessions) + "\nProcess Groups: "@ + decimal(groups)
        + "\nBoot Progress: "@ + decimal(progress) + ".0%"@
}

/// The boot sequence, PID 1, process groups and uptime together.
pub struct SystemManager {
    pub boot: BootSequence,
    pub init: InitProcess,
    pub proc_groups: ProcessGroupManager,
    pub system_uid: UserGroup,
    pub uptime_ns: u64,
    pub running: bool,
}

/// The process groups of a new system: PID 1 in a session and group of its own.
pub open spec fn initial_groups() -> PgmView {
    pgm_new_session(
        PgmView {
            groups: Seq::empty(),
            sessions: Seq::empty(),
            group_of: Map::empty(),
            session_of: Map::empty(),
            next_pgid: 1,
            next_sid: 1,
        },
        Pid(INIT_PID),
    )
}

impl SystemManager {
    pub open spec fn wf(&self) -> bool {
        self.boot.wf() && self.proc_groups.wf()
    }

    pub fn new() -> (m: Self)
        ensures
            m.wf(),
            m.boot@ == boot_start(),
            m.init.pid == Pid(INIT_PID),
            m.init.state == InitState::NotStarted,
            default_init_config(m.init.config),
            m.init.children@ == Seq::<Pid>::empty(),
            m.init.exit_code == None::<ExitCode>,
            m.init.start_time_ns == 0,
            m.proc_groups@ == initial_groups(),
            m.system_uid == (UserGroup { uid: ROOT_UID, gid: ROOT_GID, euid: ROOT_UID, egid: ROOT_GID }),
            m.uptime_ns == 0,
            !m.running,
    {
        let mut proc_groups = ProcessGroupManager::new();
        let _sid = proc_groups.create_session(Pid(INIT_PID));
        SystemManager {
            boot: BootSequence::new(),
            init: InitProcess::new(),
            proc_groups,
            system_uid: UserGroup::root(),
            uptime_ns: 0,
            running: false,
        }
    }

    /// Runs the simulated boot sequence and starts PID 1.
    pub fn boot_system(&mut self) -> (r: BootPhase)
        requires
            old(self).wf(),
        ensures
            final(self).wf(),
            r == BootPhase::Running,
            final(self).boot@ == boot_script(old(self).boot@),
            final(self).init.state == InitState::Running,
            final(self).init.start_time_ns == 33_000_000,
            final(self).init.pid == old(self).init.pid,
            final(self).init.config == old(self).init.config,
            final(self).init.children == old(self).init.children,
            final(self).init.exit_code == old(self).init.exit_code,
            final(self).proc_groups == old(self).proc_groups,
            final(self).system_uid == old(self).system_uid,
            final(self).running,
            final(self).uptime_ns == 35_000_000,
    {
        let mut ts: u64 = 0;
        self.boot.log("initializing GDT, IDT, PIC");
        ts = ts + 1_000_000;
        self.boot.advance(ts);
        self.boot.log("initializing paging, heap allocator");
        ts = ts + 2_000_000;
        self.boot.advance(ts);
        self.boot.log("initializing process manager, scheduler, capabilities");
        ts = ts + 5_000_000;
        self.boot.advance(ts);
        self.boot.log("scanning PCI bus, initializing HPET, virtio-blk, virtio-net");
        ts = ts + 10_000_000;
        self.boot.advance(ts);
        self.boot.log("mounting VFS, initializing ATCFS");
        ts = ts + 3_000_000;
        self.boot.advance(ts);
        self.boot.log("initializing network stack, ARP table, TCP/IP");
        ts = ts + 8_000_000;
        self.boot.advance(ts);
        self.boot.log("initializing userspace manager, ELF loader, signal manager");
        ts = ts + 4_000_000;
        self.boot.advance(ts);
        self.boot.log("starting init process (PID 1)");
        self.init.start(ts);
        ts = ts + 2_000_000;
        self.boot.advance(ts);
        self.running = true;
        self.uptime_ns = ts;
        self.boot.set_boot_complete(ts);
        self.boot.current_phase()
    }

    pub fn shutdown_system(&mut self)
        ensures
            final(self).boot@ == boot_shut_down(old(self).boot@),
            final(self).boot.wf() == old(self).boot.wf(),
            final(self).init == (InitProcess { state: InitState::ShuttingDown, ..old(self).init }),
            final(self).proc_groups == old(self).proc_groups,
            final(self).system_uid == old(self).system_uid,
            final(self).uptime_ns == old(self).uptime_ns,
            !final(self).running,
    {
        self.boot.shutdown();
        self.init.shutdown();
        self.running = false;
    }

    pub fn uptime_ns(&self) -> (r: u64)
        ensures
            r == self.uptime_ns,
    {
        self.uptime_ns
    }

    pub fn uptime_ms(&self) -> (r: u64)
        ensures
            r == self.uptime_ns / 1_000_000,
    {
        self.uptime_ns / 1_000_000
    }

    pub fn uptime_secs(&self) -> (r: u64)
        ensures
            r == self.uptime_ns / 1_000_000_000,
    {
        self.uptime_ns / 1_000_000_000
    }

    pub fn is_running(&self) -> (r: bool)
        ensures
            r == self.running,
    {
        self.running
    }

    /// Boot progress in percent.
    pub fn boot_progress(&self) -> (r: u64)
        ensures
            r == boot_percent(self.boot@.phase, self.boot@.completed.len()),
    {
        self.boot.boot_progress()
    }

    pub fn current_phase(&self) -> (r: BootPhase)
        ensures
            r == self.boot@.phase,
    {
        self.boot.current_phase()
    }

    /// Advances the uptime while the system runs.
    pub fn tick(&mut self, elapsed_ns: u64)
        requires
            old(self).running ==> old(self).uptime_ns + elapsed_ns <= u64::MAX,
        ensures
            final(self).uptime_ns == if old(self).running {
                (old(self).uptime_ns + elapsed_ns) as u64
            } else {
                old(self).uptime_ns
            },
            final(self).running == old(self).running,
            final(self).boot == old(self).boot,
            final(self).init == old(self).init,
            final(self).proc_groups == old(self).proc_groups,
            final(self).system_uid == old(self).system_uid,
    {
        if self.running {
            self.uptime_ns = self.uptime_ns + elapsed_ns;
        }
    }

    /// Registers a new user process forked from `parent`: it becomes a child of
    /// init when init is the parent, and joins the parent's process group.
    pub fn spawn_user_process(&mut self, parent: Pid, new_pid: Pid) -> (r: bool)
        requires
            old(self).wf(),
        ensures
            final(self).wf(),
            r == old(self).running,
            final(self).init.children@ == if r && parent == Pid(INIT_PID) {
                add_unique(old(self).init.children@, new_pid)
            } else {
                old(self).init.children@
            },
            final(self).proc_groups@ == if r && old(self).proc_groups@.group_of.contains_key(parent.0) {
                pgm_join(
                    old(self).proc_groups@,
                    new_pid,
                    old(self).proc_groups@.group_of[parent.0],
                )
            } else {
                old(self).proc_groups@
            },
            final(self).init.state == old(self).init.state,
            final(self).init.config == old(self).init.config,
            final(self).boot == old(self).boot,
            final(self).running == old(self).running,
            final(self).uptime_ns == old(self).uptime_ns,
    {
        if !self.running {
            return false;
        }
        if parent == Pid(INIT_PID) {
            self.init.add_child(new_pid);
        }
        match self.proc_groups.process_groups.get(parent.0) {
            Some(pgid) => {
                let pgid = *pgid;
                self.proc_groups.join_group(new_pid, pgid);
            },
            None => {},
        }
        true
    }

    /// Reaps a child of init: it leaves init's children and its process group.
    pub fn reap_child(&mut self, pid: Pid) -> (r: bool)
        requires
            old(self).wf(),
        ensures
            final(self).wf(),
            r,
            final(self).init.children@ == without_pid(old(self).init.children@, pid),
            final(self).proc_groups@ == pgm_remove(old(self).proc_groups@, pid),
            final(self).init.state == old(self).init.state,
            final(self).init.config == old(self).init.config,
            final(self).boot == old(self).boot,
            final(self).running == old(self).running,
            final(self).uptime_ns == old(self).uptime_ns,
    {
        self.init.remove_child(pid);
        self.proc_groups.remove_process(pid);
        true
    }

    /// A report of phase, uptime, init, sessions, groups and boot progress.
    pub fn system_info(&self) -> (r: String)
        ensures
            r@ == system_report(
                self.boot@.phase,
                self.uptime_ns / 1_000_000,
                self.init.pid.0,
                self.init.state == InitState::Running,
                self.proc_groups@.sessions.len(),
                self.proc_groups@.groups.len(),
                boot_percent(self.boot@.phase, self.boot@.completed.len()),
            ),
    {
        let mut out = String::from_str("ShivaCore System\nPhase: ");
        out.append(self.boot.current_phase().name());
        out.append("\nUptime: ");
        push_decimal(&mut out, self.uptime_ms());
        out.append("ms\nInit PID: ");
        push_decimal(&mut out, self.init.pid.0 as u64);
        out.append(" (");
        if self.init.is_running() {
            out.append("running");
        } else {
            out.append("stopped");
        }
        out.append(")\nSessions: ");
        push_decimal(&mut out, self.proc_groups.session_count() as u64);
        out.append("\nProcess Groups: ");
        push_decimal(&mut out, self.proc_groups.group_count() as u64);
        out.append("\nBoot Progress: ");
        push_decimal(&mut out, self.boot.boot_progress());
        out.append(".0%");
        out
    }
}

impl Default for SystemManager {
    fn default() -> (m: Self)
        ensures
            m.wf(),
            m.boot@ == boot_start(),
            m.proc_groups@ == initial_groups(),
            m.uptime_ns == 0,
            !m.running,
    {
        SystemManager::new()
    }
}

} // verus!
