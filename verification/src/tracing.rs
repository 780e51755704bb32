//! Kernel tracing and profiling: a ring buffer of trace events, event filters,
//! value histograms, a per-cpu function tracer, a syscall tracer, a sampling
//! profiler, latency tracking, and the manager that drives them together.
//!
//! Sequence numbers are given by the component that records an item: the ring
//! buffer numbers the events it records, the syscall tracer its records, the
//! profiler its samples, each from 0 upwards.

use vstd::prelude::*;
use crate::idmap::IdMap;
use crate::counters::{
    NameCounts, count_of, count_added, count_set, top_picks, top_indices, count_values, picked_entries,
    entry_views, string_views, count_names,
};
use crate::sockets::wrap_add64;
use crate::smp::wrap_inc;

verus! {

/// Category of a trace point.
#[derive(Clone, Copy, PartialEq, Eq, Debug, Hash, Structural)]
pub enum TraceCategory {
    Function,
    Syscall,
    Irq,
    Sched,
    Mem,
    Net,
    Block,
    Signal,
    Container,
    User,
    Custom,
}

/// The name of a category.
pub open spec fn category_name(c: TraceCategory) -> Seq<char> {
    match c {
        TraceCategory::Function => "function"@,
        TraceCategory::Syscall => "syscall"@,
        TraceCategory::Irq => "irq"@,
        TraceCategory::Sched => "sched"@,
        TraceCategory::Mem => "mem"@,
        TraceCategory::Net => "net"@,
        TraceCategory::Block => "block"@,
        TraceCategory::Signal => "signal"@,
        TraceCategory::Container => "container"@,
        TraceCategory::User => "user"@,
        TraceCategory::Custom => "custom"@,
    }
}

/// Position of a category in declaration order.
pub open spec fn category_index(c: TraceCategory) -> int {
    match c {
        TraceCategory::Function => 0,
        TraceCategory::Syscall => 1,
        TraceCategory::Irq => 2,
        TraceCategory::Sched => 3,
        TraceCategory::Mem => 4,
        TraceCategory::Net => 5,
        TraceCategory::Block => 6,
        TraceCategory::Signal => 7,
        TraceCategory::Container => 8,
        TraceCategory::User => 9,
        TraceCategory::Custom => 10,
    }
}

fn same_text(a: &str, b: &str) -> (r: bool)
    ensures
        r == (a@ == b@),
{
    String::from_str(a) == String::from_str(b)
}

impl TraceCategory {
    pub fn as_str(&self) -> (s: &'static str)
        ensures
            s@ == category_name(*self),
    {
        match self {
            TraceCategory::Function => "function",
            TraceCategory::Syscall => "syscall",
            TraceCategory::Irq => "irq",
            TraceCategory::Sched => "sched",
            TraceCategory::Mem => "mem",
            TraceCategory::Net => "net",
            TraceCategory::Block => "block",
            TraceCategory::Signal => "signal",
            TraceCategory::Container => "container",
            TraceCategory::User => "user",
            TraceCategory::Custom => "custom",
        }
    }

    /// The category named `s`, if any.
    pub fn from_str(s: &str) -> (r: Option<Self>)
        ensures
            match r {
                Some(c) => category_name(c) == s@,
                None => forall|c: TraceCategory| category_name(c) != s@,
            },
    {
        if same_text(s, "function") {
            Some(TraceCategory::Function)
        } else if same_text(s, "syscall") {
            Some(TraceCategory::Syscall)
        } else if same_text(s, "irq") {
            Some(TraceCategory::Irq)
        } else if same_text(s, "sched") {
            Some(TraceCategory::Sched)
        } else if same_text(s, "mem") {
            Some(TraceCategory::Mem)
        } else if same_text(s, "net") {
            Some(TraceCategory::Net)
        } else if same_text(s, "block") {
            Some(TraceCategory::Block)
        } else if same_text(s, "signal") {
            Some(TraceCategory::Signal)
        } else if same_text(s, "container") {
            Some(TraceCategory::Container)
        } else if same_text(s, "user") {
            Some(TraceCategory::User)
        } else if same_text(s, "custom") {
            Some(TraceCategory::Custom)
        } else {
            None
        }
    }

    fn index(&self) -> (i: usize)
        ensures
            i == category_index(*self),
    {
        match self {
            TraceCategory::Function => 0,
            TraceCategory::Syscall => 1,
            TraceCategory::Irq => 2,
            TraceCategory::Sched => 3,
            TraceCategory::Mem => 4,
            TraceCategory::Net => 5,
            TraceCategory::Block => 6,
            TraceCategory::Signal => 7,
            TraceCategory::Container => 8,
            TraceCategory::User => 9,
            TraceCategory::Custom => 10,
        }
    }
}

/// Kind of a trace event.
#[derive(Clone, Copy, PartialEq, Eq, Debug, Structural)]
pub enum TraceEventType {
    Entry,
    Exit,
    Event,
    Begin,
    End,
}

impl TraceEventType {
    pub fn as_str(&self) -> (s: &'static str)
        ensures
            s@ == match self {
                TraceEventType::Entry => "entry"@,
                TraceEventType::Exit => "exit"@,
                TraceEventType::Event => "event"@,
                TraceEventType::Begin => "begin"@,
                TraceEventType::End => "end"@,
            },
    {
        match self {
            TraceEventType::Entry => "entry",
            TraceEventType::Exit => "exit",
            TraceEventType::Event => "event",
            TraceEventType::Begin => "begin",
            TraceEventType::End => "end",
        }
    }
}

/// One trace event.
#[derive(Debug)]
pub struct TraceEvent {
    /// Number given by the ring buffer that records the event.
    pub seq: u64,
    /// Time of recording, in nanoseconds.
    pub timestamp: u64,
    pub cpu: u32,
    /// Process id (0: the kernel).
    pub pid: u32,
    pub category: TraceCategory,
    pub event_type: TraceEventType,
    pub name: String,
    pub arg1: u64,
    pub arg2: u64,
    pub arg3: u64,
    /// Duration of the traced region, for exit events.
    pub duration_ns: Option<u64>,
}

impl Clone for TraceEvent {
    fn clone(&self) -> (r: Self)
        ensures
            r == *self,
    {
        TraceEvent {
            seq: self.seq,
            timestamp: self.timestamp,
            cpu: self.cpu,
            pid: self.pid,
            category: self.category,
            event_type: self.event_type,
            name: self.name.clone(),
            arg1: self.arg1,
            arg2: self.arg2,
            arg3: self.arg3,
            duration_ns: self.duration_ns,
        }
    }
}

/// An event as the constructors make it: not yet numbered or stamped.
pub open spec fn new_event(
    e: TraceEvent,
    cpu: u32,
    pid: u32,
    category: TraceCategory,
    event_type: TraceEventType,
    name: Seq<char>,
    args: (u64, u64, u64),
    duration_ns: Option<u64>,
) -> bool {
    &&& e.seq == 0 && e.timestamp == 0
    &&& e.cpu == cpu && e.pid == pid
    &&& e.category == category && e.event_type == event_type
    &&& e.name@ == name
    &&& e.arg1 == args.0 && e.arg2 == args.1 && e.arg3 == args.2
    &&& e.duration_ns == duration_ns
}

impl TraceEvent {
    pub fn function_entry(cpu: u32, pid: u32, name: &str) -> (e: Self)
        ensures
            new_event(e, cpu, pid, TraceCategory::Function, TraceEventType::Entry, name@, (0, 0, 0), None),
    {
        TraceEvent {
            seq: 0,
            timestamp: 0,
            cpu,
            pid,
            category: TraceCategory::Function,
            event_type: TraceEventType::Entry,
            name: String::from_str(name),
            arg1: 0,
            arg2: 0,
            arg3: 0,
            duration_ns: None,
        }
    }

    pub fn function_exit(cpu: u32, pid: u32, name: &str, duration_ns: u64) -> (e: Self)
        ensures
            new_event(
                e,
                cpu,
                pid,
                TraceCategory::Function,
                TraceEventType::Exit,
                name@,
                (0, 0, 0),
                Some(duration_ns),
            ),
    {
        TraceEvent {
            seq: 0,
            timestamp: 0,
            cpu,
            pid,
            category: TraceCategory::Function,
            event_type: TraceEventType::Exit,
            name: String::from_str(name),
            arg1: 0,
            arg2: 0,
            arg3: 0,
            duration_ns: Some(duration_ns),
        }
    }

    pub fn syscall(cpu: u32, pid: u32, syscall_name: &str, ret: u64) -> (e: Self)
        ensures
            new_event(e, cpu, pid, TraceCategory::Syscall, TraceEventType::Event, syscall_name@, (ret, 0, 0), None),
    {
        TraceEvent {
            seq: 0,
            timestamp: 0,
            cpu,
            pid,
            category: TraceCategory::Syscall,
            event_type: TraceEventType::Event,
            name: String::from_str(syscall_name),
            arg1: ret,
            arg2: 0,
            arg3: 0,
            duration_ns: None,
        }
    }

    pub fn sched_event(cpu: u32, pid: u32, event_name: &str, next_pid: u32) -> (e: Self)
        ensures
            new_event(
                e,
                cpu,
                pid,
                TraceCategory::Sched,
                TraceEventType::Event,
                event_name@,
                (next_pid as u64, 0, 0),
                None,
            ),
    {
        TraceEvent {
            seq: 0,
            timestamp: 0,
            cpu,
            pid,
            category: TraceCategory::Sched,
            event_type: TraceEventType::Event,
            name: String::from_str(event_name),
            arg1: next_pid as u64,
            arg2: 0,
            arg3: 0,
            duration_ns: None,
        }
    }

    pub fn mem_event(cpu: u32, pid: u32, event_name: &str, addr: u64, size: u64) -> (e: Self)
        ensures
            new_event(e, cpu, pid, TraceCategory::Mem, TraceEventType::Event, event_name@, (addr, size, 0), None),
    {
        TraceEvent {
            seq: 0,
            timestamp: 0,
            cpu,
            pid,
            category: TraceCategory::Mem,
            event_type: TraceEventType::Event,
            name: String::from_str(event_name),
            arg1: addr,
            arg2: size,
            arg3: 0,
            duration_ns: None,
        }
    }

    pub fn custom(cpu: u32, pid: u32, name: &str, a1: u64, a2: u64, a3: u64) -> (e: Self)
        ensures
            new_event(e, cpu, pid, TraceCategory::Custom, TraceEventType::Event, name@, (a1, a2, a3), None),
    {
        TraceEvent {
            seq: 0,
            timestamp: 0,
            cpu,
            pid,
            category: TraceCategory::Custom,
            event_type: TraceEventType::Event,
            name: String::from_str(name),
            arg1: a1,
            arg2: a2,
            arg3: a3,
            duration_ns: None,
        }
    }
}

/// What a ring buffer holds.
pub struct RingView {
    pub events: Seq<TraceEvent>,
    pub capacity: usize,
    pub total_count: u64,
    pub dropped: u64,
    pub enabled: bool,
}

/// The events of `v` after `e` is recorded at `ts`: numbered with the count of
/// events recorded before, stamped, and appended; the oldest event makes room
/// when the buffer is full.
pub open spec fn ring_pushed(v: RingView, e: TraceEvent, ts: u64) -> RingView {
    let stamped = TraceEvent { seq: v.total_count, timestamp: ts, ..e };
    let full = v.events.len() >= v.capacity;
    RingView {
        events: if full && v.events.len() > 0 {
            v.events.drop_first().push(stamped)
        } else {
            v.events.push(stamped)
        },
        total_count: wrap_inc(v.total_count),
        dropped: if full {
            wrap_inc(v.dropped)
        } else {
            v.dropped
        },
        ..v
    }
}

/// A bounded buffer of the most recent trace events.
pub struct RingBuffer {
    events: Vec<TraceEvent>,
    capacity: usize,
    total_count: u64,
    dropped: u64,
    enabled: bool,
}

impl View for RingBuffer {
    type V = RingView;

    closed spec fn view(&self) -> RingView {
        RingView {
            events: self.events@,
            capacity: self.capacity,
            total_count: self.total_count,
            dropped: self.dropped,
            enabled: self.enabled,
        }
    }
}

pub open spec fn cat_pred(cat: TraceCategory) -> spec_fn(TraceEvent) -> bool {
    |e: TraceEvent| e.category == cat
}

pub open spec fn pid_pred(pid: u32) -> spec_fn(TraceEvent) -> bool {
    |e: TraceEvent| e.pid == pid
}

pub open spec fn cpu_pred(cpu: u32) -> spec_fn(TraceEvent) -> bool {
    |e: TraceEvent| e.cpu == cpu
}

pub open spec fn time_pred(start: u64, end: u64) -> spec_fn(TraceEvent) -> bool {
    |e: TraceEvent| start <= e.timestamp && e.timestamp < end
}

impl RingBuffer {
    pub fn new(capacity: usize) -> (b: Self)
        ensures
            b@ == (RingView {
                events: Seq::empty(),
                capacity: capacity,
                total_count: 0,
                dropped: 0,
                enabled: true,
            }),
    {
        RingBuffer { events: Vec::new(), capacity, total_count: 0, dropped: 0, enabled: true }
    }

    /// Records `event` at `timestamp_ns`; false (and nothing recorded) while
    /// disabled.
    pub fn push(&mut self, event: TraceEvent, timestamp_ns: u64) -> (r: bool)
        ensures
            r == old(self)@.enabled,
            r ==> final(self)@ == ring_pushed(old(self)@, event, timestamp_ns),
            !r ==> final(self)@ == old(self)@,
    {
        if !self.enabled {
            return false;
        }
        let mut event = event;
        event.timestamp = timestamp_ns;
        event.seq = self.total_count;
        self.total_count = self.total_count.wrapping_add(1);
        if self.events.len() >= self.capacity {
            if self.events.len() > 0 {
                let _ = self.events.remove(0);
            }
            self.dropped = self.dropped.wrapping_add(1);
        }
        self.events.push(event);
        true
    }

    pub fn events(&self) -> (r: &Vec<TraceEvent>)
        ensures
            r@ == self@.events,
    {
        &self.events
    }

    /// The events of category `cat`, oldest first.
    pub fn events_by_category(&self, cat: TraceCategory) -> (r: Vec<&TraceEvent>)
        ensures
            r@.unref() == self@.events.filter(cat_pred(cat)),
    {
        let mut out: Vec<&TraceEvent> = Vec::new();
        let mut i: usize = 0;
        while i < self.events.len()
            invariant
                i <= self.events@.len(),
                out@.unref() == self.events@.take(i as int).filter(cat_pred(cat)),
            decreases self.events@.len() - i,
        {
            proof {
                crate::seqs::lemma_filter_take_succ(self.events@, i as int, cat_pred(cat));
            }
            if self.events[i].category == cat {
                out.push(&self.events[i]);
            }
            i = i + 1;
        }
        proof {
            crate::seqs::lemma_take_full(self.events@);
        }
        out
    }

    /// The events of process `pid`, oldest first.
    pub fn events_by_pid(&self, pid: u32) -> (r: Vec<&TraceEvent>)
        ensures
            r@.unref() == self@.events.filter(pid_pred(pid)),
    {
        let mut out: Vec<&TraceEvent> = Vec::new();
        let mut i: usize = 0;
        while i < self.events.len()
            invariant
                i <= self.events@.len(),
                out@.unref() == self.events@.take(i as int).filter(pid_pred(pid)),
            decreases self.events@.len() - i,
        {
            proof {
                crate::seqs::lemma_filter_take_succ(self.events@, i as int, pid_pred(pid));
            }
            if self.events[i].pid == pid {
                out.push(&self.events[i]);
            }
            i = i + 1;
        }
        proof {
            crate::seqs::lemma_take_full(self.events@);
        }
        out
    }

    /// The events of cpu `cpu`, oldest first.
    pub fn events_by_cpu(&self, cpu: u32) -> (r: Vec<&TraceEvent>)
        ensures
            r@.unref() == self@.events.filter(cpu_pred(cpu)),
    {
        let mut out: Vec<&TraceEvent> = Vec::new();
        let mut i: usize = 0;
        while i < self.events.len()
            invariant
                i <= self.events@.len(),
                out@.unref() == self.events@.take(i as int).filter(cpu_pred(cpu)),
            decreases self.events@.len() - i,
        {
            proof {
                crate::seqs::lemma_filter_take_succ(self.events@, i as int, cpu_pred(cpu));
            }
            if self.events[i].cpu == cpu {
                out.push(&self.events[i]);
            }
            i = i + 1;
        }
        proof {
            crate::seqs::lemma_take_full(self.events@);
        }
        out
    }

    /// The events stamped in `[start_ns, end_ns)`, oldest first.
    pub fn events_in_range(&self, start_ns: u64, end_ns: u64) -> (r: Vec<&TraceEvent>)
        ensures
            r@.unref() == self@.events.filter(time_pred(start_ns, end_ns)),
    {
        let mut out: Vec<&TraceEvent> = Vec::new();
        let mut i: usize = 0;
        while i < self.events.len()
            invariant
                i <= self.events@.len(),
                out@.unref() == self.events@.take(i as int).filter(time_pred(start_ns, end_ns)),
            decreases self.events@.len() - i,
        {
            proof {
                crate::seqs::lemma_filter_take_succ(self.events@, i as int, time_pred(start_ns, end_ns));
            }
            if self.events[i].timestamp >= start_ns && self.events[i].timestamp < end_ns {
                out.push(&self.events[i]);
            }
            i = i + 1;
        }
        proof {
            crate::seqs::lemma_take_full(self.events@);
        }
        out
    }

    /// Drops the recorded events; the counters stay.
    pub fn clear(&mut self)
        ensures
            final(self)@ == (RingView { events: Seq::empty(), ..old(self)@ }),
    {
        self.events.clear();
    }

    pub fn enable(&mut self)
        ensures
            final(self)@ == (RingView { enabled: true, ..old(self)@ }),
    {
        self.enabled = true;
    }

    pub fn disable(&mut self)
        ensures
            final(self)@ == (RingView { enabled: false, ..old(self)@ }),
    {
        self.enabled = false;
    }

    pub fn is_enabled(&self) -> (r: bool)
        ensures
            r == self@.enabled,
    {
        self.enabled
    }

    pub fn total_count(&self) -> (r: u64)
        ensures
            r == self@.total_count,
    {
        self.total_count
    }

    pub fn dropped_count(&self) -> (r: u64)
        ensures
            r == self@.dropped,
    {
        self.dropped
    }

    pub fn capacity(&self) -> (r: usize)
        ensures
            r == self@.capacity,
    {
        self.capacity
    }

    pub fn len(&self) -> (r: usize)
        ensures
            r == self@.events.len(),
    {
        self.events.len()
    }

    pub fn is_empty(&self) -> (r: bool)
        ensures
            r == (self@.events.len() == 0),
    {
        self.events.len() == 0
    }
}

/// `sub` occurs in `s` starting at position `i`.
pub open spec fn occurs_at(s: Seq<char>, sub: Seq<char>, i: int) -> bool {
    0 <= i && i + sub.len() <= s.len() && s.subrange(i, i + sub.len()) == sub
}

/// `sub` occurs in `s` as a run of consecutive characters.
pub open spec fn has_substring(s: Seq<char>, sub: Seq<char>) -> bool {
    exists|i: int| #[trigger] occurs_at(s, sub, i)
}

/// Whether `needle` occurs in `hay`.
fn text_contains(hay: &str, needle: &str) -> (r: bool)
    ensures
        r == has_substring(hay@, needle@),
{
    let n = hay.unicode_len();
    let m = needle.unicode_len();
    if m > n {
        return false;
    }
    let mut i: usize = 0;
    let mut done = false;
    while !done
        invariant
            n == hay@.len(),
            m == needle@.len(),
            m <= n,
            i <= n - m,
            forall|k: int| 0 <= k < i ==> !occurs_at(hay@, needle@, k),
            done ==> i == n - m && !occurs_at(hay@, needle@, i as int),
        decreases n - m - i + (if done { 0int } else { 1int }),
    {
        let mut j: usize = 0;
        let mut same = true;
        while j < m
            invariant
                n == hay@.len(),
                m == needle@.len(),
                i + m <= n,
                j <= m,
                same ==> forall|t: int| 0 <= t < j ==> hay@[i + t] == needle@[t],
                !same ==> hay@.subrange(i as int, i + m) != needle@,
            decreases m - j,
        {
            if same && hay.get_char(i + j) != needle.get_char(j) {
                same = false;
                assert(hay@.subrange(i as int, i + m)[j as int] != needle@[j as int]);
            }
            j = j + 1;
        }
        if same {
            assert(hay@.subrange(i as int, i + m) =~= needle@);
            assert(occurs_at(hay@, needle@, i as int));
            return true;
        }
        if i == n - m {
            done = true;
        } else {
            i = i + 1;
        }
    }
    proof {
        assert forall|k: int| !occurs_at(hay@, needle@, k) by {
            if 0 <= k && k + m <= n && k != i {
                assert(k < i);
            }
        }
    }
    false
}

/// Which events pass: empty lists admit everything.
pub struct TraceFilter {
    /// Categories admitted (empty: all).
    pub categories: Vec<TraceCategory>,
    /// Processes admitted (empty: all).
    pub pids: Vec<u32>,
    /// Cpus admitted (empty: all).
    pub cpus: Vec<u32>,
    /// Text the event name must contain.
    pub name_substring: Option<String>,
    /// Least duration an event must carry.
    pub min_duration_ns: Option<u64>,
}

/// Whether filter `f` lets through an event with these fields.
pub open spec fn admits_parts(
    f: TraceFilter,
    category: TraceCategory,
    pid: u32,
    cpu: u32,
    name: Seq<char>,
    duration_ns: Option<u64>,
) -> bool {
    &&& f.categories@.len() == 0 || f.categories@.contains(category)
    &&& f.pids@.len() == 0 || f.pids@.contains(pid)
    &&& f.cpus@.len() == 0 || f.cpus@.contains(cpu)
    &&& match f.name_substring {
        Some(sub) => has_substring(name, sub@),
        None => true,
    }
    &&& match f.min_duration_ns {
        Some(min) => duration_ns matches Some(d) && d >= min,
        None => true,
    }
}

/// Whether filter `f` lets `e` through.
pub open spec fn filter_admits(f: TraceFilter, e: TraceEvent) -> bool {
    admits_parts(f, e.category, e.pid, e.cpu, e.name@, e.duration_ns)
}

/// `s` with `x` added unless already there.
pub open spec fn with_member<T>(s: Seq<T>, x: T) -> Seq<T> {
    if s.contains(x) {
        s
    } else {
        s.push(x)
    }
}

fn vec_has_u32(v: &Vec<u32>, x: u32) -> (r: bool)
    ensures
        r == v@.contains(x),
{
    let mut i: usize = 0;
    while i < v.len()
        invariant
            i <= v@.len(),
            forall|k: int| 0 <= k < i ==> v@[k] != x,
        decreases v@.len() - i,
    {
        if v[i] == x {
            return true;
        }
        i = i + 1;
    }
    false
}

fn vec_has_cat(v: &Vec<TraceCategory>, x: TraceCategory) -> (r: bool)
    ensures
        r == v@.contains(x),
{
    let mut i: usize = 0;
    while i < v.len()
        invariant
            i <= v@.len(),
            forall|k: int| 0 <= k < i ==> v@[k] != x,
        decreases v@.len() - i,
    {
        if v[i] == x {
            return true;
        }
        i = i + 1;
    }
    false
}

fn copy_u32s(v: &Vec<u32>) -> (r: Vec<u32>)
    ensures
        r@ == v@,
{
    let mut out: Vec<u32> = Vec::new();
    let mut i: usize = 0;
    while i < v.len()
        invariant
            i <= v@.len(),
            out@ == v@.take(i as int),
        decreases v@.len() - i,
    {
        out.push(v[i]);
        i = i + 1;
        assert(out@ =~= v@.take(i as int));
    }
    assert(out@ =~= v@);
    out
}

fn copy_cats(v: &Vec<TraceCategory>) -> (r: Vec<TraceCategory>)
    ensures
        r@ == v@,
{
    let mut out: Vec<TraceCategory> = Vec::new();
    let mut i: usize = 0;
    while i < v.len()
        invariant
            i <= v@.len(),
            out@ == v@.take(i as int),
        decreases v@.len() - i,
    {
        out.push(v[i]);
        i = i + 1;
        assert(out@ =~= v@.take(i as int));
    }
    assert(out@ =~= v@);
    out
}

impl Clone for TraceFilter {
    fn clone(&self) -> (r: Self)
        ensures
            r.categories@ == self.categories@,
            r.pids@ == self.pids@,
            r.cpus@ == self.cpus@,
            r.name_substring == self.name_substring,
            r.min_duration_ns == self.min_duration_ns,
    {
        TraceFilter {
            categories: copy_cats(&self.categories),
            pids: copy_u32s(&self.pids),
            cpus: copy_u32s(&self.cpus),
            name_substring: match &self.name_substring {
                Some(s) => Some(s.clone()),
                None => None,
            },
            min_duration_ns: self.min_duration_ns,
        }
    }
}

impl Default for TraceFilter {
    fn default() -> (f: Self)
        ensures
            f.categories@ == Seq::<TraceCategory>::empty(),
            f.pids@ == Seq::<u32>::empty(),
            f.cpus@ == Seq::<u32>::empty(),
            f.name_substring is None,
            f.min_duration_ns is None,
    {
        TraceFilter::new()
    }
}

impl TraceFilter {
    /// A filter that lets everything through.
    pub fn new() -> (f: Self)
        ensures
            f.categories@ == Seq::<TraceCategory>::empty(),
            f.pids@ == Seq::<u32>::empty(),
            f.cpus@ == Seq::<u32>::empty(),
            f.name_substring is None,
            f.min_duration_ns is None,
    {
        TraceFilter {
            categories: Vec::new(),
            pids: Vec::new(),
            cpus: Vec::new(),
            name_substring: None,
            min_duration_ns: None,
        }
    }

    /// Also admits category `cat`.
    pub fn category(self, cat: TraceCategory) -> (f: Self)
        ensures
            f.categories@ == with_member(self.categories@, cat),
            f.pids@ == self.pids@,
            f.cpus@ == self.cpus@,
            f.name_substring == self.name_substring,
            f.min_duration_ns == self.min_duration_ns,
    {
        let mut f = self;
        if !vec_has_cat(&f.categories, cat) {
            f.categories.push(cat);
        }
        f
    }

    /// Also admits process `pid`.
    pub fn pid(self, pid: u32) -> (f: Self)
        ensures
            f.categories@ == self.categories@,
            f.pids@ == with_member(self.pids@, pid),
            f.cpus@ == self.cpus@,
            f.name_substring == self.name_substring,
            f.min_duration_ns == self.min_duration_ns,
    {
        let mut f = self;
        if !vec_has_u32(&f.pids, pid) {
            f.pids.push(pid);
        }
        f
    }

    /// Also admits cpu `cpu`.
    pub fn cpu(self, cpu: u32) -> (f: Self)
        ensures
            f.categories@ == self.categories@,
            f.pids@ == self.pids@,
            f.cpus@ == with_member(self.cpus@, cpu),
            f.name_substring == self.name_substring,
            f.min_duration_ns == self.min_duration_ns,
    {
        let mut f = self;
        if !vec_has_u32(&f.cpus, cpu) {
            f.cpus.push(cpu);
        }
        f
    }

    /// Admits only events whose name contains `substr`.
    pub fn name_contains(self, substr: &str) -> (f: Self)
        ensures
            f.categories@ == self.categories@,
            f.pids@ == self.pids@,
            f.cpus@ == self.cpus@,
            f.name_substring matches Some(s) && s@ == substr@,
            f.min_duration_ns == self.min_duration_ns,
    {
        let mut f = self;
        f.name_substring = Some(String::from_str(substr));
        f
    }

    /// Admits only events that carry a duration of at least `ns`.
    pub fn min_duration(self, ns: u64) -> (f: Self)
        ensures
            f.categories@ == self.categories@,
            f.pids@ == self.pids@,
            f.cpus@ == self.cpus@,
            f.name_substring == self.name_substring,
            f.min_duration_ns == Some(ns),
    {
        let mut f = self;
        f.min_duration_ns = Some(ns);
        f
    }

    /// Whether `event` passes the filter.
    pub fn matches(&self, event: &TraceEvent) -> (r: bool)
        ensures
            r == filter_admits(*self, *event),
    {
        if self.categories.len() > 0 && !vec_has_cat(&self.categories, event.category) {
            return false;
        }
        if self.pids.len() > 0 && !vec_has_u32(&self.pids, event.pid) {
            return false;
        }
        if self.cpus.len() > 0 && !vec_has_u32(&self.cpus, event.cpu) {
            return false;
        }
        match &self.name_substring {
            Some(sub) => {
                if !text_contains(event.name.as_str(), sub.as_str()) {
                    return false;
                }
            },
            None => {},
        }
        match self.min_duration_ns {
            Some(min) => match event.duration_ns {
                Some(d) => if d < min {
                    return false;
                },
                None => {
                    return false;
                },
            },
            None => {},
        }
        true
    }
}

/// The bucket a value falls in: the first bound at least the value, else
/// `u64::MAX`.
pub open spec fn bucket_for(bounds: Seq<u64>, value: u64) -> u64
    decreases bounds.len(),
{
    if bounds.len() == 0 {
        u64::MAX
    } else if value <= bounds[0] {
        bounds[0]
    } else {
        bucket_for(bounds.drop_first(), value)
    }
}

/// Bounds strictly increasing.
pub open spec fn bounds_increasing(s: Seq<(u64, u64)>) -> bool {
    forall|a: int, b: int| 0 <= a < b < s.len() ==> s[a].0 < s[b].0
}

/// The map a list of (bound, count) pairs describes.
pub open spec fn pairs_map(s: Seq<(u64, u64)>) -> Map<u64, u64>
    decreases s.len(),
{
    if s.len() == 0 {
        Map::empty()
    } else {
        pairs_map(s.drop_last()).insert(s.last().0, s.last().1)
    }
}

/// Sum of the counts of the first `k` pairs.
pub open spec fn prefix_count(s: Seq<(u64, u64)>, k: int) -> int
    decreases k,
{
    if k <= 0 {
        0
    } else {
        prefix_count(s, k - 1) + s[k - 1].1
    }
}

/// The number of recorded values a percentile `p` asks to reach: `ceil(count * p / 100)`.
pub open spec fn pct_target(count: u64, p: u64) -> int {
    (count * p + 99) / 100
}

/// The running count reaches `target` at the pair at position `i`.
pub open spec fn reaches(s: Seq<(u64, u64)>, target: int, i: int) -> bool {
    0 <= i < s.len() && prefix_count(s, i + 1) >= target
}

/// Position `i` is the first where the running count reaches `target`.
pub open spec fn first_reach(s: Seq<(u64, u64)>, target: int, i: int) -> bool {
    &&& reaches(s, target, i)
    &&& forall|j: int| 0 <= j < i ==> !reaches(s, target, j)
}

/// The `p`-th percentile of a histogram: the bound of the first bucket, in order of
/// bounds, at which the running count reaches the target; the largest value when
/// none does; 0 for an empty histogram.
pub open spec fn percentile_of(s: Seq<(u64, u64)>, count: u64, max_value: u64, p: u64) -> u64 {
    if count == 0 {
        0
    } else {
        bound_reaching(s, pct_target(count, p), max_value)
    }
}

/// The bound of the first bucket, in order of bounds, at which the running count
/// reaches `target`; `max_value` when none does.
pub open spec fn bound_reaching(s: Seq<(u64, u64)>, target: int, max_value: u64) -> u64 {
    if exists|i: int| #[trigger] reaches(s, target, i) {
        s[choose|i: int| first_reach(s, target, i)].0
    } else {
        max_value
    }
}

/// Counts of recorded values by bucket.
pub struct Histogram {
    pub name: String,
    /// Count of values by bucket bound.
    pub buckets: std::collections::BTreeMap<u64, u64>,
    pub min_value: u64,
    pub max_value: u64,
    pub sum: u64,
    pub count: u64,
    pub bucket_bounds: Vec<u64>,
    /// The same buckets as (bound, count) pairs in increasing order of bound.
    pub order: Vec<(u64, u64)>,
}

impl Histogram {
    /// The (bound, count) pairs in increasing order of bound.
    pub open spec fn ordered(&self) -> Seq<(u64, u64)> {
        self.order@
    }

    /// `order` lists exactly the buckets, in increasing order of bound.
    pub open spec fn wf(&self) -> bool {
        &&& bounds_increasing(self.order@)
        &&& self.buckets@ == pairs_map(self.order@)
    }

    pub fn new(name: &str, bucket_bounds: Vec<u64>) -> (h: Self)
        ensures
            h.wf(),
            h.name@ == name@,
            h.ordered() == Seq::<(u64, u64)>::empty(),
            h.buckets@ == Map::<u64, u64>::empty(),
            h.min_value == u64::MAX && h.max_value == 0 && h.sum == 0 && h.count == 0,
            h.bucket_bounds@ == bucket_bounds@,
    {
        Histogram {
            name: String::from_str(name),
            buckets: std::collections::BTreeMap::new(),
            min_value: u64::MAX,
            max_value: 0,
            sum: 0,
            count: 0,
            bucket_bounds,
            order: Vec::new(),
        }
    }

    /// A latency histogram with buckets at 1 us, 10 us, 100 us, 1 ms, 10 ms,
    /// 100 ms and 1 s.
    pub fn latency(name: &str) -> (h: Self)
        ensures
            h.wf(),
            h.name@ == name@,
            h.ordered() == Seq::<(u64, u64)>::empty(),
            h.buckets@ == Map::<u64, u64>::empty(),
            h.min_value == u64::MAX && h.max_value == 0 && h.sum == 0 && h.count == 0,
            h.bucket_bounds@ == seq![1_000u64, 10_000, 100_000, 1_000_000, 10_000_000, 100_000_000, 1_000_000_000],
    {
        let v: Vec<u64> = vec![1_000, 10_000, 100_000, 1_000_000, 10_000_000, 100_000_000, 1_000_000_000];
        Self::new(name, v)
    }

    fn bucket_of(&self, value: u64) -> (b: u64)
        ensures
            b == bucket_for(self.bucket_bounds@, value),
    {
        let mut i: usize = 0;
        assert(self.bucket_bounds@.skip(0) =~= self.bucket_bounds@);
        while i < self.bucket_bounds.len()
            invariant
                i <= self.bucket_bounds@.len(),
                bucket_for(self.bucket_bounds@, value) == bucket_for(self.bucket_bounds@.skip(i as int), value),
            decreases self.bucket_bounds@.len() - i,
        {
            if value <= self.bucket_bounds[i] {
                return self.bucket_bounds[i];
            }
            proof {
                assert(self.bucket_bounds@.skip(i as int).drop_first() =~= self.bucket_bounds@.skip(i + 1));
            }
            i = i + 1;
        }
        u64::MAX
    }

    /// Records `value`: counts it in its bucket and updates count, sum (both
    /// modulo 2^64), minimum and maximum.
    pub fn record(&mut self, value: u64)
        requires
            old(self).wf(),
        ensures
            final(self).wf(),
            final(self).name == old(self).name,
            final(self).bucket_bounds@ == old(self).bucket_bounds@,
            final(self).count == wrap_inc(old(self).count),
            final(self).sum == wrap_add64(old(self).sum, value),
            final(self).min_value == if value < old(self).min_value { value } else { old(self).min_value },
            final(self).max_value == if value > old(self).max_value { value } else { old(self).max_value },
            ({
                let b = bucket_for(old(self).bucket_bounds@, value);
                let m = old(self).buckets@;
                final(self).buckets@ == m.insert(b, if m.contains_key(b) { wrap_inc(m[b]) } else { 1 })
            }),
    {
        self.count = self.count.wrapping_add(1);
        self.sum = self.sum.wrapping_add(value);
        if value < self.min_value {
            self.min_value = value;
        }
        if value > self.max_value {
            self.max_value = value;
        }
        let b = self.bucket_of(value);
        self.bump(b);
    }

    fn bump(&mut self, b: u64)
        requires
            old(self).wf(),
        ensures
            final(self).wf(),
            final(self).name == old(self).name,
            final(self).bucket_bounds@ == old(self).bucket_bounds@,
            final(self).count == old(self).count,
            final(self).sum == old(self).sum,
            final(self).min_value == old(self).min_value,
            final(self).max_value == old(self).max_value,
            ({
                let m = old(self).buckets@;
                final(self).buckets@ == m.insert(b, if m.contains_key(b) { wrap_inc(m[b]) } else { 1 })
            }),
    {
        broadcast use vstd::std_specs::btree::group_btree_axioms;

        proof {
            lemma_u64_keys_ordered();
        }
        let ghost s0 = self.order@;
        let mut i: usize = 0;
        while i < self.order.len() && self.order[i].0 < b
            invariant
                self.order@ == s0,
                i <= s0.len(),
                forall|k: int| 0 <= k < i ==> s0[k].0 < b,
            decreases s0.len() - i,
        {
            i = i + 1;
        }
        let ghost m0 = self.buckets@;
        proof {
            lemma_pairs_map_lookup(s0, i as int, b);
        }
        if i < self.order.len() && self.order[i].0 == b {
            let c = self.order[i].1.wrapping_add(1);
            self.order.set(i, (b, c));
            proof {
                lemma_pairs_map_update(s0, i as int, c);
            }
            self.buckets.insert(b, c);
        } else {
            self.order.insert(i, (b, 1));
            proof {
                lemma_pairs_map_insert(s0, i as int, b, 1);
            }
            self.buckets.insert(b, 1);
        }
    }

    fn percentile_at(&self, p: u64) -> (r: u64)
        requires
            self.wf(),
            p <= 100,
        ensures
            r == percentile_of(self.ordered(), self.count, self.max_value, p),
    {
        if self.count == 0 {
            return 0;
        }
        assert((self.count as u128) * (p as u128) <= (self.count as u128) * 100) by (nonlinear_arith)
            requires
                p <= 100,
        ;
        let target: u128 = ((self.count as u128) * (p as u128) + 99) / 100;
        assert(target <= self.count);
        self.first_reaching(target as u64)
    }

    /// The bound of the first bucket, in order of bounds, at which the running
    /// count reaches `target`; the largest value recorded when none does.
    pub fn first_reaching(&self, target: u64) -> (r: u64)
        requires
            self.wf(),
        ensures
            r == bound_reaching(self.ordered(), target as int, self.max_value),
    {
        let mut cumulative: u128 = 0;
        let mut i: usize = 0;
        let n = self.order.len();
        while i < n
            invariant
                i <= self.order@.len(),
                n == self.order@.len(),
                cumulative == prefix_count(self.order@, i as int),
                cumulative <= i * 0x1_0000_0000_0000_0000,
                forall|j: int| 0 <= j < i ==> !reaches(self.order@, target as int, j),
            decreases self.order@.len() - i,
        {
            cumulative = cumulative + self.order[i].1 as u128;
            if cumulative >= target as u128 {
                proof {
                    let s = self.order@;
                    let t = target as int;
                    assert(prefix_count(s, i + 1) == prefix_count(s, i as int) + s[i as int].1);
                    assert(reaches(s, t, i as int));
                    assert(first_reach(s, t, i as int));
                    let k = choose|k: int| first_reach(s, t, k);
                    if k < i {
                        assert(!reaches(s, t, k));
                    } else if k > i {
                        assert(!reaches(s, t, i as int));
                    }
                }
                return self.order[i].0;
            }
            i = i + 1;
        }
        proof {
            assert forall|k: int| !reaches(self.order@, target as int, k) by {
                if 0 <= k < self.order@.len() {
                    assert(k < i);
                }
            }
        }
        self.max_value
    }

    /// The median bucket bound.
    pub fn p50(&self) -> (r: u64)
        requires
            self.wf(),
        ensures
            r == percentile_of(self.ordered(), self.count, self.max_value, 50),
    {
        self.percentile_at(50)
    }

    /// The 95th percentile bucket bound.
    pub fn p95(&self) -> (r: u64)
        requires
            self.wf(),
        ensures
            r == percentile_of(self.ordered(), self.count, self.max_value, 95),
    {
        self.percentile_at(95)
    }

    /// The 99th percentile bucket bound.
    pub fn p99(&self) -> (r: u64)
        requires
            self.wf(),
        ensures
            r == percentile_of(self.ordered(), self.count, self.max_value, 99),
    {
        self.percentile_at(99)
    }

    /// Forgets every recorded value; the bucket bounds stay.
    pub fn reset(&mut self)
        ensures
            final(self).wf(),
            final(self).name == old(self).name,
            final(self).bucket_bounds@ == old(self).bucket_bounds@,
            final(self).ordered() == Seq::<(u64, u64)>::empty(),
            final(self).buckets@ == Map::<u64, u64>::empty(),
            final(self).min_value == u64::MAX && final(self).max_value == 0,
            final(self).sum == 0 && final(self).count == 0,
    {
        broadcast use vstd::std_specs::btree::group_btree_axioms;

        self.buckets.clear();
        self.order.clear();
        self.min_value = u64::MAX;
        self.max_value = 0;
        self.sum = 0;
        self.count = 0;
    }
}

/// `u64` keys are totally ordered as the ordered maps expect.
proof fn lemma_u64_keys_ordered()
    ensures
        vstd::laws_cmp::obeys_cmp::<u64>(),
{
    broadcast use vstd::laws_cmp::group_laws_cmp;

}

/// Looking up a bound in the pairs map.
proof fn lemma_pairs_map_lookup(s: Seq<(u64, u64)>, i: int, b: u64)
    requires
        bounds_increasing(s),
        0 <= i <= s.len(),
        forall|k: int| 0 <= k < i ==> s[k].0 < b,
        i < s.len() ==> s[i].0 >= b,
    ensures
        pairs_map(s).contains_key(b) <==> (i < s.len() && s[i].0 == b),
        i < s.len() && s[i].0 == b ==> pairs_map(s)[b] == s[i].1,
{
    lemma_pairs_map_facts(s);
}

/// The pairs map holds exactly the listed bounds with their counts.
proof fn lemma_pairs_map_facts(s: Seq<(u64, u64)>)
    requires
        bounds_increasing(s),
    ensures
        forall|k: u64| pairs_map(s).contains_key(k) <==> exists|i: int| 0 <= i < s.len() && s[i].0 == k,
        forall|i: int| 0 <= i < s.len() ==> #[trigger] pairs_map(s)[s[i].0] == s[i].1,
        forall|i: int| 0 <= i < s.len() ==> pairs_map(s).contains_key(#[trigger] s[i].0),
    decreases s.len(),
{
    if s.len() > 0 {
        let t = s.drop_last();
        assert(bounds_increasing(t));
        lemma_pairs_map_facts(t);
        assert forall|i: int| 0 <= i < s.len() implies #[trigger] pairs_map(s)[s[i].0] == s[i].1 by {
            if i < s.len() - 1 {
                assert(t[i] == s[i]);
                assert(s[i].0 != s.last().0);
            }
        }
        assert forall|k: u64| pairs_map(s).contains_key(k) <==> exists|i: int| 0 <= i < s.len() && s[i].0 == k by {
            if pairs_map(s).contains_key(k) && k != s.last().0 {
                assert(pairs_map(t).contains_key(k));
                let i = choose|i: int| 0 <= i < t.len() && t[i].0 == k;
                assert(t[i] == s[i]);
                assert(s[i].0 == k);
            }
            if exists|i: int| 0 <= i < s.len() && s[i].0 == k {
                let i = choose|i: int| 0 <= i < s.len() && s[i].0 == k;
                if i < s.len() - 1 {
                    assert(t[i].0 == k);
                }
            }
        }
    }
}

/// Replacing the count at position `i`.
proof fn lemma_pairs_map_update(s: Seq<(u64, u64)>, i: int, c: u64)
    requires
        bounds_increasing(s),
        0 <= i < s.len(),
    ensures
        bounds_increasing(s.update(i, (s[i].0, c))),
        pairs_map(s.update(i, (s[i].0, c))) == pairs_map(s).insert(s[i].0, c),
{
    let u = s.update(i, (s[i].0, c));
    assert(bounds_increasing(u)) by {
        assert forall|a: int, b: int| 0 <= a < b < u.len() implies u[a].0 < u[b].0 by {
            assert(u[a].0 == s[a].0 && u[b].0 == s[b].0);
        }
    }
    lemma_pairs_map_facts(s);
    lemma_pairs_map_facts(u);
    assert(pairs_map(u) =~= pairs_map(s).insert(s[i].0, c)) by {
        assert forall|k: u64| pairs_map(u).contains_key(k) <==> pairs_map(s).insert(s[i].0, c).contains_key(k) by {
            if exists|j: int| 0 <= j < s.len() && s[j].0 == k {
                let j = choose|j: int| 0 <= j < s.len() && s[j].0 == k;
                assert(u[j].0 == k);
            }
            if exists|j: int| 0 <= j < u.len() && u[j].0 == k {
                let j = choose|j: int| 0 <= j < u.len() && u[j].0 == k;
                assert(s[j].0 == k);
            }
        }
        assert forall|k: u64| pairs_map(u).contains_key(k) implies pairs_map(u)[k] == pairs_map(s).insert(
            s[i].0,
            c,
        )[k] by {
            let j = choose|j: int| 0 <= j < u.len() && u[j].0 == k;
            assert(pairs_map(u)[u[j].0] == u[j].1);
            if j != i {
                assert(pairs_map(s)[s[j].0] == s[j].1);
            }
        }
    }
}

/// Inserting a new bound at its place in the order.
proof fn lemma_pairs_map_insert(s: Seq<(u64, u64)>, i: int, b: u64, c: u64)
    requires
        bounds_increasing(s),
        0 <= i <= s.len(),
        forall|k: int| 0 <= k < i ==> s[k].0 < b,
        i < s.len() ==> s[i].0 > b,
    ensures
        bounds_increasing(s.insert(i, (b, c))),
        pairs_map(s.insert(i, (b, c))) == pairs_map(s).insert(b, c),
{
    let u = s.insert(i, (b, c));
    assert(bounds_increasing(u)) by {
        assert forall|x: int, y: int| 0 <= x < y < u.len() implies u[x].0 < u[y].0 by {
            if x < i && y < i {
                assert(u[x] == s[x] && u[y] == s[y]);
            } else if x < i && y == i {
                assert(u[x] == s[x]);
            } else if x < i && y > i {
                assert(u[x] == s[x] && u[y] == s[y - 1]);
                if i < s.len() {
                    assert(s[i].0 <= s[y - 1].0);
                }
            } else if x == i {
                assert(u[y] == s[y - 1]);
                if y - 1 > i {
                    assert(s[i].0 < s[y - 1].0);
                }
            } else {
                assert(u[x] == s[x - 1] && u[y] == s[y - 1]);
            }
        }
    }
    lemma_pairs_map_facts(s);
    lemma_pairs_map_facts(u);
    assert(pairs_map(u) =~= pairs_map(s).insert(b, c)) by {
        assert forall|k: u64| pairs_map(u).contains_key(k) <==> pairs_map(s).insert(b, c).contains_key(k) by {
            if exists|j: int| 0 <= j < s.len() && s[j].0 == k {
                let j = choose|j: int| 0 <= j < s.len() && s[j].0 == k;
                if j < i {
                    assert(u[j].0 == k);
                } else {
                    assert(u[j + 1].0 == k);
                }
            }
            if k == b {
                assert(u[i].0 == k);
            }
            if exists|j: int| 0 <= j < u.len() && u[j].0 == k {
                let j = choose|j: int| 0 <= j < u.len() && u[j].0 == k;
                if j < i {
                    assert(s[j].0 == k);
                } else if j > i {
                    assert(s[j - 1].0 == k);
                }
            }
        }
        assert forall|k: u64| pairs_map(u).contains_key(k) implies pairs_map(u)[k] == pairs_map(s).insert(b, c)[k] by {
            let j = choose|j: int| 0 <= j < u.len() && u[j].0 == k;
            assert(pairs_map(u)[u[j].0] == u[j].1);
            if j < i {
                assert(u[j] == s[j]);
                assert(pairs_map(s)[s[j].0] == s[j].1);
            } else if j > i {
                assert(u[j] == s[j - 1]);
                assert(pairs_map(s)[s[j - 1].0] == s[j - 1].1);
            }
        }
    }
}

/// A function on a cpu's call stack.
#[derive(Debug)]
pub struct CallStackEntry {
    pub name: String,
    /// Entry time, in nanoseconds.
    pub entry_time: u64,
    pub cpu: u32,
    pub pid: u32,
    pub args: [u64; 3],
}

impl Clone for CallStackEntry {
    fn clone(&self) -> (r: Self)
        ensures
            r == *self,
    {
        CallStackEntry {
            name: self.name.clone(),
            entry_time: self.entry_time,
            cpu: self.cpu,
            pid: self.pid,
            args: self.args,
        }
    }
}

/// The call stack of `cpu` in `m` (empty when it has none).
pub open spec fn stack_of(m: Map<u32, Vec<CallStackEntry>>, cpu: u32) -> Seq<CallStackEntry> {
    if m.contains_key(cpu) {
        m[cpu]@
    } else {
        Seq::empty()
    }
}

/// Per-cpu call stacks of traced functions, with call counts and time per function.
pub struct FunctionTracer {
    pub stacks: IdMap<Vec<CallStackEntry>>,
    pub max_depth: usize,
    pub enabled: bool,
    pub filter: TraceFilter,
    pub call_counts: NameCounts,
    pub total_time: NameCounts,
    pub max_depth_reached: usize,
}

impl FunctionTracer {
    pub open spec fn wf(&self) -> bool {
        &&& self.stacks.wf()
        &&& self.call_counts.wf()
        &&& self.total_time.wf()
    }

    /// A disabled tracer whose stacks hold at most `max_depth` functions.
    pub fn new(max_depth: usize) -> (t: Self)
        ensures
            t.wf(),
            t.stacks@ == Map::<u32, Vec<CallStackEntry>>::empty(),
            t.max_depth == max_depth,
            !t.enabled,
            t.filter.categories@.len() == 0 && t.filter.pids@.len() == 0 && t.filter.cpus@.len() == 0,
            t.filter.name_substring is None && t.filter.min_duration_ns is None,
            t.call_counts@ == Seq::<(Seq<char>, u64)>::empty(),
            t.total_time@ == Seq::<(Seq<char>, u64)>::empty(),
            t.max_depth_reached == 0,
    {
        FunctionTracer {
            stacks: IdMap::new(),
            max_depth,
            enabled: false,
            filter: TraceFilter::new(),
            call_counts: NameCounts::new(),
            total_time: NameCounts::new(),
            max_depth_reached: 0,
        }
    }

    pub fn enable(&mut self)
        ensures
            *final(self) == (FunctionTracer { enabled: true, ..*old(self) }),
    {
        self.enabled = true;
    }

    pub fn disable(&mut self)
        ensures
            *final(self) == (FunctionTracer { enabled: false, ..*old(self) }),
    {
        self.enabled = false;
    }

    pub fn set_filter(&mut self, filter: TraceFilter)
        ensures
            *final(self) == (FunctionTracer { filter: filter, ..*old(self) }),
    {
        self.filter = filter;
    }

    /// Pushes function `name` on the stack of `cpu`. Refused (false) while
    /// disabled, when the filter rejects the entry, or when the stack is at its
    /// maximum depth; a cpu seen for the first time gets a stack in any case once
    /// the filter admits the entry.
    pub fn enter(&mut self, cpu: u32, pid: u32, name: &str, timestamp_ns: u64, args: [u64; 3]) -> (r: bool)
        requires
            old(self).wf(),
        ensures
            final(self).wf(),
            final(self).max_depth == old(self).max_depth,
            final(self).enabled == old(self).enabled,
            final(self).filter == old(self).filter,
            final(self).total_time == old(self).total_time,
            ({
                let stack0 = stack_of(old(self).stacks@, cpu);
                if !old(self).enabled || !admits_parts(
                    old(self).filter,
                    TraceCategory::Function,
                    pid,
                    cpu,
                    name@,
                    None,
                ) {
                    !r && *final(self) == *old(self)
                } else {
                    let s = final(self).stacks@[cpu]@;
                    &&& final(self).stacks@ == old(self).stacks@.insert(cpu, final(self).stacks@[cpu])
                    &&& r == (stack0.len() < old(self).max_depth)
                    &&& !r ==> s == stack0 && final(self).call_counts == old(self).call_counts
                        && final(self).max_depth_reached == old(self).max_depth_reached
                    &&& r ==> {
                        &&& s.len() == stack0.len() + 1
                        &&& s.drop_last() == stack0
                        &&& s.last().name@ == name@ && s.last().entry_time == timestamp_ns
                        &&& s.last().cpu == cpu && s.last().pid == pid && s.last().args == args
                        &&& final(self).max_depth_reached == if s.len() > old(self).max_depth_reached {
                            s.len() as usize
                        } else {
                            old(self).max_depth_reached
                        }
                        &&& final(self).call_counts@ == count_added(old(self).call_counts@, name@, 1)
                    }
                }
            }),
    {
        if !self.enabled {
            return false;
        }
        let event = TraceEvent {
            seq: 0,
            timestamp: timestamp_ns,
            cpu,
            pid,
            category: TraceCategory::Function,
            event_type: TraceEventType::Entry,
            name: String::from_str(name),
            arg1: args[0],
            arg2: args[1],
            arg3: args[2],
            duration_ns: None,
        };
        if !self.filter.matches(&event) {
            return false;
        }
        if !self.stacks.contains_key(cpu) {
            let _ = self.stacks.insert(cpu, Vec::new());
        }
        let ghost mid = self.stacks@;
        let max_depth = self.max_depth;
        let pushed = match self.stacks.get_mut(cpu) {
            Some(stack) => {
                if stack.len() >= max_depth {
                    None
                } else {
                    stack.push(
                        CallStackEntry { name: String::from_str(name), entry_time: timestamp_ns, cpu, pid, args },
                    );
                    Some(stack.len())
                }
            },
            None => None,
        };
        match pushed {
            Some(depth) => {
                if depth > self.max_depth_reached {
                    self.max_depth_reached = depth;
                }
                self.call_counts.add(name, 1);
                proof {
                    assert(self.stacks@[cpu]@.drop_last() =~= stack_of(old(self).stacks@, cpu));
                }
                true
            },
            None => {
                proof {
                    assert(self.stacks@ =~= old(self).stacks@.insert(cpu, self.stacks@[cpu]));
                }
                false
            },
        }
    }

    /// Pops the top function of `cpu`'s stack and returns its name and duration
    /// (time since entry, or 0 for a clock that went back); the duration is added
    /// to the function's total time. `None` while disabled or when the stack is
    /// empty.
    pub fn exit(&mut self, cpu: u32, timestamp_ns: u64) -> (r: Option<(String, u64)>)
        requires
            old(self).wf(),
        ensures
            final(self).wf(),
            final(self).max_depth == old(self).max_depth,
            final(self).enabled == old(self).enabled,
            final(self).filter == old(self).filter,
            final(self).call_counts == old(self).call_counts,
            final(self).max_depth_reached == old(self).max_depth_reached,
            ({
                let stack0 = stack_of(old(self).stacks@, cpu);
                if !old(self).enabled || stack0.len() == 0 {
                    r is None && *final(self) == *old(self)
                } else {
                    let top = stack0.last();
                    let d = if timestamp_ns >= top.entry_time {
                        (timestamp_ns - top.entry_time) as u64
                    } else {
                        0
                    };
                    &&& r matches Some(p) && p.0@ == top.name@ && p.1 == d
                    &&& final(self).stacks@ == old(self).stacks@.insert(cpu, final(self).stacks@[cpu])
                    &&& final(self).stacks@[cpu]@ == stack0.drop_last()
                    &&& final(self).total_time@ == count_added(old(self).total_time@, top.name@, d)
                }
            }),
    {
        if !self.enabled {
            return None;
        }
        if self.depth(cpu) == 0 {
            return None;
        }
        let popped = match self.stacks.get_mut(cpu) {
            Some(stack) => stack.pop(),
            None => None,
        };
        match popped {
            Some(entry) => {
                let duration = timestamp_ns.saturating_sub(entry.entry_time);
                self.total_time.add(entry.name.as_str(), duration);
                Some((entry.name, duration))
            },
            None => None,
        }
    }

    /// Depth of `cpu`'s call stack.
    pub fn depth(&self, cpu: u32) -> (r: usize)
        requires
            self.wf(),
        ensures
            r == stack_of(self.stacks@, cpu).len(),
    {
        match self.stacks.get(cpu) {
            Some(s) => s.len(),
            None => 0,
        }
    }

    /// `cpu`'s call stack, outermost first.
    pub fn call_stack(&self, cpu: u32) -> (r: Vec<&CallStackEntry>)
        requires
            self.wf(),
        ensures
            r@.unref() == stack_of(self.stacks@, cpu),
    {
        let mut out: Vec<&CallStackEntry> = Vec::new();
        match self.stacks.get(cpu) {
            Some(s) => {
                let mut i: usize = 0;
                while i < s.len()
                    invariant
                        i <= s@.len(),
                        out@.unref() == s@.take(i as int),
                    decreases s@.len() - i,
                {
                    let ghost before = out@;
                    out.push(&s[i]);
                    proof {
                        assert(out@.unref() =~= before.unref().push(s@[i as int]));
                        assert(s@.take(i + 1) =~= s@.take(i as int).push(s@[i as int]));
                    }
                    i = i + 1;
                }
                assert(s@.take(i as int) =~= s@);
            },
            None => {
                assert(out@.unref() =~= Seq::<CallStackEntry>::empty());
            },
        }
        out
    }

    /// How often `name` was entered.
    pub fn call_count(&self, name: &str) -> (r: u64)
        requires
            self.wf(),
        ensures
            r == count_of(self.call_counts@, name@),
    {
        self.call_counts.get(name)
    }

    /// Total time spent in `name`.
    pub fn total_time_ns(&self, name: &str) -> (r: u64)
        requires
            self.wf(),
        ensures
            r == count_of(self.total_time@, name@),
    {
        self.total_time.get(name)
    }

    /// The functions entered so far, in order of first entry.
    pub fn traced_functions(&self) -> (r: Vec<String>)
        ensures
            crate::counters::string_views(r@) == crate::counters::count_names(self.call_counts@),
    {
        self.call_counts.names()
    }

    /// The `n` functions with the most total time, most first.
    pub fn top_by_time(&self, n: usize) -> (r: Vec<(String, u64)>)
        ensures
            exists|idx: Seq<usize>|
                top_picks(count_values(self.total_time@), n as nat, idx) && entry_views(r@) == picked_entries(
                    self.total_time@,
                    idx,
                ),
    {
        self.total_time.top(n)
    }

    /// The `n` most often entered functions, most first.
    pub fn top_by_count(&self, n: usize) -> (r: Vec<(String, u64)>)
        ensures
            exists|idx: Seq<usize>|
                top_picks(count_values(self.call_counts@), n as nat, idx) && entry_views(r@) == picked_entries(
                    self.call_counts@,
                    idx,
                ),
    {
        self.call_counts.top(n)
    }

    /// Forgets call counts, total times and the deepest depth; the stacks stay.
    pub fn reset_stats(&mut self)
        requires
            old(self).wf(),
        ensures
            final(self).wf(),
            final(self).stacks == old(self).stacks,
            final(self).max_depth == old(self).max_depth,
            final(self).enabled == old(self).enabled,
            final(self).filter == old(self).filter,
            final(self).call_counts@ == Seq::<(Seq<char>, u64)>::empty(),
            final(self).total_time@ == Seq::<(Seq<char>, u64)>::empty(),
            final(self).max_depth_reached == 0,
    {
        self.call_counts.clear();
        self.total_time.clear();
        self.max_depth_reached = 0;
    }

    pub fn max_depth_reached(&self) -> (r: usize)
        ensures
            r == self.max_depth_reached,
    {
        self.max_depth_reached
    }
}

/// One traced system call.
#[derive(Debug)]
pub struct SyscallRecord {
    /// Number given by the tracer that recorded it.
    pub seq: u64,
    pub timestamp: u64,
    pub pid: u32,
    pub cpu: u32,
    pub syscall: String,
    pub args: [u64; 6],
    pub ret: i64,
    pub duration_ns: u64,
    pub error: Option<String>,
}

impl Clone for SyscallRecord {
    fn clone(&self) -> (r: Self)
        ensures
            r == *self,
    {
        SyscallRecord {
            seq: self.seq,
            timestamp: self.timestamp,
            pid: self.pid,
            cpu: self.cpu,
            syscall: self.syscall.clone(),
            args: self.args,
            ret: self.ret,
            duration_ns: self.duration_ns,
            error: match &self.error {
                Some(e) => Some(e.clone()),
                None => None,
            },
        }
    }
}

fn vec_has_string(v: &Vec<String>, x: &String) -> (r: bool)
    ensures
        r == crate::counters::string_views(v@).contains(x@),
{
    let mut i: usize = 0;
    while i < v.len()
        invariant
            i <= v@.len(),
            forall|k: int| 0 <= k < i ==> v@[k]@ != x@,
        decreases v@.len() - i,
    {
        if v[i] == *x {
            assert(crate::counters::string_views(v@)[i as int] == x@);
            return true;
        }
        i = i + 1;
    }
    proof {
        if crate::counters::string_views(v@).contains(x@) {
            let k = choose|k: int| 0 <= k < v@.len() && crate::counters::string_views(v@)[k] == x@;
            assert(v@[k]@ == x@);
        }
    }
    false
}

/// The records after one more is appended to a log holding at most `capacity`
/// (the oldest makes room).
pub open spec fn capped_push<T>(s: Seq<T>, capacity: nat, x: T) -> Seq<T> {
    if s.len() >= capacity && s.len() > 0 {
        s.drop_first().push(x)
    } else {
        s.push(x)
    }
}

/// Whether the tracer's filters let a call of `name` by `pid` through.
pub open spec fn syscall_admitted(t: SyscallTracer, pid: u32, name: Seq<char>) -> bool {
    &&& t.enabled
    &&& t.traced_pids@.len() == 0 || t.traced_pids@.contains(pid)
    &&& t.traced_syscalls@.len() == 0 || crate::counters::string_views(t.traced_syscalls@).contains(name)
}

pub open spec fn rec_pid_pred(pid: u32) -> spec_fn(SyscallRecord) -> bool {
    |r: SyscallRecord| r.pid == pid
}

pub open spec fn rec_name_pred(name: Seq<char>) -> spec_fn(SyscallRecord) -> bool {
    |r: SyscallRecord| r.syscall@ == name
}

/// A log of system calls (strace), with counts, error counts and time per call.
pub struct SyscallTracer {
    pub records: Vec<SyscallRecord>,
    pub capacity: usize,
    pub enabled: bool,
    /// Processes traced (empty: all).
    pub traced_pids: Vec<u32>,
    /// System calls traced (empty: all).
    pub traced_syscalls: Vec<String>,
    pub counts: NameCounts,
    pub errors: NameCounts,
    pub total_time: NameCounts,
    /// Number of the next record.
    pub next_seq: u64,
}

impl SyscallTracer {
    pub open spec fn wf(&self) -> bool {
        &&& self.counts.wf()
        &&& self.errors.wf()
        &&& self.total_time.wf()
    }

    /// A disabled tracer keeping the last `capacity` records.
    pub fn new(capacity: usize) -> (t: Self)
        ensures
            t.wf(),
            t.records@ == Seq::<SyscallRecord>::empty(),
            t.capacity == capacity,
            !t.enabled,
            t.traced_pids@ == Seq::<u32>::empty(),
            t.traced_syscalls@ == Seq::<String>::empty(),
            t.counts@.len() == 0 && t.errors@.len() == 0 && t.total_time@.len() == 0,
            t.next_seq == 0,
    {
        SyscallTracer {
            records: Vec::new(),
            capacity,
            enabled: false,
            traced_pids: Vec::new(),
            traced_syscalls: Vec::new(),
            counts: NameCounts::new(),
            errors: NameCounts::new(),
            total_time: NameCounts::new(),
            next_seq: 0,
        }
    }

    pub fn enable(&mut self)
        ensures
            *final(self) == (SyscallTracer { enabled: true, ..*old(self) }),
    {
        self.enabled = true;
    }

    pub fn disable(&mut self)
        ensures
            *final(self) == (SyscallTracer { enabled: false, ..*old(self) }),
    {
        self.enabled = false;
    }

    /// Traces process `pid` (among others already traced).
    pub fn trace_pid(&mut self, pid: u32)
        ensures
            final(self).traced_pids@ == with_member(old(self).traced_pids@, pid),
            *final(self) == (SyscallTracer { traced_pids: final(self).traced_pids, ..*old(self) }),
    {
        if !vec_has_u32(&self.traced_pids, pid) {
            self.traced_pids.push(pid);
        }
    }

    /// Traces system call `name` (among others already traced).
    pub fn trace_syscall(&mut self, name: &str)
        ensures
            crate::counters::string_views(final(self).traced_syscalls@) == with_member(
                crate::counters::string_views(old(self).traced_syscalls@),
                name@,
            ),
            *final(self) == (SyscallTracer { traced_syscalls: final(self).traced_syscalls, ..*old(self) }),
    {
        let key = String::from_str(name);
        if !vec_has_string(&self.traced_syscalls, &key) {
            self.traced_syscalls.push(key);
            assert(crate::counters::string_views(self.traced_syscalls@) =~= crate::counters::string_views(
                old(self).traced_syscalls@,
            ).push(name@));
        }
    }

    /// Traces every process again.
    pub fn trace_all_pids(&mut self)
        ensures
            final(self).traced_pids@ == Seq::<u32>::empty(),
            *final(self) == (SyscallTracer { traced_pids: final(self).traced_pids, ..*old(self) }),
    {
        self.traced_pids.clear();
    }

    /// Traces every system call again.
    pub fn trace_all_syscalls(&mut self)
        ensures
            final(self).traced_syscalls@ == Seq::<String>::empty(),
            *final(self) == (SyscallTracer { traced_syscalls: final(self).traced_syscalls, ..*old(self) }),
    {
        self.traced_syscalls.clear();
    }

    /// Records a call of `syscall` by `pid`, unless disabled or filtered out.
    /// Counts, error counts and total time are kept for every call recorded, while
    /// the log keeps only the last `capacity` records.
    pub fn record(
        &mut self,
        pid: u32,
        cpu: u32,
        syscall: &str,
        args: [u64; 6],
        ret: i64,
        duration_ns: u64,
        timestamp_ns: u64,
        error: Option<String>,
    ) -> (r: bool)
        requires
            old(self).wf(),
        ensures
            final(self).wf(),
            r == syscall_admitted(*old(self), pid, syscall@),
            !r ==> *final(self) == *old(self),
            r ==> {
                let last = final(self).records@.last();
                &&& final(self).records@.len() > 0
                &&& final(self).records@.drop_last() == if old(self).records@.len() >= old(self).capacity
                    && old(self).records@.len() > 0 {
                    old(self).records@.drop_first()
                } else {
                    old(self).records@
                }
                &&& last.seq == old(self).next_seq && last.timestamp == timestamp_ns
                &&& last.pid == pid && last.cpu == cpu && last.syscall@ == syscall@
                &&& last.args == args && last.ret == ret && last.duration_ns == duration_ns
                &&& last.error == error
                &&& final(self).next_seq == wrap_inc(old(self).next_seq)
                &&& final(self).counts@ == count_added(old(self).counts@, syscall@, 1)
                &&& final(self).total_time@ == count_added(old(self).total_time@, syscall@, duration_ns)
                &&& final(self).errors@ == if error is Some {
                    count_added(old(self).errors@, syscall@, 1)
                } else {
                    old(self).errors@
                }
                &&& final(self).capacity == old(self).capacity
                &&& final(self).enabled == old(self).enabled
                &&& final(self).traced_pids == old(self).traced_pids
                &&& final(self).traced_syscalls == old(self).traced_syscalls
            },
    {
        if !self.enabled {
            return false;
        }
        if self.traced_pids.len() > 0 && !vec_has_u32(&self.traced_pids, pid) {
            return false;
        }
        let key = String::from_str(syscall);
        if self.traced_syscalls.len() > 0 && !vec_has_string(&self.traced_syscalls, &key) {
            return false;
        }
        self.counts.add(syscall, 1);
        self.total_time.add(syscall, duration_ns);
        if error.is_some() {
            self.errors.add(syscall, 1);
        }
        let rec = SyscallRecord {
            seq: self.next_seq,
            timestamp: timestamp_ns,
            pid,
            cpu,
            syscall: key,
            args,
            ret,
            duration_ns,
            error,
        };
        self.next_seq = self.next_seq.wrapping_add(1);
        if self.records.len() >= self.capacity && self.records.len() > 0 {
            let _ = self.records.remove(0);
        }
        self.records.push(rec);
        proof {
            assert(self.records@.drop_last() =~= if old(self).records@.len() >= old(self).capacity
                && old(self).records@.len() > 0 {
                old(self).records@.drop_first()
            } else {
                old(self).records@
            });
        }
        true
    }

    pub fn records(&self) -> (r: &Vec<SyscallRecord>)
        ensures
            r@ == self.records@,
    {
        &self.records
    }

    /// The logged calls of process `pid`, oldest first.
    pub fn records_for_pid(&self, pid: u32) -> (r: Vec<&SyscallRecord>)
        ensures
            r@.unref() == self.records@.filter(rec_pid_pred(pid)),
    {
        let mut out: Vec<&SyscallRecord> = Vec::new();
        let mut i: usize = 0;
        while i < self.records.len()
            invariant
                i <= self.records@.len(),
                out@.unref() == self.records@.take(i as int).filter(rec_pid_pred(pid)),
            decreases self.records@.len() - i,
        {
            proof {
                crate::seqs::lemma_filter_take_succ(self.records@, i as int, rec_pid_pred(pid));
            }
            if self.records[i].pid == pid {
                out.push(&self.records[i]);
            }
            i = i + 1;
        }
        proof {
            crate::seqs::lemma_take_full(self.records@);
        }
        out
    }

    /// The logged calls of `name`, oldest first.
    pub fn records_for_syscall(&self, name: &str) -> (r: Vec<&SyscallRecord>)
        ensures
            r@.unref() == self.records@.filter(rec_name_pred(name@)),
    {
        let key = String::from_str(name);
        let mut out: Vec<&SyscallRecord> = Vec::new();
        let mut i: usize = 0;
        while i < self.records.len()
            invariant
                i <= self.records@.len(),
                key@ == name@,
                out@.unref() == self.records@.take(i as int).filter(rec_name_pred(name@)),
            decreases self.records@.len() - i,
        {
            proof {
                crate::seqs::lemma_filter_take_succ(self.records@, i as int, rec_name_pred(name@));
            }
            if self.records[i].syscall == key {
                out.push(&self.records[i]);
            }
            i = i + 1;
        }
        proof {
            crate::seqs::lemma_take_full(self.records@);
        }
        out
    }

    /// Calls of `syscall` recorded.
    pub fn count(&self, syscall: &str) -> (r: u64)
        requires
            self.wf(),
        ensures
            r == count_of(self.counts@, syscall@),
    {
        self.counts.get(syscall)
    }

    /// Failed calls of `syscall` recorded.
    pub fn error_count(&self, syscall: &str) -> (r: u64)
        requires
            self.wf(),
        ensures
            r == count_of(self.errors@, syscall@),
    {
        self.errors.get(syscall)
    }

    /// Total time of the recorded calls of `syscall`.
    pub fn total_time_ns(&self, syscall: &str) -> (r: u64)
        requires
            self.wf(),
        ensures
            r == count_of(self.total_time@, syscall@),
    {
        self.total_time.get(syscall)
    }

    /// Forgets the log and the counts.
    pub fn clear(&mut self)
        ensures
            final(self).wf(),
            final(self).records@ == Seq::<SyscallRecord>::empty(),
            final(self).counts@.len() == 0 && final(self).errors@.len() == 0 && final(self).total_time@.len() == 0,
            final(self).capacity == old(self).capacity,
            final(self).enabled == old(self).enabled,
            final(self).traced_pids == old(self).traced_pids,
            final(self).traced_syscalls == old(self).traced_syscalls,
            final(self).next_seq == old(self).next_seq,
    {
        self.records.clear();
        self.counts.clear();
        self.errors.clear();
        self.total_time.clear();
    }
}

/// One profiling sample.
#[derive(Debug)]
pub struct ProfileSample {
    /// Number given by the profiler that took it.
    pub seq: u64,
    pub timestamp: u64,
    pub cpu: u32,
    pub pid: u32,
    /// Program counter.
    pub pc: u64,
    /// Call stack addresses.
    pub stack: Vec<u64>,
    /// Function label, if known.
    pub label: String,
    pub in_kernel: bool,
}

/// `m` with one more counted under `k`.
pub open spec fn id_bumped(m: Map<u32, u64>, k: u32) -> Map<u32, u64> {
    m.insert(k, if m.contains_key(k) { wrap_inc(m[k]) } else { 1 })
}

fn bump_id(m: &mut IdMap<u64>, k: u32)
    requires
        old(m).wf(),
    ensures
        final(m).wf(),
        final(m)@ == id_bumped(old(m)@, k),
{
    let c = match m.get(k) {
        Some(v) => v.wrapping_add(1),
        None => 1,
    };
    let _ = m.insert(k, c);
}

/// Whether the profiler takes a sample of `pid` at `ts`: it is enabled, the sample
/// period has passed since the last sample (a last sample time of 0 means there
/// was none), the process is traced, and the sample is from the kernel when only
/// kernel samples are wanted.
pub open spec fn sample_taken(p: Profiler, pid: u32, in_kernel: bool, ts: u64) -> bool {
    &&& p.enabled
    &&& p.last_sample == 0 || ts >= p.last_sample + p.sample_period_ns
    &&& p.pid_filter@.len() == 0 || p.pid_filter@.contains(pid)
    &&& !p.kernel_only || in_kernel
}

/// A sampling profiler (perf).
pub struct Profiler {
    pub samples: Vec<ProfileSample>,
    pub capacity: usize,
    pub enabled: bool,
    /// Least time between two samples.
    pub sample_period_ns: u64,
    /// Time of the last sample.
    pub last_sample: u64,
    /// Processes sampled (empty: all).
    pub pid_filter: Vec<u32>,
    pub kernel_only: bool,
    pub sample_count: u64,
    pub by_function: NameCounts,
    pub by_pid: IdMap<u64>,
    pub by_cpu: IdMap<u64>,
    pub kernel_samples: u64,
    pub user_samples: u64,
}

impl Profiler {
    pub open spec fn wf(&self) -> bool {
        &&& self.by_function.wf()
        &&& self.by_pid.wf()
        &&& self.by_cpu.wf()
    }

    /// A disabled profiler keeping the last `capacity` samples, at most one per
    /// `sample_period_ns`.
    pub fn new(capacity: usize, sample_period_ns: u64) -> (p: Self)
        ensures
            p.wf(),
            p.samples@ == Seq::<ProfileSample>::empty(),
            p.capacity == capacity,
            !p.enabled,
            p.sample_period_ns == sample_period_ns,
            p.last_sample == 0,
            p.pid_filter@ == Seq::<u32>::empty(),
            !p.kernel_only,
            p.sample_count == 0,
            p.by_function@.len() == 0,
            p.by_pid@ == Map::<u32, u64>::empty(),
            p.by_cpu@ == Map::<u32, u64>::empty(),
            p.kernel_samples == 0 && p.user_samples == 0,
    {
        Profiler {
            samples: Vec::new(),
            capacity,
            enabled: false,
            sample_period_ns,
            last_sample: 0,
            pid_filter: Vec::new(),
            kernel_only: false,
            sample_count: 0,
            by_function: NameCounts::new(),
            by_pid: IdMap::new(),
            by_cpu: IdMap::new(),
            kernel_samples: 0,
            user_samples: 0,
        }
    }

    pub fn enable(&mut self)
        ensures
            *final(self) == (Profiler { enabled: true, ..*old(self) }),
    {
        self.enabled = true;
    }

    pub fn disable(&mut self)
        ensures
            *final(self) == (Profiler { enabled: false, ..*old(self) }),
    {
        self.enabled = false;
    }

    pub fn set_period(&mut self, period_ns: u64)
        ensures
            *final(self) == (Profiler { sample_period_ns: period_ns, ..*old(self) }),
    {
        self.sample_period_ns = period_ns;
    }

    /// Samples process `pid` (among others already sampled).
    pub fn trace_pid(&mut self, pid: u32)
        ensures
            final(self).pid_filter@ == with_member(old(self).pid_filter@, pid),
            *final(self) == (Profiler { pid_filter: final(self).pid_filter, ..*old(self) }),
    {
        if !vec_has_u32(&self.pid_filter, pid) {
            self.pid_filter.push(pid);
        }
    }

    /// Takes kernel samples only.
    pub fn kernel_only(&mut self)
        ensures
            *final(self) == (Profiler { kernel_only: true, ..*old(self) }),
    {
        self.kernel_only = true;
    }

    /// Takes user samples too.
    pub fn user_only(&mut self)
        ensures
            *final(self) == (Profiler { kernel_only: false, ..*old(self) }),
    {
        self.kernel_only = false;
    }

    /// Takes a sample at `timestamp_ns`; false when it is not taken (see
    /// `sample_taken`). Counts by function, process and cpu cover every sample
    /// taken; the log keeps the last `capacity`.
    pub fn sample(
        &mut self,
        cpu: u32,
        pid: u32,
        pc: u64,
        stack: Vec<u64>,
        label: &str,
        in_kernel: bool,
        timestamp_ns: u64,
    ) -> (r: bool)
        requires
            old(self).wf(),
        ensures
            final(self).wf(),
            r == sample_taken(*old(self), pid, in_kernel, timestamp_ns),
            !r ==> *final(self) == *old(self),
            r ==> {
                let last = final(self).samples@.last();
                &&& final(self).samples@.len() > 0
                &&& final(self).samples@.drop_last() == if old(self).samples@.len() >= old(self).capacity
                    && old(self).samples@.len() > 0 {
                    old(self).samples@.drop_first()
                } else {
                    old(self).samples@
                }
                &&& last.seq == old(self).sample_count && last.timestamp == timestamp_ns
                &&& last.cpu == cpu && last.pid == pid && last.pc == pc && last.stack@ == stack@
                &&& last.label@ == label@ && last.in_kernel == in_kernel
                &&& final(self).last_sample == timestamp_ns
                &&& final(self).sample_count == wrap_inc(old(self).sample_count)
                &&& final(self).by_function@ == count_added(old(self).by_function@, label@, 1)
                &&& final(self).by_pid@ == id_bumped(old(self).by_pid@, pid)
                &&& final(self).by_cpu@ == id_bumped(old(self).by_cpu@, cpu)
                &&& final(self).kernel_samples == if in_kernel {
                    wrap_inc(old(self).kernel_samples)
                } else {
                    old(self).kernel_samples
                }
                &&& final(self).user_samples == if in_kernel {
                    old(self).user_samples
                } else {
                    wrap_inc(old(self).user_samples)
                }
                &&& final(self).capacity == old(self).capacity && final(self).enabled == old(self).enabled
                &&& final(self).sample_period_ns == old(self).sample_period_ns
                &&& final(self).pid_filter == old(self).pid_filter
                &&& final(self).kernel_only == old(self).kernel_only
            },
    {
        if !self.enabled {
            return false;
        }
        if self.last_sample != 0 && (timestamp_ns as u128) < (self.last_sample as u128)
            + (self.sample_period_ns as u128) {
            return false;
        }
        if self.pid_filter.len() > 0 && !vec_has_u32(&self.pid_filter, pid) {
            return false;
        }
        if self.kernel_only && !in_kernel {
            return false;
        }
        let sample = ProfileSample {
            seq: self.sample_count,
            timestamp: timestamp_ns,
            cpu,
            pid,
            pc,
            stack,
            label: String::from_str(label),
            in_kernel,
        };
        self.last_sample = timestamp_ns;
        self.sample_count = self.sample_count.wrapping_add(1);
        self.by_function.add(label, 1);
        bump_id(&mut self.by_pid, pid);
        bump_id(&mut self.by_cpu, cpu);
        if in_kernel {
            self.kernel_samples = self.kernel_samples.wrapping_add(1);
        } else {
            self.user_samples = self.user_samples.wrapping_add(1);
        }
        if self.samples.len() >= self.capacity && self.samples.len() > 0 {
            let _ = self.samples.remove(0);
        }
        self.samples.push(sample);
        proof {
            assert(self.samples@.drop_last() =~= if old(self).samples@.len() >= old(self).capacity
                && old(self).samples@.len() > 0 {
                old(self).samples@.drop_first()
            } else {
                old(self).samples@
            });
        }
        true
    }

    /// The `n` functions with the most samples, most first.
    pub fn hot_functions(&self, n: usize) -> (r: Vec<(String, u64)>)
        ensures
            exists|idx: Seq<usize>|
                top_picks(count_values(self.by_function@), n as nat, idx) && entry_views(r@) == picked_entries(
                    self.by_function@,
                    idx,
                ),
    {
        self.by_function.top(n)
    }

    /// The `n` processes with the most samples, most first (lower pid first among
    /// equal counts).
    pub fn hot_pids(&self, n: usize) -> (r: Vec<(u32, u64)>)
        requires
            self.wf(),
        ensures
            exists|idx: Seq<usize>|
                top_picks(self.by_pid.value_seq(), n as nat, idx) && r@ == idx.map_values(
                    |i: usize| (self.by_pid.key_seq()[i as int], self.by_pid.value_seq()[i as int]),
                ),
    {
        proof {
            self.by_pid.lemma_wf();
        }
        let len = self.by_pid.len();
        let mut vals: Vec<u64> = Vec::new();
        let mut i: usize = 0;
        while i < len
            invariant
                len == self.by_pid.key_seq().len(),
                self.by_pid.key_seq().len() == self.by_pid.value_seq().len(),
                i <= len,
                vals@ == self.by_pid.value_seq().take(i as int),
            decreases len - i,
        {
            vals.push(*self.by_pid.value_at(i));
            i = i + 1;
            assert(vals@ =~= self.by_pid.value_seq().take(i as int));
        }
        assert(vals@ =~= self.by_pid.value_seq());
        let idx = top_indices(&vals, n);
        let mut out: Vec<(u32, u64)> = Vec::new();
        let mut k: usize = 0;
        while k < idx.len()
            invariant
                k <= idx@.len(),
                vals@ == self.by_pid.value_seq(),
                self.by_pid.key_seq().len() == self.by_pid.value_seq().len(),
                top_picks(vals@, n as nat, idx@),
                out@ == idx@.take(k as int).map_values(
                    |i: usize| (self.by_pid.key_seq()[i as int], self.by_pid.value_seq()[i as int]),
                ),
            decreases idx@.len() - k,
        {
            let j = idx[k];
            proof {
                assert(idx@[k as int] < vals@.len());
            }
            out.push((self.by_pid.key_at(j), *self.by_pid.value_at(j)));
            k = k + 1;
            assert(out@ =~= idx@.take(k as int).map_values(
                |i: usize| (self.by_pid.key_seq()[i as int], self.by_pid.value_seq()[i as int]),
            ));
        }
        assert(idx@.take(k as int) =~= idx@);
        out
    }

    /// Samples taken on `cpu`.
    pub fn samples_per_cpu(&self, cpu: u32) -> (r: u64)
        requires
            self.wf(),
        ensures
            r == if self.by_cpu@.contains_key(cpu) { self.by_cpu@[cpu] } else { 0 },
    {
        match self.by_cpu.get(cpu) {
            Some(c) => *c,
            None => 0,
        }
    }

    pub fn total_samples(&self) -> (r: u64)
        ensures
            r == self.sample_count,
    {
        self.sample_count
    }

    /// Forgets the samples and counts; period, filters and the time of the last
    /// sample stay.
    pub fn clear(&mut self)
        ensures
            final(self).wf(),
            final(self).samples@ == Seq::<ProfileSample>::empty(),
            final(self).sample_count == 0,
            final(self).by_function@.len() == 0,
            final(self).by_pid@ == Map::<u32, u64>::empty(),
            final(self).by_cpu@ == Map::<u32, u64>::empty(),
            final(self).kernel_samples == 0 && final(self).user_samples == 0,
            final(self).capacity == old(self).capacity && final(self).enabled == old(self).enabled,
            final(self).sample_period_ns == old(self).sample_period_ns,
            final(self).last_sample == old(self).last_sample,
            final(self).pid_filter == old(self).pid_filter,
            final(self).kernel_only == old(self).kernel_only,
    {
        self.samples.clear();
        self.sample_count = 0;
        self.by_function.clear();
        self.by_pid = IdMap::new();
        self.by_cpu = IdMap::new();
        self.kernel_samples = 0;
        self.user_samples = 0;
    }
}

/// A latency that exceeded the alert threshold.
#[derive(Debug)]
pub struct LatencyAlert {
    pub name: String,
    pub latency_ns: u64,
    pub timestamp: u64,
    pub message: String,
}

impl Clone for LatencyAlert {
    fn clone(&self) -> (r: Self)
        ensures
            r == *self,
    {
        LatencyAlert {
            name: self.name.clone(),
            latency_ns: self.latency_ns,
            timestamp: self.timestamp,
            message: self.message.clone(),
        }
    }
}

/// The text of an alert for `name`.
pub open spec fn alert_text(name: Seq<char>, latency: u64, threshold: u64) -> Seq<char> {
    "Latency "@ + name + " exceeded threshold: "@ + crate::text::decimal(latency as nat) + " ns > "@
        + crate::text::decimal(threshold as nat) + " ns"@
}

/// The latency histogram bounds.
pub open spec fn latency_bounds() -> Seq<u64> {
    seq![1_000u64, 10_000, 100_000, 1_000_000, 10_000_000, 100_000_000, 1_000_000_000]
}

/// The histogram at position `i` is the first one named `name`.
pub open spec fn hist_at(hs: Seq<(String, Histogram)>, name: Seq<char>, i: int) -> bool {
    &&& 0 <= i < hs.len()
    &&& hs[i].0@ == name
    &&& forall|j: int| 0 <= j < i ==> hs[j].0@ != name
}

/// Position of the histogram named `name`, if any.
pub open spec fn hist_index(hs: Seq<(String, Histogram)>, name: Seq<char>) -> Option<int> {
    if exists|i: int| hist_at(hs, name, i) {
        Some(choose|i: int| hist_at(hs, name, i))
    } else {
        None
    }
}

/// `h1` is `h0` after recording `v`.
pub open spec fn hist_recorded(h0: Histogram, h1: Histogram, v: u64) -> bool {
    &&& h1.wf()
    &&& h1.name == h0.name
    &&& h1.bucket_bounds@ == h0.bucket_bounds@
    &&& h1.count == wrap_inc(h0.count)
    &&& h1.sum == wrap_add64(h0.sum, v)
    &&& h1.min_value == if v < h0.min_value { v } else { h0.min_value }
    &&& h1.max_value == if v > h0.max_value { v } else { h0.max_value }
    &&& h1.buckets@ == h0.buckets@.insert(
        bucket_for(h0.bucket_bounds@, v),
        if h0.buckets@.contains_key(bucket_for(h0.bucket_bounds@, v)) {
            wrap_inc(h0.buckets@[bucket_for(h0.bucket_bounds@, v)])
        } else {
            1
        },
    )
}

/// `h` is a fresh latency histogram named `name` after recording `v` once.
pub open spec fn hist_first(h: Histogram, name: Seq<char>, v: u64) -> bool {
    &&& h.wf()
    &&& h.name@ == name
    &&& h.bucket_bounds@ == latency_bounds()
    &&& h.count == 1 && h.sum == v && h.min_value == v && h.max_value == v
    &&& h.buckets@ == Map::<u64, u64>::empty().insert(bucket_for(latency_bounds(), v), 1)
}

/// Latency histograms and worst cases by name, and alerts for latencies over a
/// threshold.
pub struct LatencyTracker {
    pub histograms: Vec<(String, Histogram)>,
    pub worst_case: NameCounts,
    /// Alert threshold.
    pub threshold_ns: u64,
    pub alerts: Vec<LatencyAlert>,
    pub max_alerts: usize,
}

impl LatencyTracker {
    pub open spec fn wf(&self) -> bool {
        &&& forall|i: int| 0 <= i < self.histograms@.len() ==> (#[trigger] self.histograms@[i]).1.wf()
        &&& self.worst_case.wf()
    }

    /// A tracker alerting above `threshold_ns`, keeping the last `max_alerts` alerts.
    pub fn new(threshold_ns: u64, max_alerts: usize) -> (t: Self)
        ensures
            t.wf(),
            t.histograms@ == Seq::<(String, Histogram)>::empty(),
            t.worst_case@.len() == 0,
            t.threshold_ns == threshold_ns,
            t.alerts@ == Seq::<LatencyAlert>::empty(),
            t.max_alerts == max_alerts,
    {
        LatencyTracker {
            histograms: Vec::new(),
            worst_case: NameCounts::new(),
            threshold_ns,
            alerts: Vec::new(),
            max_alerts,
        }
    }

    fn find(&self, name: &String) -> (r: Option<usize>)
        ensures
            match r {
                Some(i) => hist_index(self.histograms@, name@) == Some(i as int) && i < self.histograms@.len(),
                None => hist_index(self.histograms@, name@) is None,
            },
    {
        let mut i: usize = 0;
        while i < self.histograms.len()
            invariant
                i <= self.histograms@.len(),
                forall|j: int| 0 <= j < i ==> self.histograms@[j].0@ != name@,
            decreases self.histograms@.len() - i,
        {
            if self.histograms[i].0 == *name {
                proof {
                    assert(hist_at(self.histograms@, name@, i as int));
                    let k = choose|k: int| hist_at(self.histograms@, name@, k);
                    assert(k == i);
                }
                return Some(i);
            }
            i = i + 1;
        }
        None
    }

    /// Records a latency of `name`: into its histogram (a new latency histogram
    /// for a new name), its worst case, and an alert when above the threshold.
    pub fn record(&mut self, name: &str, latency_ns: u64, timestamp_ns: u64)
        requires
            old(self).wf(),
        ensures
            final(self).wf(),
            final(self).threshold_ns == old(self).threshold_ns,
            final(self).max_alerts == old(self).max_alerts,
            match hist_index(old(self).histograms@, name@) {
                Some(i) => {
                    &&& final(self).histograms@.len() == old(self).histograms@.len()
                    &&& forall|j: int| 0 <= j < old(self).histograms@.len() && j != i
                        ==> #[trigger] final(self).histograms@[j] == old(self).histograms@[j]
                    &&& final(self).histograms@[i].0 == old(self).histograms@[i].0
                    &&& hist_recorded(old(self).histograms@[i].1, final(self).histograms@[i].1, latency_ns)
                },
                None => {
                    &&& final(self).histograms@.drop_last() == old(self).histograms@
                    &&& final(self).histograms@.len() == old(self).histograms@.len() + 1
                    &&& final(self).histograms@.last().0@ == name@
                    &&& hist_first(final(self).histograms@.last().1, name@, latency_ns)
                },
            },
            final(self).worst_case@ == if latency_ns > count_of(old(self).worst_case@, name@) {
                count_set(old(self).worst_case@, name@, latency_ns)
            } else {
                old(self).worst_case@
            },
            latency_ns <= old(self).threshold_ns ==> final(self).alerts@ == old(self).alerts@,
            latency_ns > old(self).threshold_ns ==> {
                let a = final(self).alerts@.last();
                &&& final(self).alerts@.len() > 0
                &&& final(self).alerts@.drop_last() == if old(self).alerts@.len() >= old(self).max_alerts
                    && old(self).alerts@.len() > 0 {
                    old(self).alerts@.drop_first()
                } else {
                    old(self).alerts@
                }
                &&& a.name@ == name@ && a.latency_ns == latency_ns && a.timestamp == timestamp_ns
                &&& a.message@ == alert_text(name@, latency_ns, old(self).threshold_ns)
            },
    {
        let key = String::from_str(name);
        match self.find(&key) {
            Some(i) => {
                proof {
                    assert(self.histograms@[i as int].1.wf());
                }
                let ghost h0 = self.histograms@[i as int].1;
                let pair = &mut self.histograms[i];
                pair.1.record(latency_ns);
                proof {
                    assert forall|j: int| 0 <= j < self.histograms@.len() implies (#[trigger] self.histograms@[j]).1.wf() by {
                        if j != i {
                            assert(self.histograms@[j] == old(self).histograms@[j]);
                        }
                    }
                }
            },
            None => {
                let mut h = Histogram::latency(name);
                h.record(latency_ns);
                proof {
                    assert(bucket_for(latency_bounds(), latency_ns) == bucket_for(h.bucket_bounds@, latency_ns));
                }
                self.histograms.push((key, h));
                proof {
                    assert(self.histograms@.drop_last() =~= old(self).histograms@);
                    assert forall|j: int| 0 <= j < self.histograms@.len() implies (#[trigger] self.histograms@[j]).1.wf() by {
                        if j < old(self).histograms@.len() {
                            assert(self.histograms@[j] == old(self).histograms@[j]);
                        }
                    }
                }
            },
        }
        let worst = self.worst_case.get(name);
        if latency_ns > worst {
            self.worst_case.set(name, latency_ns);
        }
        if latency_ns > self.threshold_ns {
            if self.alerts.len() >= self.max_alerts && self.alerts.len() > 0 {
                let _ = self.alerts.remove(0);
            }
            let mut msg = String::from_str("Latency ");
            msg.append(name);
            msg.append(" exceeded threshold: ");
            crate::text::push_decimal(&mut msg, latency_ns);
            msg.append(" ns > ");
            crate::text::push_decimal(&mut msg, self.threshold_ns);
            msg.append(" ns");
            let ghost before = self.alerts@;
            self.alerts.push(
                LatencyAlert {
                    name: String::from_str(name),
                    latency_ns,
                    timestamp: timestamp_ns,
                    message: msg,
                },
            );
            proof {
                assert(self.alerts@.drop_last() =~= before);
                reveal_strlit("Latency ");
                reveal_strlit(" exceeded threshold: ");
                reveal_strlit(" ns > ");
                reveal_strlit(" ns");
            }
        }
    }

    /// The histogram of `name`, if any.
    pub fn histogram(&self, name: &str) -> (r: Option<&Histogram>)
        ensures
            match hist_index(self.histograms@, name@) {
                Some(i) => r == Some(&self.histograms@[i].1),
                None => r is None,
            },
    {
        let key = String::from_str(name);
        match self.find(&key) {
            Some(i) => Some(&self.histograms[i].1),
            None => None,
        }
    }

    /// The worst latency of `name` (0 if none).
    pub fn worst_case_ns(&self, name: &str) -> (r: u64)
        requires
            self.wf(),
        ensures
            r == count_of(self.worst_case@, name@),
    {
        self.worst_case.get(name)
    }

    /// The names tracked, in order of first record.
    pub fn tracked_names(&self) -> (r: Vec<String>)
        ensures
            r@.len() == self.histograms@.len(),
            forall|i: int| 0 <= i < r@.len() ==> (#[trigger] r@[i])@ == self.histograms@[i].0@,
    {
        let mut out: Vec<String> = Vec::new();
        let mut i: usize = 0;
        while i < self.histograms.len()
            invariant
                i <= self.histograms@.len(),
                out@.len() == i,
                forall|k: int| 0 <= k < i ==> (#[trigger] out@[k])@ == self.histograms@[k].0@,
            decreases self.histograms@.len() - i,
        {
            out.push(self.histograms[i].0.clone());
            i = i + 1;
        }
        out
    }

    pub fn alerts(&self) -> (r: &Vec<LatencyAlert>)
        ensures
            r@ == self.alerts@,
    {
        &self.alerts
    }

    pub fn set_threshold(&mut self, threshold_ns: u64)
        ensures
            *final(self) == (LatencyTracker { threshold_ns: threshold_ns, ..*old(self) }),
    {
        self.threshold_ns = threshold_ns;
    }

    /// Forgets histograms, worst cases and alerts.
    pub fn clear(&mut self)
        ensures
            final(self).wf(),
            final(self).histograms@ == Seq::<(String, Histogram)>::empty(),
            final(self).worst_case@.len() == 0,
            final(self).alerts@ == Seq::<LatencyAlert>::empty(),
            final(self).threshold_ns == old(self).threshold_ns,
            final(self).max_alerts == old(self).max_alerts,
    {
        self.histograms.clear();
        self.worst_case.clear();
        self.alerts.clear();
    }
}

/// Number of trace categories.
pub const CATEGORY_COUNT: usize = 11;

/// All tracers together, with a global filter and per-category event counts.
pub struct TraceManager {
    pub ring_buffer: RingBuffer,
    pub function_tracer: FunctionTracer,
    pub syscall_tracer: SyscallTracer,
    pub profiler: Profiler,
    pub latency: LatencyTracker,
    pub filter: TraceFilter,
    pub enabled: bool,
    pub total_events: u64,
    /// Events traced, by category in declaration order.
    pub events_by_cat: Vec<u64>,
    pub start_time: u64,
}

impl TraceManager {
    pub open spec fn wf(&self) -> bool {
        &&& self.function_tracer.wf()
        &&& self.syscall_tracer.wf()
        &&& self.profiler.wf()
        &&& self.latency.wf()
        &&& self.events_by_cat@.len() == CATEGORY_COUNT
    }

    /// A disabled manager: ring buffer and syscall log of `ring_capacity`, call
    /// stacks of `max_stack_depth`, a profiler sampling at most every millisecond,
    /// and latency alerts above 100 ms (the last 100 kept).
    pub fn new(ring_capacity: usize, max_stack_depth: usize) -> (m: Self)
        ensures
            m.wf(),
            !m.enabled,
            m.ring_buffer@ == (RingView {
                events: Seq::empty(),
                capacity: ring_capacity,
                total_count: 0,
                dropped: 0,
                enabled: false,
            }),
            m.function_tracer.stacks@ == Map::<u32, Vec<CallStackEntry>>::empty(),
            m.function_tracer.max_depth == max_stack_depth && !m.function_tracer.enabled,
            m.function_tracer.call_counts@.len() == 0 && m.function_tracer.total_time@.len() == 0,
            m.syscall_tracer.capacity == ring_capacity && !m.syscall_tracer.enabled,
            m.syscall_tracer.records@.len() == 0 && m.syscall_tracer.counts@.len() == 0,
            m.profiler.capacity == ring_capacity && m.profiler.sample_period_ns == 1_000_000,
            !m.profiler.enabled && m.profiler.sample_count == 0,
            m.latency.threshold_ns == 100_000_000 && m.latency.max_alerts == 100,
            m.latency.histograms@.len() == 0 && m.latency.alerts@.len() == 0,
            m.filter.categories@.len() == 0 && m.filter.pids@.len() == 0 && m.filter.cpus@.len() == 0,
            m.filter.name_substring is None && m.filter.min_duration_ns is None,
            m.total_events == 0,
            m.events_by_cat@ == Seq::new(CATEGORY_COUNT as nat, |i: int| 0u64),
    {
        let mut ring_buffer = RingBuffer::new(ring_capacity);
        ring_buffer.disable();
        let mut counts: Vec<u64> = Vec::new();
        let mut i: usize = 0;
        while i < CATEGORY_COUNT
            invariant
                i <= CATEGORY_COUNT,
                counts@ == Seq::new(i as nat, |k: int| 0u64),
            decreases CATEGORY_COUNT - i,
        {
            counts.push(0);
            i = i + 1;
            assert(counts@ =~= Seq::new(i as nat, |k: int| 0u64));
        }
        TraceManager {
            ring_buffer,
            function_tracer: FunctionTracer::new(max_stack_depth),
            syscall_tracer: SyscallTracer::new(ring_capacity),
            profiler: Profiler::new(ring_capacity, 1_000_000),
            latency: LatencyTracker::new(100_000_000, 100),
            filter: TraceFilter::new(),
            enabled: false,
            total_events: 0,
            events_by_cat: counts,
            start_time: 0,
        }
    }

    /// Enables the manager and every tracer.
    pub fn enable(&mut self)
        ensures
            final(self).enabled,
            final(self).ring_buffer@ == (RingView { enabled: true, ..old(self).ring_buffer@ }),
            final(self).function_tracer == (FunctionTracer { enabled: true, ..old(self).function_tracer }),
            final(self).syscall_tracer == (SyscallTracer { enabled: true, ..old(self).syscall_tracer }),
            final(self).profiler == (Profiler { enabled: true, ..old(self).profiler }),
            final(self).latency == old(self).latency,
            final(self).filter == old(self).filter,
            final(self).total_events == old(self).total_events,
            final(self).events_by_cat == old(self).events_by_cat,
    {
        self.enabled = true;
        self.ring_buffer.enable();
        self.function_tracer.enable();
        self.syscall_tracer.enable();
        self.profiler.enable();
    }

    /// Disables the manager and every tracer.
    pub fn disable(&mut self)
        ensures
            !final(self).enabled,
            final(self).ring_buffer@ == (RingView { enabled: false, ..old(self).ring_buffer@ }),
            final(self).function_tracer == (FunctionTracer { enabled: false, ..old(self).function_tracer }),
            final(self).syscall_tracer == (SyscallTracer { enabled: false, ..old(self).syscall_tracer }),
            final(self).profiler == (Profiler { enabled: false, ..old(self).profiler }),
            final(self).latency == old(self).latency,
            final(self).filter == old(self).filter,
            final(self).total_events == old(self).total_events,
            final(self).events_by_cat == old(self).events_by_cat,
    {
        self.enabled = false;
        self.ring_buffer.disable();
        self.function_tracer.disable();
        self.syscall_tracer.disable();
        self.profiler.disable();
    }

    /// Sets the global filter, which the function tracer uses too.
    pub fn set_filter(&mut self, filter: TraceFilter)
        ensures
            final(self).filter.categories@ == filter.categories@,
            final(self).filter.pids@ == filter.pids@,
            final(self).filter.cpus@ == filter.cpus@,
            final(self).filter.name_substring == filter.name_substring,
            final(self).filter.min_duration_ns == filter.min_duration_ns,
            final(self).function_tracer == (FunctionTracer { filter: filter, ..old(self).function_tracer }),
            final(self).ring_buffer@ == old(self).ring_buffer@,
            final(self).syscall_tracer == old(self).syscall_tracer,
            final(self).profiler == old(self).profiler,
            final(self).latency == old(self).latency,
            final(self).enabled == old(self).enabled,
            final(self).total_events == old(self).total_events,
            final(self).events_by_cat == old(self).events_by_cat,
    {
        self.filter = filter.clone();
        self.function_tracer.set_filter(filter);
    }

    /// Traces `event` at `timestamp_ns` when enabled and admitted by the filter:
    /// it is counted, by category too, and pushed into the ring buffer (whose
    /// answer is returned). False otherwise, with nothing changed.
    pub fn trace(&mut self, event: TraceEvent, timestamp_ns: u64) -> (r: bool)
        requires
            old(self).wf(),
        ensures
            final(self).wf(),
            final(self).function_tracer == old(self).function_tracer,
            final(self).syscall_tracer == old(self).syscall_tracer,
            final(self).profiler == old(self).profiler,
            final(self).latency == old(self).latency,
            final(self).filter == old(self).filter,
            final(self).enabled == old(self).enabled,
            if old(self).enabled && filter_admits(old(self).filter, event) {
                let i = category_index(event.category);
                &&& final(self).total_events == wrap_inc(old(self).total_events)
                &&& final(self).events_by_cat@ == old(self).events_by_cat@.update(
                    i,
                    wrap_inc(old(self).events_by_cat@[i]),
                )
                &&& r == old(self).ring_buffer@.enabled
                &&& r ==> final(self).ring_buffer@ == ring_pushed(old(self).ring_buffer@, event, timestamp_ns)
                &&& !r ==> final(self).ring_buffer@ == old(self).ring_buffer@
            } else {
                &&& !r
                &&& final(self).ring_buffer@ == old(self).ring_buffer@
                &&& final(self).total_events == old(self).total_events
                &&& final(self).events_by_cat == old(self).events_by_cat
            },
    {
        if !self.enabled {
            return false;
        }
        if !self.filter.matches(&event) {
            return false;
        }
        self.total_events = self.total_events.wrapping_add(1);
        let i = event.category.index();
        let c = self.events_by_cat[i].wrapping_add(1);
        self.events_by_cat.set(i, c);
        self.ring_buffer.push(event, timestamp_ns)
    }

    /// Enters function `name` in the function tracer.
    pub fn function_enter(&mut self, cpu: u32, pid: u32, name: &str, timestamp_ns: u64) -> (r: bool)
        requires
            old(self).wf(),
        ensures
            final(self).wf(),
            *final(self) == (TraceManager { function_tracer: final(self).function_tracer, ..*old(self) }),
            r == (old(self).function_tracer.enabled && admits_parts(
                old(self).function_tracer.filter,
                TraceCategory::Function,
                pid,
                cpu,
                name@,
                None,
            ) && stack_of(old(self).function_tracer.stacks@, cpu).len() < old(self).function_tracer.max_depth),
            r ==> stack_of(final(self).function_tracer.stacks@, cpu).last().name@ == name@
                && final(self).function_tracer.call_counts@ == count_added(
                old(self).function_tracer.call_counts@,
                name@,
                1,
            ),
    {
        self.function_tracer.enter(cpu, pid, name, timestamp_ns, [0, 0, 0])
    }

    /// Exits the top function of `cpu` in the function tracer and records its
    /// duration as a latency of that function.
    pub fn function_exit(&mut self, cpu: u32, timestamp_ns: u64) -> (r: Option<(String, u64)>)
        requires
            old(self).wf(),
        ensures
            final(self).wf(),
            final(self).ring_buffer@ == old(self).ring_buffer@,
            final(self).syscall_tracer == old(self).syscall_tracer,
            final(self).profiler == old(self).profiler,
            final(self).filter == old(self).filter,
            final(self).enabled == old(self).enabled,
            final(self).total_events == old(self).total_events,
            final(self).events_by_cat == old(self).events_by_cat,
            ({
                let stack0 = stack_of(old(self).function_tracer.stacks@, cpu);
                if !old(self).function_tracer.enabled || stack0.len() == 0 {
                    r is None && final(self).function_tracer == old(self).function_tracer && final(self).latency
                        == old(self).latency
                } else {
                    let top = stack0.last();
                    let d = if timestamp_ns >= top.entry_time {
                        (timestamp_ns - top.entry_time) as u64
                    } else {
                        0
                    };
                    &&& r matches Some(p) && p.0@ == top.name@ && p.1 == d
                    &&& stack_of(final(self).function_tracer.stacks@, cpu) == stack0.drop_last()
                    &&& final(self).function_tracer.total_time@ == count_added(
                        old(self).function_tracer.total_time@,
                        top.name@,
                        d,
                    )
                    &&& final(self).latency.worst_case@ == if d > count_of(old(self).latency.worst_case@, top.name@) {
                        count_set(old(self).latency.worst_case@, top.name@, d)
                    } else {
                        old(self).latency.worst_case@
                    }
                    &&& match hist_index(old(self).latency.histograms@, top.name@) {
                        Some(i) => hist_recorded(
                            old(self).latency.histograms@[i].1,
                            final(self).latency.histograms@[i].1,
                            d,
                        ),
                        None => hist_first(final(self).latency.histograms@.last().1, top.name@, d),
                    }
                }
            }),
    {
        let result = self.function_tracer.exit(cpu, timestamp_ns);
        match &result {
            Some((name, duration)) => {
                self.latency.record(name.as_str(), *duration, timestamp_ns);
            },
            None => {},
        }
        result
    }

    /// Records a system call in the syscall tracer.
    pub fn syscall(
        &mut self,
        pid: u32,
        cpu: u32,
        name: &str,
        args: [u64; 6],
        ret: i64,
        duration_ns: u64,
        timestamp_ns: u64,
        error: Option<String>,
    ) -> (r: bool)
        requires
            old(self).wf(),
        ensures
            final(self).wf(),
            *final(self) == (TraceManager { syscall_tracer: final(self).syscall_tracer, ..*old(self) }),
            r == syscall_admitted(old(self).syscall_tracer, pid, name@),
            r ==> final(self).syscall_tracer.counts@ == count_added(old(self).syscall_tracer.counts@, name@, 1),
            !r ==> final(self).syscall_tracer == old(self).syscall_tracer,
    {
        self.syscall_tracer.record(pid, cpu, name, args, ret, duration_ns, timestamp_ns, error)
    }

    /// Takes a profiling sample.
    pub fn sample(
        &mut self,
        cpu: u32,
        pid: u32,
        pc: u64,
        stack: Vec<u64>,
        label: &str,
        in_kernel: bool,
        timestamp_ns: u64,
    ) -> (r: bool)
        requires
            old(self).wf(),
        ensures
            final(self).wf(),
            *final(self) == (TraceManager { profiler: final(self).profiler, ..*old(self) }),
            r == sample_taken(old(self).profiler, pid, in_kernel, timestamp_ns),
            r ==> final(self).profiler.sample_count == wrap_inc(old(self).profiler.sample_count),
            !r ==> final(self).profiler == old(self).profiler,
    {
        self.profiler.sample(cpu, pid, pc, stack, label, in_kernel, timestamp_ns)
    }

    /// Events traced in category `cat`.
    pub fn events_in_category(&self, cat: TraceCategory) -> (r: u64)
        requires
            self.wf(),
        ensures
            r == self.events_by_cat@[category_index(cat)],
    {
        self.events_by_cat[cat.index()]
    }

    /// Clears every tracer's data and the counts; settings stay.
    pub fn clear_all(&mut self)
        requires
            old(self).wf(),
        ensures
            final(self).wf(),
            final(self).ring_buffer@ == (RingView { events: Seq::empty(), ..old(self).ring_buffer@ }),
            final(self).function_tracer.call_counts@.len() == 0,
            final(self).function_tracer.total_time@.len() == 0,
            final(self).function_tracer.max_depth_reached == 0,
            final(self).function_tracer.stacks == old(self).function_tracer.stacks,
            final(self).syscall_tracer.records@.len() == 0 && final(self).syscall_tracer.counts@.len() == 0,
            final(self).syscall_tracer.errors@.len() == 0 && final(self).syscall_tracer.total_time@.len() == 0,
            final(self).profiler.samples@.len() == 0 && final(self).profiler.sample_count == 0,
            final(self).profiler.by_function@.len() == 0,
            final(self).profiler.by_pid@ == Map::<u32, u64>::empty(),
            final(self).profiler.by_cpu@ == Map::<u32, u64>::empty(),
            final(self).latency.histograms@.len() == 0 && final(self).latency.alerts@.len() == 0,
            final(self).latency.worst_case@.len() == 0,
            final(self).total_events == 0,
            final(self).events_by_cat@ == Seq::new(CATEGORY_COUNT as nat, |i: int| 0u64),
            final(self).enabled == old(self).enabled,
            final(self).filter == old(self).filter,
    {
        self.ring_buffer.clear();
        self.function_tracer.reset_stats();
        self.syscall_tracer.clear();
        self.profiler.clear();
        self.latency.clear();
        self.total_events = 0;
        let mut zeros: Vec<u64> = Vec::new();
        let mut i: usize = 0;
        while i < CATEGORY_COUNT
            invariant
                i <= CATEGORY_COUNT,
                zeros@ == Seq::new(i as nat, |k: int| 0u64),
            decreases CATEGORY_COUNT - i,
        {
            zeros.push(0);
            i = i + 1;
            assert(zeros@ =~= Seq::new(i as nat, |k: int| 0u64));
        }
        self.events_by_cat = zeros;
    }
}

} // verus!
