//! Time sources, a monotonic clock, and deadline tracking for sleeping,
//! periodic and one-shot timers.

use vstd::prelude::*;
use crate::text::decimal;

pub mod duration;

verus! {

/// A source of time (HPET, PIT, TSC, or simulated).
pub trait TimerSource: Send + Sync {
    /// The current time in nanoseconds; it does not go back.
    fn now_ns(&self) -> u64;

    /// Ticks per second.
    fn frequency(&self) -> u64;

    /// Nanoseconds per tick.
    fn resolution_ns(&self) -> u64 {
        resolution_for(self.frequency())
    }
}

/// Nanoseconds per tick at `freq` ticks per second (a frequency of 0 counts as 1).
pub open spec fn resolution_spec(freq: u64) -> u64 {
    if freq == 0 {
        1_000_000_000
    } else {
        (1_000_000_000u64 / freq) as u64
    }
}

fn resolution_for(freq: u64) -> (r: u64)
    ensures
        r == resolution_spec(freq),
{
    let f = if freq == 0 { 1 } else { freq };
    1_000_000_000 / f
}

/// Declares `spin::Mutex` to the verifier; its contents are not visible.
#[verifier::external_type_specification]
#[verifier::external_body]
#[verifier::reject_recursive_types(T)]
#[verifier::reject_recursive_types(R)]
pub struct ExSpinMutex<T: ?Sized, R>(spin::mutex::Mutex<T, R>);

/// Declares `spin::Spin`, the lock's default way of waiting, to the verifier.
#[verifier::external_type_specification]
#[verifier::external_body]
pub struct ExSpinRelax(spin::Spin);

/// `spin::Mutex::new`: a lock holding `v`. Nothing is stated of what it holds,
/// since the lock may be written through a shared reference.
#[verifier::external_body]
fn lock_new(v: u64) -> spin::Mutex<u64> {
    spin::Mutex::new(v)
}

/// Declares `spin::MutexGuard`, the proof that a lock is held, to the verifier;
/// dropping it releases the lock.
#[verifier::external_type_specification]
#[verifier::external_body]
#[verifier::reject_recursive_types(T)]
#[verifier::reject_recursive_types(R)]
pub struct ExSpinGuard<'a, T: 'a + ?Sized, R>(spin::mutex::MutexGuard<'a, T, R>);

/// `spin::Mutex::lock`: waits until the lock is free and takes it.
#[verifier::external_body]
fn lock_acquire(m: &spin::Mutex<u64>) -> spin::mutex::MutexGuard<'_, u64> {
    m.lock()
}

/// `MutexGuard::deref`: the value held under a taken lock. Nothing is stated
/// of it: any holder of a shared reference to the lock may have written it
/// before the lock was taken.
#[verifier::external_body]
fn guard_get(g: &spin::mutex::MutexGuard<'_, u64>) -> u64 {
    **g
}

/// `MutexGuard::deref_mut`: writes `v` under a taken lock.
#[verifier::external_body]
fn guard_set(g: &mut spin::mutex::MutexGuard<'_, u64>, v: u64) {
    **g = v;
}

/// A time source for tests and software validation whose time is moved by hand.
pub struct SimulatedTimerSource {
    current_ns: spin::Mutex<u64>,
    freq: u64,
}

impl SimulatedTimerSource {
    /// A source at time 0 ticking `freq` times per second.
    pub fn new(freq: u64) -> (s: Self)
        ensures
            s.frequency_spec() == freq,
    {
        SimulatedTimerSource { current_ns: lock_new(0), freq }
    }

    pub closed spec fn frequency_spec(&self) -> u64 {
        self.freq
    }

    /// Moves the time on by `ns` (wrapping at 2^64), reading and writing under
    /// one acquisition of the lock.
    pub fn advance(&self, ns: u64) {
        let mut g = lock_acquire(&self.current_ns);
        let t = guard_get(&g);
        guard_set(&mut g, t.wrapping_add(ns));
    }

    /// Sets the time to `ns`.
    pub fn set(&self, ns: u64) {
        let mut g = lock_acquire(&self.current_ns);
        guard_set(&mut g, ns);
    }
}

impl TimerSource for SimulatedTimerSource {
    fn now_ns(&self) -> u64 {
        let g = lock_acquire(&self.current_ns);
        guard_get(&g)
    }

    fn frequency(&self) -> (r: u64)
        ensures
            r == self.frequency_spec(),
    {
        self.freq
    }
}

/// `a - b`, or 0 when `b` is larger.
pub open spec fn sat_sub64(a: u64, b: u64) -> u64 {
    if a >= b {
        (a - b) as u64
    } else {
        0
    }
}

/// Three decimal digits, with leading zeros.
pub open spec fn three_digits(n: nat) -> Seq<char> {
    seq![
        crate::text::digit_char(n / 100),
        crate::text::digit_char((n / 10) % 10),
        crate::text::digit_char(n % 10),
    ]
}

/// An uptime as text: whole seconds, a point, milliseconds in three digits, `s`
/// (such as `12.345s`).
pub open spec fn uptime_spec(ns: u64) -> Seq<char> {
    decimal((ns / 1_000_000_000) as nat) + "."@ + three_digits(((ns / 1_000_000) % 1000) as nat) + "s"@
}

/// Formats an uptime of `uptime_ns` nanoseconds as seconds with milliseconds.
pub fn uptime_text(uptime_ns: u64) -> (s: String)
    ensures
        s@ == uptime_spec(uptime_ns),
{
    let secs = uptime_ns / 1_000_000_000;
    let ms = (uptime_ns / 1_000_000) % 1000;
    let mut s = String::new();
    crate::text::push_decimal(&mut s, secs);
    s.append(".");
    crate::text::push_decimal(&mut s, ms / 100);
    crate::text::push_decimal(&mut s, (ms / 10) % 10);
    crate::text::push_decimal(&mut s, ms % 10);
    s.append("s");
    proof {
        reveal_strlit(".");
        reveal_strlit("s");
        assert(decimal((ms / 100) as nat) == seq![crate::text::digit_char((ms / 100) as nat)]);
        assert(decimal(((ms / 10) % 10) as nat) == seq![crate::text::digit_char(((ms / 10) % 10) as nat)]);
        assert(decimal((ms % 10) as nat) == seq![crate::text::digit_char((ms % 10) as nat)]);
    }
    assert(s@ =~= uptime_spec(uptime_ns));
    s
}

/// A monotonic clock over a time source, counting from its creation.
pub struct MonotonicClock<S: TimerSource + 'static> {
    source: &'static S,
    boot_ns: u64,
}

impl<S: TimerSource + 'static> MonotonicClock<S> {
    /// Time of creation, read from the source.
    pub closed spec fn boot(&self) -> u64 {
        self.boot_ns
    }

    /// The time source the clock reads.
    pub closed spec fn source(&self) -> &'static S {
        self.source
    }

    /// A clock over `source`, counting from one reading of it.
    pub fn new(source: &'static S) -> (c: Self)
        ensures
            c.source() == source,
    {
        let boot_ns = source.now_ns();
        MonotonicClock { source, boot_ns }
    }

    /// Nanoseconds since creation (0 if the source reads earlier than then).
    pub fn uptime_ns(&self) -> (r: u64)
        ensures
            exists|now: u64| r == sat_sub64(now, self.boot()),
    {
        let now = self.source.now_ns();
        let r = if now >= self.boot_ns {
            now - self.boot_ns
        } else {
            0
        };
        assert(r == sat_sub64(now, self.boot()));
        r
    }

    /// Whole milliseconds since creation.
    pub fn uptime_ms(&self) -> (r: u64)
        ensures
            exists|now: u64| r == sat_sub64(now, self.boot()) / 1_000_000,
    {
        self.uptime_ns() / 1_000_000
    }

    /// Whole seconds since creation.
    pub fn uptime_secs(&self) -> (r: u64)
        ensures
            exists|now: u64| r == sat_sub64(now, self.boot()) / 1_000_000_000,
    {
        self.uptime_ns() / 1_000_000_000
    }

    /// The source's current time.
    pub fn now_ns(&self) -> (r: u64) {
        self.source.now_ns()
    }

    /// The uptime as text, such as `12.345s`, from one reading of the source.
    pub fn uptime_string(&self) -> (s: String)
        ensures
            exists|now: u64| s@ == uptime_spec(sat_sub64(now, self.boot())),
    {
        uptime_text(self.uptime_ns())
    }
}

/// What happens when a timer fires.
#[derive(Clone, Copy, Debug, PartialEq, Eq, Structural)]
pub enum TimerCallback {
    /// Wakes a process (for `sleep`).
    Wakeup(u64),
    /// Fires again after the interval (in nanoseconds).
    Periodic(u64),
    /// Fires once.
    Alarm,
}

/// A registered timer and its deadline.
#[derive(Clone, Copy, Debug)]
pub struct TimerEvent {
    pub id: u64,
    pub deadline_ns: u64,
    pub pid: u64,
    pub callback_type: TimerCallback,
}

/// Deadlines strictly increasing.
pub open spec fn deadlines_sorted(s: Seq<TimerEvent>) -> bool {
    forall|a: int, b: int| 0 <= a < b < s.len() ==> s[a].deadline_ns < s[b].deadline_ns
}

/// A periodic timer has a positive interval.
pub open spec fn period_ok(e: TimerEvent) -> bool {
    match e.callback_type {
        TimerCallback::Periodic(iv) => iv > 0,
        _ => true,
    }
}

/// Periodic timers have a positive interval.
pub open spec fn periods_positive(s: Seq<TimerEvent>) -> bool {
    forall|i: int| 0 <= i < s.len() ==> period_ok(#[trigger] s[i])
}

/// Position of the first timer whose deadline is at least `d` (the length when none is).
pub open spec fn insert_pos(s: Seq<TimerEvent>, d: u64) -> int
    decreases s.len(),
{
    if s.len() == 0 || s[0].deadline_ns >= d {
        0
    } else {
        1 + insert_pos(s.drop_first(), d)
    }
}

/// The timers after `e` is registered: it takes the place of a timer with the same
/// deadline, or goes in deadline order.
pub open spec fn ev_insert(s: Seq<TimerEvent>, e: TimerEvent) -> Seq<TimerEvent> {
    let i = insert_pos(s, e.deadline_ns);
    if i < s.len() && s[i].deadline_ns == e.deadline_ns {
        s.update(i, e)
    } else {
        s.insert(i, e)
    }
}

/// The timers left after firing `e` from the front of `rest`'s list: a periodic
/// timer comes back one interval later, unless that would pass `u64::MAX`.
pub open spec fn after_firing(rest: Seq<TimerEvent>, e: TimerEvent) -> Seq<TimerEvent> {
    match e.callback_type {
        TimerCallback::Periodic(iv) => if iv > 0 && e.deadline_ns + iv <= u64::MAX {
            ev_insert(rest, TimerEvent { deadline_ns: (e.deadline_ns + iv) as u64, ..e })
        } else {
            rest
        },
        _ => rest,
    }
}

/// How many more times `e` fires by time `now`.
pub open spec fn firings(e: TimerEvent, now: u64) -> nat {
    if e.deadline_ns > now {
        0
    } else {
        match e.callback_type {
            TimerCallback::Periodic(iv) => if iv > 0 {
                ((now - e.deadline_ns) / (iv as int) + 1) as nat
            } else {
                1
            },
            _ => 1,
        }
    }
}

/// Firings left in `s` by time `now`.
pub open spec fn potential(s: Seq<TimerEvent>, now: u64) -> nat
    decreases s.len(),
{
    if s.len() == 0 {
        0
    } else {
        firings(s[0], now) + potential(s.drop_first(), now)
    }
}

pub proof fn lemma_potential_concat(a: Seq<TimerEvent>, b: Seq<TimerEvent>, now: u64)
    ensures
        potential(a + b, now) == potential(a, now) + potential(b, now),
    decreases a.len(),
{
    if a.len() > 0 {
        lemma_potential_concat(a.drop_first(), b, now);
        assert((a + b).drop_first() =~= a.drop_first() + b);
    } else {
        assert(a + b =~= b);
    }
}

pub proof fn lemma_insert_pos_range(s: Seq<TimerEvent>, d: u64)
    ensures
        0 <= insert_pos(s, d) <= s.len(),
    decreases s.len(),
{
    if s.len() > 0 && s[0].deadline_ns < d {
        lemma_insert_pos_range(s.drop_first(), d);
    }
}

/// Registering a timer adds at most its own firings.
pub proof fn lemma_potential_insert(s: Seq<TimerEvent>, e: TimerEvent, now: u64)
    ensures
        potential(ev_insert(s, e), now) <= potential(s, now) + firings(e, now),
{
    let i = insert_pos(s, e.deadline_ns);
    lemma_insert_pos_range(s, e.deadline_ns);
    let pre = s.take(i);
    let single = seq![e];
    if i < s.len() && s[i].deadline_ns == e.deadline_ns {
        let post = s.skip(i + 1);
        assert(s.update(i, e) =~= pre + single + post);
        assert(s =~= pre + seq![s[i]] + post);
        lemma_potential_concat(pre + single, post, now);
        lemma_potential_concat(pre, single, now);
        lemma_potential_concat(pre + seq![s[i]], post, now);
        lemma_potential_concat(pre, seq![s[i]], now);
        assert(potential(single, now) == firings(e, now)) by {
            assert(single.drop_first() =~= Seq::<TimerEvent>::empty());
            assert(potential(single.drop_first(), now) == 0);
            assert(single[0] == e);
        }
    } else {
        let post = s.skip(i);
        assert(s.insert(i, e) =~= pre + single + post);
        assert(s =~= pre + post);
        lemma_potential_concat(pre + single, post, now);
        lemma_potential_concat(pre, single, now);
        lemma_potential_concat(pre, post, now);
        assert(potential(single, now) == firings(e, now)) by {
            assert(single.drop_first() =~= Seq::<TimerEvent>::empty());
            assert(potential(single.drop_first(), now) == 0);
            assert(single[0] == e);
        }
    }
}

/// Firing the first due timer lowers the firings left.
pub proof fn lemma_potential_fire(s: Seq<TimerEvent>, now: u64)
    requires
        s.len() > 0,
        s[0].deadline_ns <= now,
    ensures
        potential(after_firing(s.drop_first(), s[0]), now) < potential(s, now),
{
    let e = s[0];
    let rest = s.drop_first();
    match e.callback_type {
        TimerCallback::Periodic(iv) => {
            if iv > 0 && e.deadline_ns + iv <= u64::MAX {
                let e2 = TimerEvent { deadline_ns: (e.deadline_ns + iv) as u64, ..e };
                lemma_potential_insert(rest, e2, now);
                if e2.deadline_ns <= now {
                    let x = now - e.deadline_ns;
                    vstd::arithmetic::div_mod::lemma_div_minus_one(x as int, iv as int);
                    assert(-1 + (x as int) / (iv as int) == (-(iv as int) + x) / (iv as int));
                }
            }
        },
        _ => {},
    }
}

/// Firing the timers due by `now` from the front, one at a time: the timers left and
/// those fired, in the order they fired.
pub open spec fn fire(s: Seq<TimerEvent>, now: u64) -> (Seq<TimerEvent>, Seq<TimerEvent>)
    decreases potential(s, now),
{
    if s.len() == 0 || s[0].deadline_ns > now {
        (s, Seq::empty())
    } else {
        let e = s[0];
        let s2 = after_firing(s.drop_first(), e);
        proof {
            lemma_potential_fire(s, now);
        }
        let (left, fired) = fire(s2, now);
        (left, seq![e] + fired)
    }
}

/// What `insert_pos` finds: earlier deadlines before it, and at it (if anything) a
/// deadline at least `d`.
pub proof fn lemma_insert_pos_props(s: Seq<TimerEvent>, d: u64)
    ensures
        0 <= insert_pos(s, d) <= s.len(),
        forall|k: int| 0 <= k < insert_pos(s, d) ==> s[k].deadline_ns < d,
        insert_pos(s, d) < s.len() ==> s[insert_pos(s, d)].deadline_ns >= d,
    decreases s.len(),
{
    if s.len() > 0 && s[0].deadline_ns < d {
        let t = s.drop_first();
        lemma_insert_pos_props(t, d);
        assert forall|k: int| 0 <= k < insert_pos(s, d) implies s[k].deadline_ns < d by {
            if k > 0 {
                assert(s[k] == t[k - 1]);
            }
        }
    }
}

/// Registering a timer keeps the deadlines sorted and the periods positive.
pub proof fn lemma_ev_insert_wf(s: Seq<TimerEvent>, e: TimerEvent)
    requires
        deadlines_sorted(s),
        periods_positive(s),
        period_ok(e),
    ensures
        deadlines_sorted(ev_insert(s, e)),
        periods_positive(ev_insert(s, e)),
{
    let d = e.deadline_ns;
    let i = insert_pos(s, d);
    lemma_insert_pos_props(s, d);
    let u = ev_insert(s, e);
    if i < s.len() && s[i].deadline_ns == d {
        assert forall|a: int, b: int| 0 <= a < b < u.len() implies u[a].deadline_ns < u[b].deadline_ns by {
            assert(u[a].deadline_ns == s[a].deadline_ns && u[b].deadline_ns == s[b].deadline_ns);
        }
        assert forall|k: int| 0 <= k < u.len() implies period_ok(#[trigger] u[k]) by {
            if k != i {
                assert(u[k] == s[k]);
            }
        }
    } else {
        assert forall|a: int, b: int| 0 <= a < b < u.len() implies u[a].deadline_ns < u[b].deadline_ns by {
            if b < i {
                assert(u[a] == s[a] && u[b] == s[b]);
            } else if b == i {
                assert(u[a] == s[a]);
            } else if a < i {
                assert(u[a] == s[a] && u[b] == s[b - 1]);
                assert(s[i].deadline_ns <= s[b - 1].deadline_ns);
            } else if a == i {
                assert(u[b] == s[b - 1]);
                if b - 1 > i {
                    assert(s[i].deadline_ns < s[b - 1].deadline_ns);
                }
            } else {
                assert(u[a] == s[a - 1] && u[b] == s[b - 1]);
            }
        }
        assert forall|k: int| 0 <= k < u.len() implies period_ok(#[trigger] u[k]) by {
            if k < i {
                assert(u[k] == s[k]);
            } else if k > i {
                assert(u[k] == s[k - 1]);
            }
        }
    }
}

/// `a + b`, or `u64::MAX` when that does not fit.
pub open spec fn sat_add64(a: u64, b: u64) -> u64 {
    if a + b > u64::MAX {
        u64::MAX
    } else {
        (a + b) as u64
    }
}

/// The timer at position `i` is the first with id `id`.
pub open spec fn id_first_at(s: Seq<TimerEvent>, id: u64, i: int) -> bool {
    &&& 0 <= i < s.len()
    &&& s[i].id == id
    &&& forall|j: int| 0 <= j < i ==> s[j].id != id
}

/// All timers, ordered by deadline; at most one per deadline (a timer registered
/// for a deadline already taken replaces the one there).
pub struct TimerManager<S: TimerSource + 'static> {
    events: Vec<TimerEvent>,
    next_id: u64,
    source: &'static S,
}

impl<S: TimerSource + 'static> TimerManager<S> {
    /// The registered timers in deadline order.
    pub closed spec fn timers(&self) -> Seq<TimerEvent> {
        self.events@
    }

    /// The id the next timer gets.
    pub closed spec fn next_timer_id(&self) -> u64 {
        self.next_id
    }

    pub closed spec fn wf(&self) -> bool {
        &&& deadlines_sorted(self.events@)
        &&& periods_positive(self.events@)
    }

    pub fn new(source: &'static S) -> (m: Self)
        ensures
            m.wf(),
            m.timers() == Seq::<TimerEvent>::empty(),
            m.next_timer_id() == 1,
    {
        TimerManager { events: Vec::new(), next_id: 1, source }
    }

    fn insert_event(&mut self, e: TimerEvent)
        requires
            old(self).wf(),
            period_ok(e),
        ensures
            final(self).wf(),
            final(self).events@ == ev_insert(old(self).events@, e),
            final(self).next_id == old(self).next_id,
            final(self).source == old(self).source,
    {
        let ghost s = self.events@;
        proof {
            lemma_insert_pos_props(s, e.deadline_ns);
            lemma_ev_insert_wf(s, e);
        }
        let mut i: usize = 0;
        assert(s.skip(0) =~= s);
        while i < self.events.len() && self.events[i].deadline_ns < e.deadline_ns
            invariant
                self.events@ == s,
                i <= s.len(),
                insert_pos(s, e.deadline_ns) == i + insert_pos(s.skip(i as int), e.deadline_ns),
            decreases s.len() - i,
        {
            proof {
                assert(s.skip(i as int).drop_first() =~= s.skip(i + 1));
            }
            i = i + 1;
        }
        proof {
            if i < s.len() {
                assert(s.skip(i as int)[0] == s[i as int]);
            }
        }
        if i < self.events.len() && self.events[i].deadline_ns == e.deadline_ns {
            self.events.set(i, e);
        } else {
            self.events.insert(i, e);
        }
    }

    fn schedule_at(&mut self, now: u64, pid: u64, delay_ns: u64, cb: TimerCallback) -> (id: u64)
        requires
            old(self).wf(),
            old(self).next_id < u64::MAX,
            cb matches TimerCallback::Periodic(iv) ==> iv > 0,
        ensures
            final(self).wf(),
            id == old(self).next_id,
            final(self).next_id == old(self).next_id + 1,
            final(self).events@ == ev_insert(
                old(self).events@,
                TimerEvent { id: id, deadline_ns: sat_add64(now, delay_ns), pid: pid, callback_type: cb },
            ),
            final(self).source == old(self).source,
    {
        let deadline = now.saturating_add(delay_ns);
        let id = self.next_id;
        self.next_id = self.next_id + 1;
        self.insert_event(TimerEvent { id, deadline_ns: deadline, pid, callback_type: cb });
        id
    }

    /// Registers a wake-up of process `pid` after `duration_ns` (the deadline
    /// saturates at `u64::MAX`); returns the timer's id.
    pub fn sleep(&mut self, pid: u64, duration_ns: u64) -> (id: u64)
        requires
            old(self).wf(),
            old(self).next_timer_id() < u64::MAX,
        ensures
            final(self).wf(),
            id == old(self).next_timer_id(),
            final(self).next_timer_id() == old(self).next_timer_id() + 1,
            exists|now: u64|
                final(self).timers() == ev_insert(
                    old(self).timers(),
                    TimerEvent {
                        id: id,
                        deadline_ns: sat_add64(now, duration_ns),
                        pid: pid,
                        callback_type: TimerCallback::Wakeup(pid),
                    },
                ),
    {
        let now = self.source.now_ns();
        self.schedule_at(now, pid, duration_ns, TimerCallback::Wakeup(pid))
    }

    /// Registers a timer for process `pid` that fires every `interval_ns`; returns
    /// its id.
    pub fn schedule_periodic(&mut self, pid: u64, interval_ns: u64) -> (id: u64)
        requires
            old(self).wf(),
            old(self).next_timer_id() < u64::MAX,
            interval_ns > 0,
        ensures
            final(self).wf(),
            id == old(self).next_timer_id(),
            final(self).next_timer_id() == old(self).next_timer_id() + 1,
            exists|now: u64|
                final(self).timers() == ev_insert(
                    old(self).timers(),
                    TimerEvent {
                        id: id,
                        deadline_ns: sat_add64(now, interval_ns),
                        pid: pid,
                        callback_type: TimerCallback::Periodic(interval_ns),
                    },
                ),
    {
        let now = self.source.now_ns();
        self.schedule_at(now, pid, interval_ns, TimerCallback::Periodic(interval_ns))
    }

    /// Registers a one-shot alarm for process `pid` after `delay_ns`; returns its id.
    pub fn schedule_alarm(&mut self, pid: u64, delay_ns: u64) -> (id: u64)
        requires
            old(self).wf(),
            old(self).next_timer_id() < u64::MAX,
        ensures
            final(self).wf(),
            id == old(self).next_timer_id(),
            final(self).next_timer_id() == old(self).next_timer_id() + 1,
            exists|now: u64|
                final(self).timers() == ev_insert(
                    old(self).timers(),
                    TimerEvent {
                        id: id,
                        deadline_ns: sat_add64(now, delay_ns),
                        pid: pid,
                        callback_type: TimerCallback::Alarm,
                    },
                ),
    {
        let now = self.source.now_ns();
        self.schedule_at(now, pid, delay_ns, TimerCallback::Alarm)
    }

    /// Removes the timer with id `event_id` (the first in deadline order, should
    /// there be several); false if there is none.
    pub fn cancel(&mut self, event_id: u64) -> (r: bool)
        requires
            old(self).wf(),
        ensures
            final(self).wf(),
            final(self).next_timer_id() == old(self).next_timer_id(),
            r == exists|i: int| id_first_at(old(self).timers(), event_id, i),
            r ==> final(self).timers() == old(self).timers().remove(
                choose|i: int| id_first_at(old(self).timers(), event_id, i),
            ),
            !r ==> final(self).timers() == old(self).timers(),
    {
        let mut i: usize = 0;
        while i < self.events.len()
            invariant
                self.events@ == old(self).events@,
                self.next_id == old(self).next_id,
                deadlines_sorted(old(self).events@),
                periods_positive(old(self).events@),
                i <= self.events@.len(),
                forall|j: int| 0 <= j < i ==> self.events@[j].id != event_id,
            decreases self.events@.len() - i,
        {
            if self.events[i].id == event_id {
                proof {
                    let s = old(self).events@;
                    assert(id_first_at(s, event_id, i as int));
                    assert(id_first_at(old(self).timers(), event_id, i as int));
                    let k = choose|k: int| id_first_at(s, event_id, k);
                    if k < i {
                        assert(s[k].id != event_id);
                    } else if k > i {
                        assert(s[i as int].id != event_id);
                    }
                }
                let _ = self.events.remove(i);
                proof {
                    let s = old(self).events@;
                    let u = self.events@;
                    assert forall|a: int, b: int| 0 <= a < b < u.len() implies u[a].deadline_ns < u[b].deadline_ns by {
                        let a0 = if a < i { a } else { a + 1 };
                        let b0 = if b < i { b } else { b + 1 };
                        assert(u[a] == s[a0] && u[b] == s[b0]);
                    }
                    assert forall|k: int| 0 <= k < u.len() implies period_ok(#[trigger] u[k]) by {
                        let k0 = if k < i { k } else { k + 1 };
                        assert(u[k] == s[k0]);
                    }
                }
                return true;
            }
            i = i + 1;
        }
        false
    }

    /// Fires every timer due at time `now`, earliest deadline first: each fired
    /// timer is returned as it fired, and a periodic timer comes back one interval
    /// later (and may fire again). Returns the fired timers in firing order, which
    /// is by deadline.
    pub fn tick_at(&mut self, now: u64) -> (fired: Vec<TimerEvent>)
        requires
            old(self).wf(),
        ensures
            final(self).wf(),
            final(self).next_timer_id() == old(self).next_timer_id(),
            (final(self).timers(), fired@) == fire(old(self).timers(), now),
            forall|k: int| 0 <= k < fired@.len() ==> (#[trigger] fired@[k]).deadline_ns <= now,
            final(self).timers().len() == 0 || final(self).timers()[0].deadline_ns > now,
    {
        let ghost orig = self.events@;
        let mut fired: Vec<TimerEvent> = Vec::new();
        while self.events.len() > 0 && self.events[0].deadline_ns <= now
            invariant
                deadlines_sorted(self.events@),
                periods_positive(self.events@),
                self.next_id == old(self).next_id,
                fire(orig, now) == (fire(self.events@, now).0, fired@ + fire(self.events@, now).1),
                forall|k: int| 0 <= k < fired@.len() ==> (#[trigger] fired@[k]).deadline_ns <= now,
            decreases potential(self.events@, now),
        {
            let ghost cur = self.events@;
            let e = self.events.remove(0);
            proof {
                lemma_potential_fire(cur, now);
                assert(self.events@ == cur.drop_first());
                assert(deadlines_sorted(self.events@)) by {
                    assert forall|a: int, b: int| 0 <= a < b < self.events@.len() implies self.events@[a].deadline_ns
                        < self.events@[b].deadline_ns by {
                        assert(self.events@[a] == cur[a + 1] && self.events@[b] == cur[b + 1]);
                    }
                }
                assert(periods_positive(self.events@)) by {
                    assert forall|k: int| 0 <= k < self.events@.len() implies period_ok(#[trigger] self.events@[k]) by {
                        assert(self.events@[k] == cur[k + 1]);
                    }
                }
                assert(period_ok(cur[0]));
            }
            match e.callback_type {
                TimerCallback::Periodic(iv) => {
                    if iv > 0 && e.deadline_ns <= u64::MAX - iv {
                        self.insert_event(TimerEvent { deadline_ns: e.deadline_ns + iv, ..e });
                    }
                },
                _ => {},
            }
            let ghost before = fired@;
            fired.push(e);
            proof {
                assert(self.events@ == after_firing(cur.drop_first(), cur[0]));
                let (l2, f2) = fire(self.events@, now);
                assert(fire(cur, now) == (l2, seq![e] + f2));
                assert(fired@ + f2 =~= before + (seq![e] + f2));
            }
        }
        proof {
            assert(fire(self.events@, now) == (self.events@, Seq::<TimerEvent>::empty()));
            assert(fired@ + Seq::<TimerEvent>::empty() =~= fired@);
        }
        fired
    }

    /// Fires every timer due now (see `tick_at`).
    pub fn tick(&mut self) -> (fired: Vec<TimerEvent>)
        requires
            old(self).wf(),
        ensures
            final(self).wf(),
            final(self).next_timer_id() == old(self).next_timer_id(),
            exists|now: u64| (final(self).timers(), fired@) == fire(old(self).timers(), now),
    {
        let now = self.source.now_ns();
        self.tick_at(now)
    }

    /// Number of registered timers.
    pub fn active_count(&self) -> (r: usize)
        ensures
            r == self.timers().len(),
    {
        self.events.len()
    }

    /// The earliest deadline, if any timer is registered.
    pub fn next_deadline(&self) -> (r: Option<u64>)
        requires
            self.wf(),
        ensures
            r == if self.timers().len() == 0 {
                None
            } else {
                Some(self.timers()[0].deadline_ns)
            },
            r matches Some(d) ==> forall|k: int| 0 <= k < self.timers().len() ==> d <= #[trigger] self.timers()[k].deadline_ns,
    {
        if self.events.len() == 0 {
            None
        } else {
            proof {
                assert forall|k: int| 0 <= k < self.events@.len() implies self.events@[0].deadline_ns
                    <= #[trigger] self.events@[k].deadline_ns by {
                    if k > 0 {
                        assert(self.events@[0].deadline_ns < self.events@[k].deadline_ns);
                    }
                }
            }
            Some(self.events[0].deadline_ns)
        }
    }

    /// Time left until the earliest deadline (0 once it has passed).
    pub fn time_to_next_deadline(&self) -> (r: Option<u64>)
        requires
            self.wf(),
        ensures
            self.timers().len() == 0 ==> r is None,
            self.timers().len() > 0 ==> exists|now: u64| r == Some(sat_sub64(self.timers()[0].deadline_ns, now)),
    {
        match self.next_deadline() {
            Some(d) => {
                let now = self.source.now_ns();
                let left = if d >= now { d - now } else { 0 };
                assert(left == sat_sub64(d, now));
                Some(left)
            },
            None => None,
        }
    }
}

} // verus!
