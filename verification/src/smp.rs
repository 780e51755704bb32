//! Symmetric multi-processing: per-CPU data and run queues, CPU affinity
//! masks, topology, IPIs, barriers, scheduling domains, hotplug, migration
//! and load balancing.

use vstd::prelude::*;
use crate::idmap::IdMap;
use crate::seqs::{lemma_take_succ, lemma_filter_take_succ, lemma_take_full};

verus! {

// ════════════════════════════════════════════════════════════════
//  CONSTANTS
// ════════════════════════════════════════════════════════════════

pub const MAX_CPUS: usize = 256;
pub const MAX_NUMA_NODES: usize = 16;
pub const MAX_CACHE_LEVELS: usize = 4;
pub const MAX_IPI_TYPES: usize = 16;
pub const DEFAULT_LOAD_BALANCE_INTERVAL_MS: u64 = 100;
/// The busiest CPU is balanced against the idlest while their load ratio is at
/// least 5/4 (1.25).
pub const LOAD_BALANCE_THRESHOLD_NUM: u64 = 5;
pub const LOAD_BALANCE_THRESHOLD_DEN: u64 = 4;
pub const MAX_MIGRATIONS_PER_BALANCE: usize = 4;
pub const DEFAULT_QUANTUM_TICKS: u32 = 10;
/// Largest number of 64-bit words in an affinity mask: one bit per `u32` CPU id.
pub const MAX_MASK_WORDS: usize = 0x400_0000;

// ════════════════════════════════════════════════════════════════
//  CPU STATE
// ════════════════════════════════════════════════════════════════

#[derive(Clone, Copy, Debug, PartialEq, Eq, Structural)]
pub enum CpuState {
    /// Not available.
    Offline,
    /// Coming online.
    Booting,
    /// Active and running.
    Online,
    /// Temporarily paused (hotplug).
    Paused,
    /// Going offline.
    Stopping,
}

impl CpuState {
    pub fn name(&self) -> (r: &'static str)
        ensures
            r@ == (match *self {
                CpuState::Offline => "offline"@,
                CpuState::Booting => "booting"@,
                CpuState::Online => "online"@,
                CpuState::Paused => "paused"@,
                CpuState::Stopping => "stopping"@,
            }),
    {
        match self {
            CpuState::Offline => "offline",
            CpuState::Booting => "booting",
            CpuState::Online => "online",
            CpuState::Paused => "paused",
            CpuState::Stopping => "stopping",
        }
    }

    pub fn is_active(&self) -> (r: bool)
        ensures
            r == (*self == CpuState::Online),
    {
        match self {
            CpuState::Online => true,
            _ => false,
        }
    }

    pub fn is_available(&self) -> (r: bool)
        ensures
            r == (*self == CpuState::Online || *self == CpuState::Paused),
    {
        match self {
            CpuState::Online | CpuState::Paused => true,
            _ => false,
        }
    }
}

// ════════════════════════════════════════════════════════════════
//  CPU ID
// ════════════════════════════════════════════════════════════════

#[derive(Clone, Copy, Debug, PartialEq, Eq, Structural, Hash, PartialOrd, Ord)]
pub struct CpuId(pub u32);

impl CpuId {
    pub fn new(id: u32) -> (c: Self)
        ensures
            c == CpuId(id),
    {
        CpuId(id)
    }

    pub fn raw(&self) -> (r: u32)
        ensures
            r == self.0,
    {
        self.0
    }

    /// The bootstrap processor.
    pub fn is_bsp(&self) -> (r: bool)
        ensures
            r == (self.0 == 0),
    {
        self.0 == 0
    }

    /// An application processor.
    pub fn is_ap(&self) -> (r: bool)
        ensures
            r == (self.0 != 0),
    {
        self.0 != 0
    }
}

impl Default for CpuId {
    fn default() -> (c: Self)
        ensures
            c == CpuId(0),
    {
        CpuId(0)
    }
}

// ════════════════════════════════════════════════════════════════
//  BITS OF A MASK
// ════════════════════════════════════════════════════════════════

/// Bit `b` of `w` is set.
pub open spec fn bit_set(w: u64, b: nat) -> bool {
    w & (1u64 << (b as u64)) != 0
}

/// The mask of 64-bit words holds CPU `c` (bit `c % 64` of word `c / 64`).
pub open spec fn has_cpu(words: Seq<u64>, c: u32) -> bool {
    (c / 64) < words.len() && bit_set(words[(c / 64) as int], (c % 64) as nat)
}

/// The word at `i`, zero past the end.
pub open spec fn word_or_zero(words: Seq<u64>, i: int) -> u64 {
    if 0 <= i < words.len() {
        words[i]
    } else {
        0
    }
}

pub proof fn lemma_bit_or_one(w: u64, b: u64, c: u64)
    by (bit_vector)
    requires
        b < 64,
        c < 64,
    ensures
        ((w | (1u64 << b)) & (1u64 << c) != 0) == ((w & (1u64 << c) != 0) || b == c),
{
}

pub proof fn lemma_bit_clear_one(w: u64, b: u64, c: u64)
    by (bit_vector)
    requires
        b < 64,
        c < 64,
    ensures
        ((w & !(1u64 << b)) & (1u64 << c) != 0) == ((w & (1u64 << c) != 0) && b != c),
{
}

pub proof fn lemma_bit_const(c: u64)
    by (bit_vector)
    requires
        c < 64,
    ensures
        (0u64 & (1u64 << c)) == 0,
        (0xFFFF_FFFF_FFFF_FFFFu64 & (1u64 << c)) != 0,
        ((1u64 << c) & (1u64 << c)) != 0,
{
}

/// A bit of `x & y` is set exactly when it is set in both, and a bit of
/// `x | y` exactly when it is set in either.
pub proof fn lemma_word_bits(x: u64, y: u64, b: u64)
    by (bit_vector)
    requires
        b < 64,
    ensures
        ((x & y) & (1u64 << b) != 0) == ((x & (1u64 << b) != 0) && (y & (1u64 << b) != 0)),
        ((x | y) & (1u64 << b) != 0) == ((x & (1u64 << b) != 0) || (y & (1u64 << b) != 0)),
{
}

pub proof fn lemma_bit_single(b: u64, c: u64)
    by (bit_vector)
    requires
        b < 64,
        c < 64,
    ensures
        ((1u64 << b) & (1u64 << c) != 0) == (b == c),
{
}

pub proof fn lemma_bit_shift_form(w: u64, b: u64)
    by (bit_vector)
    requires
        b < 64,
    ensures
        ((w >> b) & 1u64 == 1u64) == (w & (1u64 << b) != 0),
{
}

/// The lowest set bit of a nonzero word is at `trailing_zeros`.
pub proof fn lemma_lowest_bit(w: u64)
    requires
        w != 0,
    ensures
        (w.trailing_zeros() as nat) < 64,
        bit_set(w, w.trailing_zeros() as nat),
        forall|k: nat| k < w.trailing_zeros() ==> !#[trigger] bit_set(w, k),
{
    broadcast use vstd::std_specs::bits::axiom_u64_trailing_zeros;
    let t = w.trailing_zeros() as u64;
    lemma_bit_shift_form(w, t);
    assert forall|k: nat| k < w.trailing_zeros() implies !#[trigger] bit_set(w, k) by {
        lemma_bit_shift_form(w, k as u64);
        assert((w >> (k as u64)) & 1u64 == 0u64);
    }
}

// ════════════════════════════════════════════════════════════════
//  CPU AFFINITY (task → core pinning)
// ════════════════════════════════════════════════════════════════

#[derive(Clone, Debug, PartialEq, Eq)]
pub struct CpuAffinity {
    /// Bitmask of allowed CPUs (bit N = CPU N).
    mask: Vec<u64>,
    /// Hard affinity: the task must run on one of the allowed CPUs; soft
    /// affinity only prefers them.
    pub hard: bool,
}

/// The number of CPUs allowed by a word sequence.
pub open spec fn mask_popcount(words: Seq<u64>) -> nat
    decreases words.len(),
{
    if words.len() == 0 {
        0
    } else {
        mask_popcount(words.drop_last()) + crate::signals::popcount(words.last())
    }
}

impl CpuAffinity {
    /// The words of the bitmask.
    pub closed spec fn words(&self) -> Seq<u64> {
        self.mask@
    }

    /// Hard affinity.
    pub closed spec fn is_hard(&self) -> bool {
        self.hard
    }

    /// The affinity allows CPU `c`.
    pub open spec fn allows(&self, c: CpuId) -> bool {
        has_cpu(self.words(), c.0)
    }

    pub open spec fn wf(&self) -> bool {
        self.words().len() <= MAX_MASK_WORDS
    }

    pub fn all_cpus(max_cpus: usize) -> (a: Self)
        requires
            max_cpus <= 0x1_0000_0000,
            max_cpus + 63 <= usize::MAX,
        ensures
            a.wf(),
            a.words().len() == (max_cpus + 63) / 64,
            forall|i: int| 0 <= i < a.words().len() ==> a.words()[i] == u64::MAX,
            forall|c: u32| (c as nat) < a.words().len() * 64 ==> #[trigger] a.allows(CpuId(c)),
            !a.is_hard(),
    {
        let words = (max_cpus + 63) / 64;
        let mask = vec![0xFFFF_FFFF_FFFF_FFFFu64; words];
        let a = CpuAffinity { mask, hard: false };
        assert forall|c: u32| (c as nat) < a.words().len() * 64 implies #[trigger] a.allows(CpuId(c)) by {
            lemma_bit_const((c % 64) as u64);
        }
        a
    }

    pub fn single(cpu: CpuId) -> (a: Self)
        ensures
            a.wf(),
            a.words().len() == cpu.0 / 64 + 1,
            forall|c: u32| #[trigger] a.allows(CpuId(c)) == (c == cpu.0),
            a.is_hard(),
    {
        let word_idx = (cpu.raw() / 64) as usize;
        let bit = cpu.raw() % 64;
        let words = word_idx + 1;
        let mut mask = vec![0u64; words];
        mask.set(word_idx, 1u64 << (bit as u64));
        let a = CpuAffinity { mask, hard: true };
        assert forall|c: u32| #[trigger] a.allows(CpuId(c)) == (c == cpu.0) by {
            lemma_bit_const((c % 64) as u64);
            lemma_bit_single(bit as u64, (c % 64) as u64);
        }
        a
    }

    pub fn range(start: u32, end: u32) -> (a: Self)
        ensures
            a.wf(),
            a.words().len() == end / 64 + 1,
            forall|c: u32| #[trigger] a.allows(CpuId(c)) == (start <= c <= end),
            !a.is_hard(),
    {
        let max_word = ((end / 64) + 1) as usize;
        let mut mask = vec![0u64; max_word];
        assert forall|c: u32| !#[trigger] has_cpu(mask@, c) by {
            lemma_bit_const((c % 64) as u64);
        }
        if start <= end {
            let mut cpu: u64 = start as u64;
            while cpu <= end as u64
                invariant
                    start <= cpu <= end as u64 + 1,
                    mask@.len() == max_word,
                    max_word == end / 64 + 1,
                    forall|c: u32| #[trigger] has_cpu(mask@, c) == (start <= c < cpu),
                decreases end as u64 + 1 - cpu,
            {
                let word = (cpu / 64) as usize;
                let bit = cpu % 64;
                let ghost before = mask@;
                let w = mask[word];
                mask.set(word, w | (1u64 << bit));
                assert forall|c: u32| #[trigger] has_cpu(mask@, c) == (start <= c < cpu + 1) by {
                    lemma_bit_or_one(w, bit, (c % 64) as u64);
                    assert(has_cpu(before, c) == (start <= c < cpu));
                }
                cpu = cpu + 1;
            }
        }
        CpuAffinity { mask, hard: false }
    }

    pub fn none() -> (a: Self)
        ensures
            a.wf(),
            a.words() == seq![0u64],
            forall|c: u32| !#[trigger] a.allows(CpuId(c)),
            !a.is_hard(),
    {
        let a = CpuAffinity { mask: vec![0u64], hard: false };
        assert forall|c: u32| !#[trigger] a.allows(CpuId(c)) by {
            lemma_bit_const((c % 64) as u64);
        }
        assert(a.words() =~= seq![0u64]);
        a
    }

    pub fn add(&mut self, cpu: CpuId)
        requires
            old(self).wf(),
        ensures
            final(self).wf(),
            final(self).is_hard() == old(self).is_hard(),
            final(self).words().len() == if old(self).words().len() > cpu.0 / 64 {
                old(self).words().len()
            } else {
                (cpu.0 / 64 + 1) as nat
            },
            forall|c: u32| #[trigger] final(self).allows(CpuId(c)) == (old(self).allows(CpuId(c)) || c
                == cpu.0),
    {
        let word = (cpu.raw() / 64) as usize;
        let bit = cpu.raw() % 64;
        while self.mask.len() <= word
            invariant
                self.mask@.len() >= old(self).mask@.len(),
                self.mask@.len() <= if old(self).mask@.len() > word + 1 {
                    old(self).mask@.len()
                } else {
                    (word + 1) as nat
                },
                self.hard == old(self).hard,
                word == cpu.0 / 64,
                forall|i: int| 0 <= i < self.mask@.len() ==> #[trigger] self.mask@[i] == word_or_zero(
                    old(self).mask@,
                    i,
                ),
            decreases word + 1 - self.mask@.len(),
        {
            self.mask.push(0);
        }
        let ghost before = self.mask@;
        let w = self.mask[word];
        self.mask.set(word, w | (1u64 << (bit as u64)));
        assert forall|c: u32| #[trigger] self.allows(CpuId(c)) == (old(self).allows(CpuId(c)) || c
            == cpu.0) by {
            lemma_bit_or_one(w, bit as u64, (c % 64) as u64);
            lemma_bit_const((c % 64) as u64);
        }
    }

    pub fn remove(&mut self, cpu: CpuId)
        requires
            old(self).wf(),
        ensures
            final(self).wf(),
            final(self).is_hard() == old(self).is_hard(),
            final(self).words().len() == old(self).words().len(),
            forall|c: u32| #[trigger] final(self).allows(CpuId(c)) == (old(self).allows(CpuId(c)) && c
                != cpu.0),
    {
        let word = (cpu.raw() / 64) as usize;
        let bit = cpu.raw() % 64;
        if word < self.mask.len() {
            let w = self.mask[word];
            self.mask.set(word, w & !(1u64 << (bit as u64)));
            assert forall|c: u32| #[trigger] self.allows(CpuId(c)) == (old(self).allows(CpuId(c)) && c
                != cpu.0) by {
                lemma_bit_clear_one(w, bit as u64, (c % 64) as u64);
            }
        }
    }

    pub fn contains(&self, cpu: CpuId) -> (r: bool)
        ensures
            r == self.allows(cpu),
    {
        let word = (cpu.raw() / 64) as usize;
        let bit = cpu.raw() % 64;
        if word < self.mask.len() {
            (self.mask[word] & (1u64 << (bit as u64))) != 0
        } else {
            false
        }
    }

    /// Number of allowed CPUs.
    pub fn count(&self) -> (r: u32)
        requires
            mask_popcount(self.words()) <= u32::MAX,
        ensures
            r == mask_popcount(self.words()),
    {
        let mut total: u32 = 0;
        let mut i: usize = 0;
        while i < self.mask.len()
            invariant
                i <= self.mask@.len(),
                total == mask_popcount(self.mask@.take(i as int)),
                mask_popcount(self.mask@) <= u32::MAX,
            decreases self.mask@.len() - i,
        {
            proof {
                lemma_take_succ(self.mask@, i as int);
                assert(self.mask@.take(i + 1).drop_last() =~= self.mask@.take(i as int));
                lemma_mask_popcount_prefix(self.mask@, i as int + 1);
            }
            let c = crate::signals::count_bits(self.mask[i]);
            total = total + c;
            i = i + 1;
        }
        proof {
            lemma_take_full(self.mask@);
        }
        total
    }

    /// Whether no CPU is allowed.
    pub fn is_empty(&self) -> (r: bool)
        requires
            self.wf(),
        ensures
            r == (forall|i: int| 0 <= i < self.words().len() ==> self.words()[i] == 0),
            r == (forall|c: u32| !#[trigger] self.allows(CpuId(c))),
    {
        let mut i: usize = 0;
        while i < self.mask.len()
            invariant
                i <= self.mask@.len(),
                self.wf(),
                forall|j: int| 0 <= j < i ==> self.mask@[j] == 0,
            decreases self.mask@.len() - i,
        {
            if self.mask[i] != 0 {
                proof {
                    lemma_nonzero_word_has_cpu(self.mask@, i as int);
                    let c = choose|c: u32| #[trigger] has_cpu(self.mask@, c);
                    assert(self.allows(CpuId(c)));
                }
                return false;
            }
            i = i + 1;
        }
        assert forall|c: u32| !#[trigger] self.allows(CpuId(c)) by {
            lemma_bit_const((c % 64) as u64);
        }
        true
    }

    /// The allowed CPU with the lowest id.
    pub fn first_cpu(&self) -> (r: Option<CpuId>)
        requires
            self.wf(),
        ensures
            match r {
                Some(c) => self.allows(c) && forall|d: u32| d < c.0 ==> !#[trigger] self.allows(CpuId(d)),
                None => forall|d: u32| !#[trigger] self.allows(CpuId(d)),
            },
    {
        let mut i: usize = 0;
        while i < self.mask.len()
            invariant
                i <= self.mask@.len(),
                self.wf(),
                forall|j: int| 0 <= j < i ==> self.mask@[j] == 0,
            decreases self.mask@.len() - i,
        {
            let w = self.mask[i];
            if w != 0 {
                proof {
                    lemma_lowest_bit(w);
                }
                let b = w.trailing_zeros();
                let c = CpuId((i as u32) * 64 + (b as u32));
                assert forall|d: u32| d < c.0 implies !#[trigger] self.allows(CpuId(d)) by {
                    if d / 64 < i {
                        lemma_bit_const((d % 64) as u64);
                    } else {
                        assert(d % 64 < b);
                    }
                }
                return Some(c);
            }
            i = i + 1;
        }
        assert forall|d: u32| !#[trigger] self.allows(CpuId(d)) by {
            lemma_bit_const((d % 64) as u64);
        }
        None
    }

    /// The allowed CPUs in ascending order.
    pub fn cpus(&self) -> (r: Vec<CpuId>)
        requires
            self.wf(),
        ensures
            forall|i: int, j: int| 0 <= i < j < r@.len() ==> r@[i].0 < r@[j].0,
            forall|c: u32| r@.contains(CpuId(c)) == #[trigger] self.allows(CpuId(c)),
            r@.len() == mask_popcount(self.words()),
    {
        let mut result: Vec<CpuId> = Vec::new();
        let mut i: usize = 0;
        while i < self.mask.len()
            invariant
                i <= self.mask@.len(),
                self.wf(),
                forall|a: int, b: int| 0 <= a < b < result@.len() ==> result@[a].0 < result@[b].0,
                forall|a: int| 0 <= a < result@.len() ==> result@[a].0 < i * 64,
                forall|c: u32| (c / 64) < i ==> (result@.contains(CpuId(c)) == #[trigger] self.allows(
                    CpuId(c),
                )),
                forall|c: u32| (c / 64) >= i ==> !#[trigger] result@.contains(CpuId(c)),
                result@.len() == mask_popcount(self.mask@.take(i as int)),
            decreases self.mask@.len() - i,
        {
            let w = self.mask[i];
            let mut b: u64 = 0;
            while b < 64
                invariant
                    b <= 64,
                    i < self.mask@.len(),
                    w == self.mask@[i as int],
                    self.wf(),
                    forall|a: int, x: int| 0 <= a < x < result@.len() ==> result@[a].0 < result@[x].0,
                    forall|a: int| 0 <= a < result@.len() ==> result@[a].0 < i * 64 + b,
                    forall|c: u32| (c / 64) < i ==> (result@.contains(CpuId(c)) == #[trigger] self.allows(
                        CpuId(c),
                    )),
                    forall|c: u32|
                        (c / 64) == i && (c % 64) < b ==> (result@.contains(CpuId(c))
                            == #[trigger] self.allows(CpuId(c))),
                    forall|c: u32|
                        ((c / 64) > i || ((c / 64) == i && (c % 64) >= b)) ==> !#[trigger] result@.contains(
                            CpuId(c),
                        ),
                    result@.len() == mask_popcount(self.mask@.take(i as int)) + crate::signals::popcount_below(w, b as nat),
                decreases 64 - b,
            {
                proof {
                    lemma_bit_test(w, b);
                }
                if (w & (1u64 << b)) != 0 {
                    let c = CpuId((i as u32) * 64 + (b as u32));
                    let ghost before = result@;
                    result.push(c);
                    assert forall|d: u32| #[trigger] result@.contains(CpuId(d)) == (before.contains(
                        CpuId(d),
                    ) || d == c.0) by {
                        vstd::seq_lib::lemma_seq_contains_after_push(before, c, CpuId(d));
                    }
                }
                b = b + 1;
            }
            proof {
                lemma_take_succ(self.mask@, i as int);
                assert(self.mask@.take(i + 1).drop_last() =~= self.mask@.take(i as int));
            }
            i = i + 1;
        }
        proof {
            lemma_take_full(self.mask@);
        }
        result
    }

    pub fn intersect(&self, other: &CpuAffinity) -> (a: CpuAffinity)
        requires
            self.wf(),
            other.wf(),
        ensures
            a.wf(),
            a.words().len() == if self.words().len() >= other.words().len() {
                self.words().len()
            } else {
                other.words().len()
            },
            forall|i: int|
                0 <= i < a.words().len() ==> a.words()[i] == #[trigger] word_or_zero(self.words(), i)
                    & word_or_zero(other.words(), i),
            forall|c: u32| #[trigger] a.allows(CpuId(c)) == (self.allows(CpuId(c)) && other.allows(CpuId(c))),
            a.is_hard() == (self.is_hard() && other.is_hard()),
    {
        let max_len = if self.mask.len() >= other.mask.len() {
            self.mask.len()
        } else {
            other.mask.len()
        };
        let mut result: Vec<u64> = Vec::new();
        let mut i: usize = 0;
        while i < max_len
            invariant
                i <= max_len,
                max_len == if self.mask@.len() >= other.mask@.len() {
                    self.mask@.len()
                } else {
                    other.mask@.len()
                },
                result@.len() == i,
                forall|k: int| 0 <= k < i ==> result@[k] == #[trigger] word_or_zero(self.mask@, k)
                    & word_or_zero(other.mask@, k),
            decreases max_len - i,
        {
            let a = if i < self.mask.len() { self.mask[i] } else { 0 };
            let b = if i < other.mask.len() { other.mask[i] } else { 0 };
            result.push(a & b);
            i = i + 1;
        }
        let a = CpuAffinity { mask: result, hard: self.hard && other.hard };
        assert forall|c: u32| #[trigger] a.allows(CpuId(c)) == (self.allows(CpuId(c)) && other.allows(CpuId(c))) by {
            let i = (c / 64) as int;
            let b = (c % 64) as u64;
            lemma_bit_const(b);
            lemma_word_bits(word_or_zero(self.mask@, i), word_or_zero(other.mask@, i), b);
        }
        a
    }

    pub fn union(&self, other: &CpuAffinity) -> (a: CpuAffinity)
        requires
            self.wf(),
            other.wf(),
        ensures
            a.wf(),
            a.words().len() == if self.words().len() >= other.words().len() {
                self.words().len()
            } else {
                other.words().len()
            },
            forall|i: int|
                0 <= i < a.words().len() ==> a.words()[i] == #[trigger] word_or_zero(self.words(), i)
                    | word_or_zero(other.words(), i),
            forall|c: u32| #[trigger] a.allows(CpuId(c)) == (self.allows(CpuId(c)) || other.allows(CpuId(c))),
            a.is_hard() == (self.is_hard() || other.is_hard()),
    {
        let max_len = if self.mask.len() >= other.mask.len() {
            self.mask.len()
        } else {
            other.mask.len()
        };
        let mut result: Vec<u64> = Vec::new();
        let mut i: usize = 0;
        while i < max_len
            invariant
                i <= max_len,
                max_len == if self.mask@.len() >= other.mask@.len() {
                    self.mask@.len()
                } else {
                    other.mask@.len()
                },
                result@.len() == i,
                forall|k: int| 0 <= k < i ==> result@[k] == #[trigger] word_or_zero(self.mask@, k)
                    | word_or_zero(other.mask@, k),
            decreases max_len - i,
        {
            let a = if i < self.mask.len() { self.mask[i] } else { 0 };
            let b = if i < other.mask.len() { other.mask[i] } else { 0 };
            result.push(a | b);
            i = i + 1;
        }
        let a = CpuAffinity { mask: result, hard: self.hard || other.hard };
        assert forall|c: u32| #[trigger] a.allows(CpuId(c)) == (self.allows(CpuId(c)) || other.allows(CpuId(c))) by {
            let i = (c / 64) as int;
            let b = (c % 64) as u64;
            lemma_bit_const(b);
            lemma_word_bits(word_or_zero(self.mask@, i), word_or_zero(other.mask@, i), b);
        }
        a
    }

    pub fn set_hard(&mut self, hard: bool)
        ensures
            final(self).is_hard() == hard,
            final(self).words() == old(self).words(),
    {
        self.hard = hard;
    }
}

/// Testing bit `b` with a mask reads the same bit as a shift does.
proof fn lemma_bit_test(w: u64, b: u64)
    requires
        b < 64,
    ensures
        ((w & (1u64 << b)) != 0) == ((w >> b) & 1 == 1),
{
    assert(((w & (1u64 << b)) != 0) == ((w >> b) & 1 == 1)) by (bit_vector)
        requires
            b < 64,
    ;
}

proof fn lemma_mask_popcount_prefix(words: Seq<u64>, i: int)
    requires
        0 <= i <= words.len(),
    ensures
        mask_popcount(words.take(i)) <= mask_popcount(words),
    decreases words.len() - i,
{
    if i < words.len() {
        lemma_mask_popcount_prefix(words, i + 1);
        lemma_take_succ(words, i);
        assert(words.take(i + 1).drop_last() =~= words.take(i));
    } else {
        lemma_take_full(words);
    }
}

proof fn lemma_nonzero_word_has_cpu(words: Seq<u64>, i: int)
    requires
        0 <= i < words.len(),
        words.len() <= MAX_MASK_WORDS,
        words[i] != 0,
    ensures
        exists|c: u32| #[trigger] has_cpu(words, c),
{
    let w = words[i];
    lemma_lowest_bit(w);
    let b = w.trailing_zeros() as nat;
    let c: u32 = (i * 64 + b) as u32;
    assert(has_cpu(words, c));
}


/// `x + 1`, wrapping to zero past the top: event counters count modulo 2^64.
pub open spec fn wrap_inc(x: u64) -> u64 {
    if x == u64::MAX {
        0
    } else {
        (x + 1) as u64
    }
}

/// `x + y` modulo 2^32.
pub open spec fn wrap_add32(x: u32, y: u32) -> u32 {
    if x + y > u32::MAX {
        (x + y - 0x1_0000_0000) as u32
    } else {
        (x + y) as u32
    }
}

// ════════════════════════════════════════════════════════════════
//  PER-CPU RUN QUEUE
// ════════════════════════════════════════════════════════════════

/// The test "is not `pid`".
pub open spec fn not_task(pid: u32) -> spec_fn(u32) -> bool {
    |p: u32| p != pid
}

#[derive(Clone, Debug)]
pub struct RunQueue {
    pub cpu_id: CpuId,
    /// Queued pids, in order.
    pub tasks: Vec<u32>,
    /// The pid running now.
    pub current_pid: Option<u32>,
    /// Total scheduling weight.
    pub weight: u32,
    /// Ticks left in the current quantum.
    pub quantum_remaining: u32,
    /// Length of a quantum in ticks.
    pub quantum_length: u32,
}

fn vec_has_u32(v: &Vec<u32>, x: u32) -> (r: bool)
    ensures
        r == v@.contains(x),
{
    let mut i: usize = 0;
    while i < v.len()
        invariant
            i <= v@.len(),
            forall|j: int| 0 <= j < i ==> v@[j] != x,
        decreases v@.len() - i,
    {
        if v[i] == x {
            return true;
        }
        i = i + 1;
    }
    false
}

impl RunQueue {
    pub fn new(cpu_id: CpuId) -> (q: Self)
        ensures
            q.cpu_id == cpu_id,
            q.tasks@ == Seq::<u32>::empty(),
            q.current_pid == None::<u32>,
            q.weight == 0,
            q.quantum_remaining == DEFAULT_QUANTUM_TICKS,
            q.quantum_length == DEFAULT_QUANTUM_TICKS,
    {
        RunQueue {
            cpu_id,
            tasks: Vec::new(),
            current_pid: None,
            weight: 0,
            quantum_remaining: DEFAULT_QUANTUM_TICKS,
            quantum_length: DEFAULT_QUANTUM_TICKS,
        }
    }

    /// Queues `pid` at the back unless it is queued already; its weight adds to
    /// the total, which counts modulo 2^32.
    pub fn enqueue(&mut self, pid: u32, weight: u32)
        ensures
            old(self).tasks@.contains(pid) ==> *final(self) == *old(self),
            !old(self).tasks@.contains(pid) ==> final(self).tasks@ == old(self).tasks@.push(pid)
                && final(self).weight == wrap_add32(old(self).weight, weight),
            final(self).cpu_id == old(self).cpu_id,
            final(self).current_pid == old(self).current_pid,
            final(self).quantum_remaining == old(self).quantum_remaining,
            final(self).quantum_length == old(self).quantum_length,
    {
        if !vec_has_u32(&self.tasks, pid) {
            self.tasks.push(pid);
            self.weight = self.weight.wrapping_add(weight);
        }
    }

    /// Removes `pid` from the queue; false if it was not queued. The queue does
    /// not record per-task weights, so the total weight is left as it is.
    pub fn dequeue(&mut self, pid: u32) -> (r: bool)
        ensures
            r == old(self).tasks@.contains(pid),
            final(self).tasks@ == old(self).tasks@.filter(not_task(pid)),
            final(self).current_pid == if r && old(self).current_pid == Some(pid) {
                None
            } else {
                old(self).current_pid
            },
            final(self).cpu_id == old(self).cpu_id,
            final(self).weight == old(self).weight,
            final(self).quantum_remaining == old(self).quantum_remaining,
            final(self).quantum_length == old(self).quantum_length,
    {
        let mut kept: Vec<u32> = Vec::new();
        let mut found = false;
        let mut i: usize = 0;
        while i < self.tasks.len()
            invariant
                i <= self.tasks@.len(),
                self.tasks@ == old(self).tasks@,
                kept@ == self.tasks@.take(i as int).filter(not_task(pid)),
                found == self.tasks@.take(i as int).contains(pid),
            decreases self.tasks@.len() - i,
        {
            proof {
                lemma_filter_take_succ(self.tasks@, i as int, not_task(pid));
                lemma_take_succ(self.tasks@, i as int);
                vstd::seq_lib::lemma_seq_contains_after_push(
                    self.tasks@.take(i as int),
                    self.tasks@[i as int],
                    pid,
                );
            }
            let t = self.tasks[i];
            if t != pid {
                kept.push(t);
            } else {
                found = true;
            }
            i = i + 1;
        }
        proof {
            lemma_take_full(self.tasks@);
        }
        self.tasks = kept;
        if found {
            if self.current_pid == Some(pid) {
                self.current_pid = None;
            }
        }
        found
    }

    /// Takes the task at the front of the queue and runs it with a fresh quantum.
    pub fn next_task(&mut self) -> (r: Option<u32>)
        ensures
            old(self).tasks@.len() == 0 ==> r == None::<u32> && *final(self) == *old(self),
            old(self).tasks@.len() > 0 ==> {
                &&& r == Some(old(self).tasks@[0])
                &&& final(self).tasks@ == old(self).tasks@.drop_first()
                &&& final(self).current_pid == r
                &&& final(self).quantum_remaining == old(self).quantum_length
            },
            final(self).cpu_id == old(self).cpu_id,
            final(self).weight == old(self).weight,
            final(self).quantum_length == old(self).quantum_length,
    {
        if self.tasks.len() == 0 {
            return None;
        }
        let pid = self.tasks.remove(0);
        assert(self.tasks@ =~= old(self).tasks@.drop_first());
        self.current_pid = Some(pid);
        self.quantum_remaining = self.quantum_length;
        Some(pid)
    }

    /// One timer tick: uses up one tick of the quantum; reports whether the
    /// quantum had already run out.
    pub fn tick(&mut self) -> (expired: bool)
        ensures
            expired == (old(self).quantum_remaining == 0),
            final(self).quantum_remaining == if expired {
                0
            } else {
                (old(self).quantum_remaining - 1) as u32
            },
            final(self).cpu_id == old(self).cpu_id,
            final(self).tasks == old(self).tasks,
            final(self).current_pid == old(self).current_pid,
            final(self).weight == old(self).weight,
            final(self).quantum_length == old(self).quantum_length,
    {
        let expired = self.quantum_remaining == 0;
        if !expired {
            self.quantum_remaining = self.quantum_remaining - 1;
        }
        expired
    }

    pub fn len(&self) -> (r: usize)
        ensures
            r == self.tasks@.len(),
    {
        self.tasks.len()
    }

    pub fn is_empty(&self) -> (r: bool)
        ensures
            r == (self.tasks@.len() == 0),
    {
        self.tasks.len() == 0
    }

    /// Number of queued tasks, as a `u32`.
    pub fn load(&self) -> (r: u32)
        ensures
            r == self.tasks@.len() as u32,
    {
        self.tasks.len() as u32
    }

    pub fn peek_next(&self) -> (r: Option<u32>)
        ensures
            r == if self.tasks@.len() > 0 { Some(self.tasks@[0]) } else { None::<u32> },
    {
        if self.tasks.len() > 0 {
            Some(self.tasks[0])
        } else {
            None
        }
    }
}

// ════════════════════════════════════════════════════════════════
//  PER-CPU DATA
// ════════════════════════════════════════════════════════════════

#[derive(Clone, Debug)]
pub struct PerCpuData {
    pub cpu_id: CpuId,
    pub state: CpuState,
    pub run_queue: RunQueue,
    pub stats: CpuStats,
    pub numa_node: u32,
    pub core_id: u32,
    /// Hyperthread sibling number (0 = physical, 1 = sibling).
    pub thread_id: u32,
    /// The hyperthread sibling.
    pub sibling: Option<CpuId>,
    /// Cache sizes per level, in KB.
    pub cache: [u32; 4],
    pub ticks: u64,
    pub idle_ticks: u64,
    pub context_switches: u64,
    pub migrations_in: u64,
    pub migrations_out: u64,
    pub ipi_count: u64,
    pub last_ipi: Option<IpiType>,
}

impl PerCpuData {
    pub fn new(cpu_id: CpuId) -> (d: Self)
        ensures
            d.cpu_id == cpu_id,
            d.state == CpuState::Offline,
            d.run_queue.cpu_id == cpu_id,
            d.run_queue.tasks@ == Seq::<u32>::empty(),
            d.run_queue.current_pid == None::<u32>,
            d.run_queue.weight == 0,
            d.run_queue.quantum_remaining == DEFAULT_QUANTUM_TICKS,
            d.run_queue.quantum_length == DEFAULT_QUANTUM_TICKS,
            d.stats == CpuStats::zero(cpu_id),
            d.numa_node == 0,
            d.core_id == cpu_id.0,
            d.thread_id == 0,
            d.sibling == None::<CpuId>,
            d.cache@ == seq![0u32, 0u32, 0u32, 0u32],
            d.ticks == 0,
            d.idle_ticks == 0,
            d.context_switches == 0,
            d.migrations_in == 0,
            d.migrations_out == 0,
            d.ipi_count == 0,
            d.last_ipi == None::<IpiType>,
    {
        let d = PerCpuData {
            cpu_id,
            state: CpuState::Offline,
            run_queue: RunQueue::new(cpu_id),
            stats: CpuStats::new(cpu_id),
            numa_node: 0,
            core_id: cpu_id.raw(),
            thread_id: 0,
            sibling: None,
            cache: [0u32; 4],
            ticks: 0,
            idle_ticks: 0,
            context_switches: 0,
            migrations_in: 0,
            migrations_out: 0,
            ipi_count: 0,
            last_ipi: None,
        };
        assert(d.cache@ =~= seq![0u32, 0u32, 0u32, 0u32]);
        d
    }

    pub fn is_online(&self) -> (r: bool)
        ensures
            r == (self.state == CpuState::Online),
    {
        self.state.is_active()
    }

    pub fn is_bsp(&self) -> (r: bool)
        ensures
            r == (self.cpu_id.0 == 0),
    {
        self.cpu_id.is_bsp()
    }

    /// Number of queued tasks, as a `u32`.
    pub fn load(&self) -> (r: u32)
        ensures
            r == self.run_queue.tasks@.len() as u32,
    {
        self.run_queue.load()
    }

    pub fn record_tick(&mut self, idle: bool)
        ensures
            *final(self) == (PerCpuData {
                ticks: wrap_inc(old(self).ticks),
                idle_ticks: if idle { wrap_inc(old(self).idle_ticks) } else { old(self).idle_ticks },
                ..*old(self)
            }),
    {
        self.ticks = self.ticks.wrapping_add(1);
        if idle {
            self.idle_ticks = self.idle_ticks.wrapping_add(1);
        }
    }

    pub fn record_switch(&mut self)
        requires
        ensures
            *final(self) == (PerCpuData {
                context_switches: wrap_inc(old(self).context_switches),
                ..*old(self)
            }),
    {
        self.context_switches = self.context_switches.wrapping_add(1);
    }

    pub fn record_migration_in(&mut self)
        requires
        ensures
            *final(self) == (PerCpuData {
                migrations_in: wrap_inc(old(self).migrations_in),
                ..*old(self)
            }),
    {
        self.migrations_in = self.migrations_in.wrapping_add(1);
    }

    pub fn record_migration_out(&mut self)
        requires
        ensures
            *final(self) == (PerCpuData {
                migrations_out: wrap_inc(old(self).migrations_out),
                ..*old(self)
            }),
    {
        self.migrations_out = self.migrations_out.wrapping_add(1);
    }

    pub fn record_ipi(&mut self, ipi_type: IpiType)
        requires
        ensures
            *final(self) == (PerCpuData {
                ipi_count: wrap_inc(old(self).ipi_count),
                last_ipi: Some(ipi_type),
                ..*old(self)
            }),
    {
        self.ipi_count = self.ipi_count.wrapping_add(1);
        self.last_ipi = Some(ipi_type);
    }
}

// ════════════════════════════════════════════════════════════════
//  CPU STATISTICS
// ════════════════════════════════════════════════════════════════

#[derive(Clone, Copy, Debug, PartialEq, Eq, Structural)]
pub struct CpuStats {
    pub cpu_id: CpuId,
    pub user_ticks: u64,
    pub system_ticks: u64,
    pub idle_ticks: u64,
    pub iowait_ticks: u64,
    pub irq_ticks: u64,
    pub softirq_ticks: u64,
    pub steal_ticks: u64,
    pub guest_ticks: u64,
}

impl CpuStats {
    /// All counters zero.
    pub open spec fn zero(cpu_id: CpuId) -> CpuStats {
        CpuStats {
            cpu_id,
            user_ticks: 0,
            system_ticks: 0,
            idle_ticks: 0,
            iowait_ticks: 0,
            irq_ticks: 0,
            softirq_ticks: 0,
            steal_ticks: 0,
            guest_ticks: 0,
        }
    }

    /// Ticks spent in every accounted state (steal and guest time not included).
    pub open spec fn total(self) -> int {
        self.user_ticks + self.system_ticks + self.idle_ticks + self.iowait_ticks + self.irq_ticks
            + self.softirq_ticks
    }

    pub fn new(cpu_id: CpuId) -> (s: Self)
        ensures
            s == CpuStats::zero(cpu_id),
    {
        CpuStats {
            cpu_id,
            user_ticks: 0,
            system_ticks: 0,
            idle_ticks: 0,
            iowait_ticks: 0,
            irq_ticks: 0,
            softirq_ticks: 0,
            steal_ticks: 0,
            guest_ticks: 0,
        }
    }

    pub fn total_ticks(&self) -> (r: u64)
        requires
            self.total() <= u64::MAX,
        ensures
            r == self.total(),
    {
        self.user_ticks + self.system_ticks + self.idle_ticks + self.iowait_ticks + self.irq_ticks
            + self.softirq_ticks
    }

    /// Ticks not spent idle.
    pub fn busy_ticks(&self) -> (r: u64)
        requires
            self.total() <= u64::MAX,
        ensures
            r == self.total() - self.idle_ticks,
    {
        self.total_ticks() - self.idle_ticks
    }

    pub fn record_user(&mut self, ticks: u64)
        requires
            old(self).user_ticks + ticks <= u64::MAX,
        ensures
            *final(self) == (CpuStats { user_ticks: (old(self).user_ticks + ticks) as u64, ..*old(self) }),
    {
        self.user_ticks = self.user_ticks + ticks;
    }

    pub fn record_system(&mut self, ticks: u64)
        requires
            old(self).system_ticks + ticks <= u64::MAX,
        ensures
            *final(self) == (CpuStats {
                system_ticks: (old(self).system_ticks + ticks) as u64,
                ..*old(self)
            }),
    {
        self.system_ticks = self.system_ticks + ticks;
    }

    pub fn record_idle(&mut self, ticks: u64)
        requires
            old(self).idle_ticks + ticks <= u64::MAX,
        ensures
            *final(self) == (CpuStats { idle_ticks: (old(self).idle_ticks + ticks) as u64, ..*old(self) }),
    {
        self.idle_ticks = self.idle_ticks + ticks;
    }
}

impl Default for CpuStats {
    fn default() -> (s: Self)
        ensures
            s == CpuStats::zero(CpuId(0)),
    {
        CpuStats::new(CpuId(0))
    }
}

// ════════════════════════════════════════════════════════════════
//  IPI (INTER-PROCESSOR INTERRUPT)
// ════════════════════════════════════════════════════════════════

#[derive(Clone, Copy, Debug, PartialEq, Eq, Structural)]
pub enum IpiType {
    /// Run the scheduler.
    Reschedule,
    /// Invalidate TLB entries.
    TlbShootdown,
    /// Run a function.
    CallFunction,
    /// Run a function on a single target.
    CallFunctionSingle,
    /// Stop the target (hotplug).
    Stop,
    /// Wake the target from idle.
    WakeUp,
    /// Request a task migration.
    Migrate,
    /// Crash notification.
    Crash,
}

impl IpiType {
    pub fn name(&self) -> (r: &'static str)
        ensures
            r@ == (match *self {
                IpiType::Reschedule => "RESCHEDULE"@,
                IpiType::TlbShootdown => "TLB_SHOOTDOWN"@,
                IpiType::CallFunction => "CALL_FUNCTION"@,
                IpiType::CallFunctionSingle => "CALL_FUNCTION_SINGLE"@,
                IpiType::Stop => "STOP"@,
                IpiType::WakeUp => "WAKEUP"@,
                IpiType::Migrate => "MIGRATE"@,
                IpiType::Crash => "CRASH"@,
            }),
    {
        match self {
            IpiType::Reschedule => "RESCHEDULE",
            IpiType::TlbShootdown => "TLB_SHOOTDOWN",
            IpiType::CallFunction => "CALL_FUNCTION",
            IpiType::CallFunctionSingle => "CALL_FUNCTION_SINGLE",
            IpiType::Stop => "STOP",
            IpiType::WakeUp => "WAKEUP",
            IpiType::Migrate => "MIGRATE",
            IpiType::Crash => "CRASH",
        }
    }

    /// Delivery priority; lower is more urgent.
    pub open spec fn priority_spec(self) -> u8 {
        match self {
            IpiType::Crash => 0,
            IpiType::Stop => 1,
            IpiType::TlbShootdown => 2,
            IpiType::Reschedule => 3,
            IpiType::CallFunction => 4,
            IpiType::CallFunctionSingle => 5,
            IpiType::Migrate => 6,
            IpiType::WakeUp => 7,
        }
    }

    pub fn priority(&self) -> (r: u8)
        ensures
            r == self.priority_spec(),
    {
        match self {
            IpiType::Crash => 0,
            IpiType::Stop => 1,
            IpiType::TlbShootdown => 2,
            IpiType::Reschedule => 3,
            IpiType::CallFunction => 4,
            IpiType::CallFunctionSingle => 5,
            IpiType::Migrate => 6,
            IpiType::WakeUp => 7,
        }
    }
}

#[derive(Clone, Copy, Debug, PartialEq, Eq, Structural)]
pub struct IpiMessage {
    pub ipi_type: IpiType,
    pub source_cpu: CpuId,
    pub target_cpu: CpuId,
    pub data: u64,
    pub timestamp: u64,
}


// ════════════════════════════════════════════════════════════════
//  CPU TOPOLOGY
// ════════════════════════════════════════════════════════════════

/// The default cache sizes of a CPU: L1 32 KB, L2 256 KB, L3 12 MB.
pub open spec fn default_cache(a: [u32; 4]) -> bool {
    a@ == seq![32u32, 256u32, 12288u32, 0u32]
}

/// CPU `c` has a hyperthread sibling when each core runs `t` threads.
pub open spec fn has_sibling(c: u32, t: u32) -> bool {
    (t > 1 && c % t == 0) || c % t == 1
}

/// The sibling of CPU `c`: the next one for the first thread of a core, else the previous one.
pub open spec fn sibling_of(c: u32, t: u32) -> u32 {
    if c % t == 0 {
        (c + 1) as u32
    } else {
        (c - 1) as u32
    }
}

/// Keys of `m` whose value is `v`.
pub open spec fn key_has_value(m: Map<u32, u32>, v: u32) -> spec_fn(u32) -> bool {
    |k: u32| m[k] == v
}

#[derive(Clone, Debug)]
pub struct CpuTopology {
    pub num_cpus: u32,
    pub numa_nodes: Vec<NumaNode>,
    /// NUMA node of each cpu.
    pub cpu_to_node: IdMap<u32>,
    /// Core of each cpu.
    pub cpu_to_core: IdMap<u32>,
    /// Hyperthread sibling of each cpu.
    pub siblings: IdMap<u32>,
    /// Cache sizes of each cpu.
    pub cache_topology: IdMap<[u32; 4]>,
}

fn insert_cpus_with(m: &IdMap<u32>, node: u32) -> (r: Vec<u32>)
    requires
        m.wf(),
    ensures
        r@ == m.key_seq().filter(key_has_value(m@, node)),
{
    proof {
        m.lemma_wf();
    }
    let mut out: Vec<u32> = Vec::new();
    let n = m.len();
    let mut i: usize = 0;
    while i < n
        invariant
            n == m.key_seq().len(),
            m.wf(),
            i <= n,
            forall|j: int| 0 <= j < m.key_seq().len() ==> #[trigger] m@[m.key_seq()[j]] == m.value_seq()[j],
            out@ == m.key_seq().take(i as int).filter(key_has_value(m@, node)),
        decreases n - i,
    {
        proof {
            lemma_filter_take_succ(m.key_seq(), i as int, key_has_value(m@, node));
        }
        let k = m.key_at(i);
        let v = *m.value_at(i);
        assert(m@[m.key_seq()[i as int]] == m.value_seq()[i as int]);
        if v == node {
            out.push(k);
        }
        i = i + 1;
    }
    proof {
        lemma_take_full(m.key_seq());
    }
    out
}

impl CpuTopology {
    pub open spec fn wf(&self) -> bool {
        &&& self.cpu_to_node.wf()
        &&& self.cpu_to_core.wf()
        &&& self.siblings.wf()
        &&& self.cache_topology.wf()
    }

    pub fn new(num_cpus: u32) -> (t: Self)
        ensures
            t.wf(),
            t.num_cpus == num_cpus,
            t.numa_nodes@.len() == 0,
            t.cpu_to_node@ == Map::<u32, u32>::empty(),
            t.cpu_to_core@ == Map::<u32, u32>::empty(),
            t.siblings@ == Map::<u32, u32>::empty(),
            t.cache_topology@ == Map::<u32, [u32; 4]>::empty(),
    {
        CpuTopology {
            num_cpus,
            numa_nodes: Vec::new(),
            cpu_to_node: IdMap::new(),
            cpu_to_core: IdMap::new(),
            siblings: IdMap::new(),
            cache_topology: IdMap::new(),
        }
    }

    /// All cpus on NUMA node 0, one core per cpu, default caches.
    pub fn single_node(num_cpus: u32) -> (t: Self)
        ensures
            t.wf(),
            t.num_cpus == num_cpus,
            t.numa_nodes@.len() == 1,
            t.numa_nodes@[0].node_id == 0,
            t.numa_nodes@[0].cpus@ == Seq::new(num_cpus as nat, |i: int| i as u32),
            t.cpu_to_node@ == Map::new(|c: u32| c < num_cpus, |c: u32| 0u32),
            t.cpu_to_core@ == Map::new(|c: u32| c < num_cpus, |c: u32| c),
            t.siblings@ == Map::<u32, u32>::empty(),
            t.cache_topology@.dom() == Set::new(|c: u32| c < num_cpus),
            forall|c: u32| c < num_cpus ==> default_cache(#[trigger] t.cache_topology@[c]),
    {
        let mut topo = CpuTopology::new(num_cpus);
        let node = NumaNode::new(0, num_cpus, 0);
        topo.numa_nodes.push(node);
        let mut i: u32 = 0;
        while i < num_cpus
            invariant
                i <= num_cpus,
                topo.wf(),
                topo.num_cpus == num_cpus,
                topo.numa_nodes@.len() == 1,
                topo.numa_nodes@[0] == node,
                topo.cpu_to_node@ == Map::new(|c: u32| c < i, |c: u32| 0u32),
                topo.cpu_to_core@ == Map::new(|c: u32| c < i, |c: u32| c),
                topo.siblings@ == Map::<u32, u32>::empty(),
                topo.cache_topology@.dom() == Set::new(|c: u32| c < i),
                forall|c: u32| c < i ==> default_cache(#[trigger] topo.cache_topology@[c]),
            decreases num_cpus - i,
        {
            topo.cpu_to_node.insert(i, 0);
            topo.cpu_to_core.insert(i, i);
            let cache: [u32; 4] = [32, 256, 12288, 0];
            assert(default_cache(cache)) by {
                assert(cache@ =~= seq![32u32, 256u32, 12288u32, 0u32]);
            }
            topo.cache_topology.insert(i, cache);
            i = i + 1;
            assert(topo.cpu_to_node@ =~= Map::new(|c: u32| c < i, |c: u32| 0u32));
            assert(topo.cpu_to_core@ =~= Map::new(|c: u32| c < i, |c: u32| c));
            assert(topo.cache_topology@.dom() =~= Set::new(|c: u32| c < i));
        }
        topo
    }

    /// All cpus on NUMA node 0, `threads_per_core` consecutive cpus per core,
    /// and the first two threads of each whole core paired as siblings.
    pub fn with_hyperthreads(num_cpus: u32, threads_per_core: u32) -> (t: Self)
        requires
            threads_per_core > 0,
        ensures
            t.wf(),
            t.num_cpus == num_cpus,
            t.numa_nodes@.len() == 1,
            t.numa_nodes@[0].node_id == 0,
            t.numa_nodes@[0].cpus@ == Seq::new(num_cpus as nat, |i: int| i as u32),
            t.cpu_to_node@ == Map::new(|c: u32| c < num_cpus, |c: u32| 0u32),
            t.cpu_to_core@ == Map::new(|c: u32| c < num_cpus, |c: u32| c / threads_per_core),
            t.siblings@ == Map::new(
                |c: u32| c < (num_cpus / threads_per_core) * threads_per_core && has_sibling(c, threads_per_core),
                |c: u32| sibling_of(c, threads_per_core),
            ),
            t.cache_topology@.dom() == Set::new(|c: u32| c < num_cpus),
            forall|c: u32| c < num_cpus ==> default_cache(#[trigger] t.cache_topology@[c]),
    {
        let mut topo = CpuTopology::new(num_cpus);
        let node = NumaNode::new(0, num_cpus, 0);
        topo.numa_nodes.push(node);
        let cores = num_cpus / threads_per_core;
        let mut i: u32 = 0;
        while i < num_cpus
            invariant
                i <= num_cpus,
                threads_per_core > 0,
                topo.wf(),
                topo.num_cpus == num_cpus,
                topo.numa_nodes@.len() == 1,
                topo.numa_nodes@[0] == node,
                topo.cpu_to_node@ == Map::new(|c: u32| c < i, |c: u32| 0u32),
                topo.cpu_to_core@ == Map::new(|c: u32| c < i, |c: u32| c / threads_per_core),
                topo.siblings@ == Map::<u32, u32>::empty(),
                topo.cache_topology@.dom() == Set::new(|c: u32| c < i),
                forall|c: u32| c < i ==> default_cache(#[trigger] topo.cache_topology@[c]),
            decreases num_cpus - i,
        {
            topo.cpu_to_node.insert(i, 0);
            topo.cpu_to_core.insert(i, i / threads_per_core);
            let cache: [u32; 4] = [32, 256, 12288, 0];
            assert(default_cache(cache)) by {
                assert(cache@ =~= seq![32u32, 256u32, 12288u32, 0u32]);
            }
            topo.cache_topology.insert(i, cache);
            i = i + 1;
            assert(topo.cpu_to_node@ =~= Map::new(|c: u32| c < i, |c: u32| 0u32));
            assert(topo.cpu_to_core@ =~= Map::new(|c: u32| c < i, |c: u32| c / threads_per_core));
            assert(topo.cache_topology@.dom() =~= Set::new(|c: u32| c < i));
        }
        assert(cores * threads_per_core <= num_cpus) by (nonlinear_arith)
            requires
                cores == num_cpus / threads_per_core,
                threads_per_core > 0,
        ;
        let limit = cores * threads_per_core;
        let mut cpu: u32 = 0;
        while cpu < limit
            invariant
                cpu <= limit,
                limit <= num_cpus,
                limit == (num_cpus / threads_per_core) * threads_per_core,
                threads_per_core > 0,
                topo.wf(),
                topo.num_cpus == num_cpus,
                topo.numa_nodes@.len() == 1,
                topo.numa_nodes@[0] == node,
                topo.cpu_to_node@ == Map::new(|c: u32| c < num_cpus, |c: u32| 0u32),
                topo.cpu_to_core@ == Map::new(|c: u32| c < num_cpus, |c: u32| c / threads_per_core),
                topo.siblings@ == Map::new(
                    |c: u32| c < cpu && has_sibling(c, threads_per_core),
                    |c: u32| sibling_of(c, threads_per_core),
                ),
                topo.cache_topology@.dom() == Set::new(|c: u32| c < num_cpus),
                forall|c: u32| c < num_cpus ==> default_cache(#[trigger] topo.cache_topology@[c]),
            decreases limit - cpu,
        {
            let t = cpu % threads_per_core;
            if t == 0 && threads_per_core > 1 {
                assert(cpu + 1 < limit) by (nonlinear_arith)
                    requires
                        cpu < limit,
                        cpu % threads_per_core == 0,
                        threads_per_core > 1,
                        limit == (num_cpus / threads_per_core) * threads_per_core,
                ;
                topo.siblings.insert(cpu, cpu + 1);
            } else if t == 1 {
                assert(cpu >= 1) by (nonlinear_arith)
                    requires
                        cpu % threads_per_core == 1,
                        threads_per_core > 0,
                ;
                topo.siblings.insert(cpu, cpu - 1);
            }
            cpu = cpu + 1;
            assert(topo.siblings@ =~= Map::new(
                |c: u32| c < cpu && has_sibling(c, threads_per_core),
                |c: u32| sibling_of(c, threads_per_core),
            ));
        }
        topo
    }

    pub fn get_node(&self, cpu: u32) -> (r: Option<u32>)
        requires
            self.wf(),
        ensures
            r == if self.cpu_to_node@.contains_key(cpu) { Some(self.cpu_to_node@[cpu]) } else { None },
    {
        match self.cpu_to_node.get(cpu) {
            Some(v) => Some(*v),
            None => None,
        }
    }

    pub fn get_core(&self, cpu: u32) -> (r: Option<u32>)
        requires
            self.wf(),
        ensures
            r == if self.cpu_to_core@.contains_key(cpu) { Some(self.cpu_to_core@[cpu]) } else { None },
    {
        match self.cpu_to_core.get(cpu) {
            Some(v) => Some(*v),
            None => None,
        }
    }

    pub fn get_sibling(&self, cpu: u32) -> (r: Option<u32>)
        requires
            self.wf(),
        ensures
            r == if self.siblings@.contains_key(cpu) { Some(self.siblings@[cpu]) } else { None },
    {
        match self.siblings.get(cpu) {
            Some(v) => Some(*v),
            None => None,
        }
    }

    /// Either cpu is recorded as the other's sibling.
    pub fn is_sibling(&self, cpu_a: u32, cpu_b: u32) -> (r: bool)
        requires
            self.wf(),
        ensures
            r == ((self.siblings@.contains_key(cpu_a) && self.siblings@[cpu_a] == cpu_b) || (
            self.siblings@.contains_key(cpu_b) && self.siblings@[cpu_b] == cpu_a)),
    {
        let a = match self.siblings.get(cpu_a) {
            Some(s) => *s == cpu_b,
            None => false,
        };
        let b = match self.siblings.get(cpu_b) {
            Some(s) => *s == cpu_a,
            None => false,
        };
        a || b
    }

    /// The cpus of NUMA node `node`, ascending.
    pub fn cpus_in_node(&self, node: u32) -> (r: Vec<u32>)
        requires
            self.wf(),
        ensures
            r@ == self.cpu_to_node.key_seq().filter(key_has_value(self.cpu_to_node@, node)),
    {
        insert_cpus_with(&self.cpu_to_node, node)
    }

    /// The cpus of core `core`, ascending.
    pub fn cpus_on_core(&self, core: u32) -> (r: Vec<u32>)
        requires
            self.wf(),
        ensures
            r@ == self.cpu_to_core.key_seq().filter(key_has_value(self.cpu_to_core@, core)),
    {
        insert_cpus_with(&self.cpu_to_core, core)
    }

    /// 10 within a NUMA node, 20 across nodes, 30 when either node is unknown.
    pub fn distance(&self, cpu_a: u32, cpu_b: u32) -> (r: u32)
        requires
            self.wf(),
        ensures
            r == if self.cpu_to_node@.contains_key(cpu_a) && self.cpu_to_node@.contains_key(cpu_b) {
                if self.cpu_to_node@[cpu_a] == self.cpu_to_node@[cpu_b] {
                    10u32
                } else {
                    20u32
                }
            } else {
                30u32
            },
    {
        match (self.get_node(cpu_a), self.get_node(cpu_b)) {
            (Some(a), Some(b)) => if a == b {
                10
            } else {
                20
            },
            _ => 30,
        }
    }
}

#[derive(Clone, Debug)]
pub struct NumaNode {
    pub node_id: u32,
    pub cpus: Vec<u32>,
    pub memory_bytes: u64,
    /// Distance from node 0.
    pub distance: u32,
}

impl NumaNode {
    /// A node holding cpus `0..num_cpus`; every node is created at the local distance 10.
    pub fn new(node_id: u32, num_cpus: u32, _distance: u32) -> (n: Self)
        ensures
            n.node_id == node_id,
            n.cpus@ == Seq::new(num_cpus as nat, |i: int| i as u32),
            n.memory_bytes == 0,
            n.distance == 10,
    {
        let mut cpus: Vec<u32> = Vec::new();
        let mut i: u32 = 0;
        while i < num_cpus
            invariant
                i <= num_cpus,
                cpus@ == Seq::new(i as nat, |k: int| k as u32),
            decreases num_cpus - i,
        {
            cpus.push(i);
            i = i + 1;
            assert(cpus@ =~= Seq::new(i as nat, |k: int| k as u32));
        }
        NumaNode { node_id, cpus, memory_bytes: 0, distance: 10 }
    }
}

// ════════════════════════════════════════════════════════════════
//  TASK SCHEDULING INFO (per-task SMP metadata)
// ════════════════════════════════════════════════════════════════

#[derive(Clone, Debug)]
pub struct TaskSmpInfo {
    pub pid: u32,
    pub affinity: CpuAffinity,
    pub current_cpu: Option<CpuId>,
    pub last_cpu: Option<CpuId>,
    pub weight: u32,
    pub migrations: u64,
    pub allowed_nodes: Vec<u32>,
}

/// The default scheduling weight of a task.
pub const DEFAULT_TASK_WEIGHT: u32 = 1024;

impl TaskSmpInfo {
    pub fn new(pid: u32, max_cpus: usize) -> (t: Self)
        requires
            max_cpus <= 0x1_0000_0000,
            max_cpus + 63 <= usize::MAX,
        ensures
            t.pid == pid,
            t.affinity.wf(),
            t.affinity.words().len() == (max_cpus + 63) / 64,
            forall|i: int| 0 <= i < t.affinity.words().len() ==> t.affinity.words()[i] == u64::MAX,
            !t.affinity.is_hard(),
            t.current_cpu == None::<CpuId>,
            t.last_cpu == None::<CpuId>,
            t.weight == DEFAULT_TASK_WEIGHT,
            t.migrations == 0,
            t.allowed_nodes@ == seq![0u32],
    {
        let t = TaskSmpInfo {
            pid,
            affinity: CpuAffinity::all_cpus(max_cpus),
            current_cpu: None,
            last_cpu: None,
            weight: DEFAULT_TASK_WEIGHT,
            migrations: 0,
            allowed_nodes: vec![0u32],
        };
        assert(t.allowed_nodes@ =~= seq![0u32]);
        t
    }

    pub fn pinned(pid: u32, cpu: CpuId) -> (t: Self)
        ensures
            t.pid == pid,
            t.affinity.wf(),
            forall|c: u32| #[trigger] t.affinity.allows(CpuId(c)) == (c == cpu.0),
            t.affinity.is_hard(),
            t.current_cpu == Some(cpu),
            t.last_cpu == None::<CpuId>,
            t.weight == DEFAULT_TASK_WEIGHT,
            t.migrations == 0,
            t.allowed_nodes@ == seq![0u32],
    {
        let t = TaskSmpInfo {
            pid,
            affinity: CpuAffinity::single(cpu),
            current_cpu: Some(cpu),
            last_cpu: None,
            weight: DEFAULT_TASK_WEIGHT,
            migrations: 0,
            allowed_nodes: vec![0u32],
        };
        assert(t.allowed_nodes@ =~= seq![0u32]);
        t
    }

    pub fn set_affinity(&mut self, affinity: CpuAffinity)
        ensures
            final(self).affinity == affinity,
            final(self).pid == old(self).pid,
            final(self).current_cpu == old(self).current_cpu,
            final(self).last_cpu == old(self).last_cpu,
            final(self).weight == old(self).weight,
            final(self).migrations == old(self).migrations,
            final(self).allowed_nodes == old(self).allowed_nodes,
    {
        self.affinity = affinity;
    }

    pub fn can_run_on(&self, cpu: CpuId) -> (r: bool)
        ensures
            r == self.affinity.allows(cpu),
    {
        self.affinity.contains(cpu)
    }

    pub fn record_migration(&mut self, from: CpuId, to: CpuId)
        ensures
            final(self).last_cpu == Some(from),
            final(self).current_cpu == Some(to),
            final(self).migrations == wrap_inc(old(self).migrations),
            final(self).pid == old(self).pid,
            final(self).affinity == old(self).affinity,
            final(self).weight == old(self).weight,
            final(self).allowed_nodes == old(self).allowed_nodes,
    {
        self.last_cpu = Some(from);
        self.current_cpu = Some(to);
        self.migrations = self.migrations.wrapping_add(1);
    }
}

// ════════════════════════════════════════════════════════════════
//  SMP BARRIER
// ════════════════════════════════════════════════════════════════

fn vec_has_cpu(v: &Vec<CpuId>, c: CpuId) -> (r: bool)
    ensures
        r == v@.contains(c),
{
    let mut i: usize = 0;
    while i < v.len()
        invariant
            i <= v@.len(),
            forall|j: int| 0 <= j < i ==> v@[j] != c,
        decreases v@.len() - i,
    {
        if v[i] == c {
            return true;
        }
        i = i + 1;
    }
    false
}

#[derive(Clone, Debug)]
pub struct SmpBarrier {
    pub barrier_id: u32,
    pub expected: u32,
    pub arrived: u32,
    pub generation: u64,
    pub participants: Vec<CpuId>,
}

impl SmpBarrier {
    pub fn new(barrier_id: u32, participants: Vec<CpuId>) -> (b: Self)
        requires
            participants@.len() <= u32::MAX,
        ensures
            b.barrier_id == barrier_id,
            b.expected == participants@.len(),
            b.arrived == 0,
            b.generation == 0,
            b.participants@ == participants@,
    {
        let expected = participants.len() as u32;
        SmpBarrier { barrier_id, expected, arrived: 0, generation: 0, participants }
    }

    /// A participant arrives; the last expected arrival releases the barrier,
    /// which starts a new generation. Non-participants are ignored.
    pub fn arrive(&mut self, cpu: CpuId) -> (released: bool)
        requires
            old(self).arrived < u32::MAX,
        ensures
            !old(self).participants@.contains(cpu) ==> !released && *final(self) == *old(self),
            old(self).participants@.contains(cpu) ==> released == (old(self).arrived + 1
                >= old(self).expected),
            old(self).participants@.contains(cpu) && released ==> final(self).arrived == 0
                && final(self).generation == wrap_inc(old(self).generation),
            old(self).participants@.contains(cpu) && !released ==> final(self).arrived
                == old(self).arrived + 1 && final(self).generation == old(self).generation,
            final(self).barrier_id == old(self).barrier_id,
            final(self).expected == old(self).expected,
            final(self).participants == old(self).participants,
    {
        if !vec_has_cpu(&self.participants, cpu) {
            return false;
        }
        self.arrived = self.arrived + 1;
        if self.arrived >= self.expected {
            self.arrived = 0;
            self.generation = self.generation.wrapping_add(1);
            true
        } else {
            false
        }
    }

    pub fn is_complete(&self) -> (r: bool)
        ensures
            r == (self.arrived == 0 && self.generation > 0),
    {
        self.arrived == 0 && self.generation > 0
    }

    pub fn reset(&mut self)
        ensures
            final(self).arrived == 0,
            final(self).generation == wrap_inc(old(self).generation),
            final(self).barrier_id == old(self).barrier_id,
            final(self).expected == old(self).expected,
            final(self).participants == old(self).participants,
    {
        self.arrived = 0;
        self.generation = self.generation.wrapping_add(1);
    }
}

// ════════════════════════════════════════════════════════════════
//  SCHEDULING DOMAIN (hierarchical load balancing)
// ════════════════════════════════════════════════════════════════

#[derive(Clone, Debug)]
pub struct SchedDomain {
    pub domain_id: u32,
    /// 0 = SMT, 1 = core, 2 = NUMA, 3 = all.
    pub level: u32,
    pub cpus: Vec<CpuId>,
    pub parent: Option<u32>,
    pub child: Vec<u32>,
    pub balance_interval_ms: u64,
    pub last_balance: u64,
    pub cache_nice_tries: u32,
    pub flags: SchedDomainFlags,
}

impl SchedDomain {
    pub fn new(domain_id: u32, level: u32, cpus: Vec<CpuId>) -> (d: Self)
        ensures
            d.domain_id == domain_id,
            d.level == level,
            d.cpus@ == cpus@,
            d.parent == None::<u32>,
            d.child@ == Seq::<u32>::empty(),
            d.balance_interval_ms == DEFAULT_LOAD_BALANCE_INTERVAL_MS,
            d.last_balance == 0,
            d.cache_nice_tries == 1,
            d.flags == SchedDomainFlags::none(),
    {
        SchedDomain {
            domain_id,
            level,
            cpus,
            parent: None,
            child: Vec::new(),
            balance_interval_ms: DEFAULT_LOAD_BALANCE_INTERVAL_MS,
            last_balance: 0,
            cache_nice_tries: 1,
            flags: SchedDomainFlags::default(),
        }
    }

    pub fn contains(&self, cpu: CpuId) -> (r: bool)
        ensures
            r == self.cpus@.contains(cpu),
    {
        vec_has_cpu(&self.cpus, cpu)
    }

    /// The balance interval has passed since the last balance.
    pub fn should_balance(&self, current_time: u64) -> (r: bool)
        requires
            self.last_balance + self.balance_interval_ms <= u64::MAX,
        ensures
            r == (current_time >= self.last_balance + self.balance_interval_ms),
    {
        current_time >= self.last_balance + self.balance_interval_ms
    }
}

#[derive(Clone, Copy, Debug, PartialEq, Eq, Structural)]
pub struct SchedDomainFlags {
    /// SMT siblings share capacity.
    pub share_cpucapacity: bool,
    /// The cpus share the L3 cache.
    pub share_pkg_resources: bool,
    /// A NUMA domain.
    pub numa: bool,
    /// Prefer spreading to siblings.
    pub prefer_sibling: bool,
}

impl SchedDomainFlags {
    pub open spec fn none() -> SchedDomainFlags {
        SchedDomainFlags {
            share_cpucapacity: false,
            share_pkg_resources: false,
            numa: false,
            prefer_sibling: false,
        }
    }
}

impl Default for SchedDomainFlags {
    fn default() -> (f: Self)
        ensures
            f == SchedDomainFlags::none(),
    {
        SchedDomainFlags {
            share_cpucapacity: false,
            share_pkg_resources: false,
            numa: false,
            prefer_sibling: false,
        }
    }
}

// ════════════════════════════════════════════════════════════════
//  SMP ERROR
// ════════════════════════════════════════════════════════════════

#[derive(Clone, Copy, Debug, PartialEq, Eq, Structural)]
pub enum SmpError {
    CpuNotFound,
    TaskNotFound,
    TaskNotRunning,
    CpuOffline,
    AlreadyOnline,
    AlreadyOffline,
    AlreadyBooting,
    StillStopping,
    NotOnline,
    NotPaused,
    InvalidState,
    CannotOfflineBsp,
    AffinityViolation,
    BarrierNotFound,
}

impl SmpError {
    pub fn name(&self) -> (r: &'static str)
        ensures
            r@ == (match *self {
                SmpError::CpuNotFound => "cpu_not_found"@,
                SmpError::TaskNotFound => "task_not_found"@,
                SmpError::TaskNotRunning => "task_not_running"@,
                SmpError::CpuOffline => "cpu_offline"@,
                SmpError::AlreadyOnline => "already_online"@,
                SmpError::AlreadyOffline => "already_offline"@,
                SmpError::AlreadyBooting => "already_booting"@,
                SmpError::StillStopping => "still_stopping"@,
                SmpError::NotOnline => "not_online"@,
                SmpError::NotPaused => "not_paused"@,
                SmpError::InvalidState => "invalid_state"@,
                SmpError::CannotOfflineBsp => "cannot_offline_bsp"@,
                SmpError::AffinityViolation => "affinity_violation"@,
                SmpError::BarrierNotFound => "barrier_not_found"@,
            }),
    {
        match self {
            SmpError::CpuNotFound => "cpu_not_found",
            SmpError::TaskNotFound => "task_not_found",
            SmpError::TaskNotRunning => "task_not_running",
            SmpError::CpuOffline => "cpu_offline",
            SmpError::AlreadyOnline => "already_online",
            SmpError::AlreadyOffline => "already_offline",
            SmpError::AlreadyBooting => "already_booting",
            SmpError::StillStopping => "still_stopping",
            SmpError::NotOnline => "not_online",
            SmpError::NotPaused => "not_paused",
            SmpError::InvalidState => "invalid_state",
            SmpError::CannotOfflineBsp => "cannot_offline_bsp",
            SmpError::AffinityViolation => "affinity_violation",
            SmpError::BarrierNotFound => "barrier_not_found",
        }
    }
}


// ════════════════════════════════════════════════════════════════
//  SMP MANAGER
// ════════════════════════════════════════════════════════════════

/// What the SMP manager holds.
pub struct SmpView {
    /// Per-CPU data by cpu number.
    pub cpus: Map<u32, PerCpuData>,
    /// The cpu numbers in ascending order.
    pub cpu_order: Seq<u32>,
    pub topology: CpuTopology,
    /// Per-task data by pid.
    pub tasks: Map<u32, TaskSmpInfo>,
    /// IPIs sent so far, oldest first.
    pub ipis: Seq<IpiMessage>,
    pub barriers: Map<u32, SmpBarrier>,
    pub domains: Map<u32, SchedDomain>,
    pub next_barrier_id: u32,
    pub next_domain_id: u32,
    pub total_migrations: u64,
    pub total_ipis: u64,
    pub total_balances: u64,
}

/// The cpu is online.
pub open spec fn online_pred(v: SmpView) -> spec_fn(u32) -> bool {
    |c: u32| v.cpus[c].state == CpuState::Online
}

/// The cpu is not online.
pub open spec fn offline_pred(v: SmpView) -> spec_fn(u32) -> bool {
    |c: u32| v.cpus[c].state != CpuState::Online
}

/// Online cpus in ascending order.
pub open spec fn online_ids(v: SmpView) -> Seq<u32> {
    v.cpu_order.filter(online_pred(v))
}

/// As cpu ids.
pub open spec fn as_cpu_ids(s: Seq<u32>) -> Seq<CpuId> {
    s.map_values(|c: u32| CpuId(c))
}

/// Cpu `c` is online with an empty run queue.
pub open spec fn is_idle(v: SmpView, c: u32) -> bool {
    v.cpus[c].state == CpuState::Online && v.cpus[c].run_queue.tasks@.len() == 0
}

/// The load of cpu `c`.
pub open spec fn load_of(v: SmpView, c: u32) -> u32 {
    v.cpus[c].run_queue.tasks@.len() as u32
}

/// Position `i` holds the first cpu of the order that satisfies `p`.
pub open spec fn first_with(order: Seq<u32>, p: spec_fn(u32) -> bool, i: int) -> bool {
    &&& 0 <= i < order.len()
    &&& p(order[i])
    &&& forall|j: int| 0 <= j < i ==> !p(#[trigger] order[j])
}

/// The first cpu of the order that satisfies `p`.
pub open spec fn first_cpu_with(order: Seq<u32>, p: spec_fn(u32) -> bool) -> Option<u32> {
    if exists|i: int| first_with(order, p, i) {
        Some(order[choose|i: int| first_with(order, p, i)])
    } else {
        None
    }
}

/// The idle-cpu test.
pub open spec fn idle_pred(v: SmpView) -> spec_fn(u32) -> bool {
    |c: u32| is_idle(v, c)
}

/// The first idle cpu.
pub open spec fn first_idle(v: SmpView) -> Option<u32> {
    first_cpu_with(v.cpu_order, idle_pred(v))
}

proof fn lemma_first_with(order: Seq<u32>, p: spec_fn(u32) -> bool, i: int)
    requires
        first_with(order, p, i),
    ensures
        first_cpu_with(order, p) == Some(order[i]),
{
    let k = choose|k: int| first_with(order, p, k);
    assert(first_with(order, p, k));
    if k < i {
        assert(!p(order[k]));
    } else if i < k {
        assert(!p(order[i]));
    }
}

proof fn lemma_none_with(order: Seq<u32>, p: spec_fn(u32) -> bool)
    requires
        forall|j: int| 0 <= j < order.len() ==> !p(#[trigger] order[j]),
    ensures
        first_cpu_with(order, p) == None::<u32>,
{
}

/// Per-CPU data, topology, tasks, IPIs, barriers and scheduling domains.
pub struct SmpManager {
    per_cpu: IdMap<PerCpuData>,
    topology: CpuTopology,
    tasks: IdMap<TaskSmpInfo>,
    ipi_queue: Vec<IpiMessage>,
    barriers: IdMap<SmpBarrier>,
    sched_domains: IdMap<SchedDomain>,
    next_barrier_id: u32,
    next_domain_id: u32,
    total_migrations: u64,
    total_ipis: u64,
    total_balances: u64,
    boot_time: u64,
}

/// Counters of the SMP manager. The total load of the online CPUs stands for
/// their average load, which is `online_load / online_cpus`.
#[derive(Clone, Copy, Debug, PartialEq, Eq, Structural)]
pub struct SmpStats {
    pub total_cpus: u32,
    pub online_cpus: u32,
    pub total_tasks: u32,
    pub total_migrations: u64,
    pub total_ipis: u64,
    pub total_balances: u64,
    pub online_load: u64,
    pub numa_nodes: u32,
}

/// The per-CPU data of a cpu as the manager creates it: fresh, with the
/// bootstrap processor online.
pub open spec fn fresh_cpu(d: PerCpuData, c: u32) -> bool {
    &&& d.cpu_id == CpuId(c)
    &&& d.state == if c == 0 { CpuState::Online } else { CpuState::Offline }
    &&& d.run_queue.cpu_id == CpuId(c)
    &&& d.run_queue.tasks@ == Seq::<u32>::empty()
    &&& d.run_queue.current_pid == None::<u32>
    &&& d.run_queue.weight == 0
    &&& d.run_queue.quantum_remaining == DEFAULT_QUANTUM_TICKS
    &&& d.run_queue.quantum_length == DEFAULT_QUANTUM_TICKS
    &&& d.stats == CpuStats::zero(CpuId(c))
    &&& d.ticks == 0
    &&& d.idle_ticks == 0
    &&& d.context_switches == 0
    &&& d.migrations_in == 0
    &&& d.migrations_out == 0
    &&& d.ipi_count == 0
    &&& d.last_ipi == None::<IpiType>
}

/// Sum of the loads of the cpus `order`.
pub open spec fn load_sum(v: SmpView, order: Seq<u32>) -> nat
    decreases order.len(),
{
    if order.len() == 0 {
        0
    } else {
        load_sum(v, order.drop_last()) + load_of(v, order.last()) as nat
    }
}

impl View for SmpManager {
    type V = SmpView;

    closed spec fn view(&self) -> SmpView {
        SmpView {
            cpus: self.per_cpu@,
            cpu_order: self.per_cpu.key_seq(),
            topology: self.topology,
            tasks: self.tasks@,
            ipis: self.ipi_queue@,
            barriers: self.barriers@,
            domains: self.sched_domains@,
            next_barrier_id: self.next_barrier_id,
            next_domain_id: self.next_domain_id,
            total_migrations: self.total_migrations,
            total_ipis: self.total_ipis,
            total_balances: self.total_balances,
        }
    }
}

/// Cpu data is filed under its own number, and the order lists the cpus.
pub open spec fn smp_ok(v: SmpView) -> bool {
    &&& forall|c: u32| #[trigger] v.cpus.contains_key(c) ==> v.cpus[c].cpu_id == CpuId(c)
    &&& forall|i: int| 0 <= i < v.cpu_order.len() ==> #[trigger] v.cpus.contains_key(v.cpu_order[i])
    &&& forall|c: u32| #[trigger] v.cpus.contains_key(c) ==> v.cpu_order.contains(c)
    &&& v.topology.wf()
    &&& forall|b: u32| #[trigger] v.barriers.contains_key(b) ==> v.barriers[b].arrived < u32::MAX
}

impl SmpManager {
    pub closed spec fn wf(&self) -> bool {
        &&& self.per_cpu.wf()
        &&& self.tasks.wf()
        &&& self.barriers.wf()
        &&& self.sched_domains.wf()
        &&& smp_ok(self@)
    }

    fn empty_with(per_cpu: IdMap<PerCpuData>, topology: CpuTopology) -> (m: Self)
        ensures
            m.per_cpu == per_cpu,
            m.topology == topology,
            m.tasks@ == Map::<u32, TaskSmpInfo>::empty(),
            m.tasks.wf(),
            m.barriers.wf(),
            m.sched_domains.wf(),
            m@.ipis == Seq::<IpiMessage>::empty(),
            m@.barriers == Map::<u32, SmpBarrier>::empty(),
            m@.domains == Map::<u32, SchedDomain>::empty(),
            m@.next_barrier_id == 1,
            m@.next_domain_id == 1,
            m@.total_migrations == 0,
            m@.total_ipis == 0,
            m@.total_balances == 0,
    {
        SmpManager {
            per_cpu,
            topology,
            tasks: IdMap::new(),
            ipi_queue: Vec::new(),
            barriers: IdMap::new(),
            sched_domains: IdMap::new(),
            next_barrier_id: 1,
            next_domain_id: 1,
            total_migrations: 0,
            total_ipis: 0,
            total_balances: 0,
            boot_time: 0,
        }
    }

    /// `num_cpus` cpus on one NUMA node; only the bootstrap processor is online.
    pub fn new(num_cpus: u32) -> (m: Self)
        ensures
            m.wf(),
            m@.cpus.dom() == Set::new(|c: u32| c < num_cpus),
            forall|c: u32| c < num_cpus ==> fresh_cpu(#[trigger] m@.cpus[c], c),
            forall|c: u32| c < num_cpus ==> (#[trigger] m@.cpus[c]).numa_node == 0 && m@.cpus[c].core_id == c
                && m@.cpus[c].thread_id == 0 && m@.cpus[c].sibling == None::<CpuId>
                && m@.cpus[c].cache@ == seq![0u32, 0u32, 0u32, 0u32],
            m@.topology.num_cpus == num_cpus,
            m@.topology.numa_nodes@.len() == 1,
            m@.topology.cpu_to_node@ == Map::new(|c: u32| c < num_cpus, |c: u32| 0u32),
            m@.topology.cpu_to_core@ == Map::new(|c: u32| c < num_cpus, |c: u32| c),
            m@.topology.siblings@ == Map::<u32, u32>::empty(),
            m@.tasks == Map::<u32, TaskSmpInfo>::empty(),
            m@.ipis == Seq::<IpiMessage>::empty(),
            m@.barriers == Map::<u32, SmpBarrier>::empty(),
            m@.domains == Map::<u32, SchedDomain>::empty(),
            m@.next_barrier_id == 1,
            m@.next_domain_id == 1,
            m@.total_migrations == 0,
            m@.total_ipis == 0,
            m@.total_balances == 0,
    {
        let mut per_cpu: IdMap<PerCpuData> = IdMap::new();
        let mut i: u32 = 0;
        while i < num_cpus
            invariant
                i <= num_cpus,
                per_cpu.wf(),
                per_cpu@.dom() == Set::new(|c: u32| c < i),
                forall|c: u32| c < i ==> fresh_cpu(#[trigger] per_cpu@[c], c),
                forall|c: u32| c < i ==> (#[trigger] per_cpu@[c]).numa_node == 0 && per_cpu@[c].core_id == c
                    && per_cpu@[c].thread_id == 0 && per_cpu@[c].sibling == None::<CpuId>
                    && per_cpu@[c].cache@ == seq![0u32, 0u32, 0u32, 0u32],
            decreases num_cpus - i,
        {
            let mut cpu = PerCpuData::new(CpuId(i));
            if i == 0 {
                cpu.state = CpuState::Online;
            }
            per_cpu.insert(i, cpu);
            i = i + 1;
            assert(per_cpu@.dom() =~= Set::new(|c: u32| c < i));
        }
        let m = SmpManager::empty_with(per_cpu, CpuTopology::single_node(num_cpus));
        proof {
            m.per_cpu.lemma_wf();
            assert forall|c: u32| #[trigger] m@.cpus.contains_key(c) implies m@.cpu_order.contains(c) by {
                assert(m.per_cpu.key_seq().to_set().contains(c));
            }
        }
        m
    }

    /// Cpus laid out by `topology`: node, core, sibling and caches are taken from it.
    pub fn with_topology(num_cpus: u32, topology: CpuTopology) -> (m: Self)
        requires
            topology.wf(),
        ensures
            m.wf(),
            m@.cpus.dom() == Set::new(|c: u32| c < num_cpus),
            forall|c: u32| c < num_cpus ==> fresh_cpu(#[trigger] m@.cpus[c], c),
            forall|c: u32| c < num_cpus ==> (#[trigger] m@.cpus[c]).numa_node == (if topology.cpu_to_node@.contains_key(c) {
                topology.cpu_to_node@[c]
            } else {
                0
            }),
            forall|c: u32| c < num_cpus ==> (#[trigger] m@.cpus[c]).core_id == (if topology.cpu_to_core@.contains_key(c) {
                topology.cpu_to_core@[c]
            } else {
                c
            }),
            forall|c: u32| c < num_cpus ==> (#[trigger] m@.cpus[c]).sibling == (if topology.siblings@.contains_key(c) {
                Some(CpuId(topology.siblings@[c]))
            } else {
                None
            }),
            forall|c: u32| c < num_cpus ==> (#[trigger] m@.cpus[c]).thread_id == (if topology.siblings@.contains_key(c) && c % 2 == 1 {
                1u32
            } else {
                0u32
            }),
            forall|c: u32| c < num_cpus ==> (#[trigger] m@.cpus[c]).cache@ == (if topology.cache_topology@.contains_key(c) {
                topology.cache_topology@[c]@
            } else {
                seq![0u32, 0u32, 0u32, 0u32]
            }),
            m@.topology == topology,
            m@.tasks == Map::<u32, TaskSmpInfo>::empty(),
            m@.ipis == Seq::<IpiMessage>::empty(),
            m@.barriers == Map::<u32, SmpBarrier>::empty(),
            m@.domains == Map::<u32, SchedDomain>::empty(),
            m@.next_barrier_id == 1,
            m@.next_domain_id == 1,
            m@.total_migrations == 0,
            m@.total_ipis == 0,
            m@.total_balances == 0,
    {
        let mut per_cpu: IdMap<PerCpuData> = IdMap::new();
        let mut i: u32 = 0;
        while i < num_cpus
            invariant
                i <= num_cpus,
                topology.wf(),
                per_cpu.wf(),
                per_cpu@.dom() == Set::new(|c: u32| c < i),
                forall|c: u32| c < i ==> fresh_cpu(#[trigger] per_cpu@[c], c),
                forall|c: u32| c < i ==> (#[trigger] per_cpu@[c]).numa_node == (if topology.cpu_to_node@.contains_key(c) {
                    topology.cpu_to_node@[c]
                } else {
                    0
                }),
                forall|c: u32| c < i ==> (#[trigger] per_cpu@[c]).core_id == (if topology.cpu_to_core@.contains_key(c) {
                    topology.cpu_to_core@[c]
                } else {
                    c
                }),
                forall|c: u32| c < i ==> (#[trigger] per_cpu@[c]).sibling == (if topology.siblings@.contains_key(c) {
                    Some(CpuId(topology.siblings@[c]))
                } else {
                    None
                }),
                forall|c: u32| c < i ==> (#[trigger] per_cpu@[c]).thread_id == (if topology.siblings@.contains_key(c) && c % 2 == 1 {
                    1u32
                } else {
                    0u32
                }),
                forall|c: u32| c < i ==> (#[trigger] per_cpu@[c]).cache@ == (if topology.cache_topology@.contains_key(c) {
                    topology.cache_topology@[c]@
                } else {
                    seq![0u32, 0u32, 0u32, 0u32]
                }),
            decreases num_cpus - i,
        {
            let mut cpu = PerCpuData::new(CpuId(i));
            if i == 0 {
                cpu.state = CpuState::Online;
            }
            cpu.numa_node = match topology.get_node(i) {
                Some(n) => n,
                None => 0,
            };
            cpu.core_id = match topology.get_core(i) {
                Some(c) => c,
                None => i,
            };
            match topology.get_sibling(i) {
                Some(sibling) => {
                    cpu.sibling = Some(CpuId(sibling));
                    cpu.thread_id = if i % 2 == 0 { 0 } else { 1 };
                },
                None => {},
            }
            match topology.cache_topology.get(i) {
                Some(cache) => {
                    cpu.cache = *cache;
                },
                None => {},
            }
            per_cpu.insert(i, cpu);
            i = i + 1;
            assert(per_cpu@.dom() =~= Set::new(|c: u32| c < i));
        }
        let m = SmpManager::empty_with(per_cpu, topology);
        proof {
            m.per_cpu.lemma_wf();
            assert forall|c: u32| #[trigger] m@.cpus.contains_key(c) implies m@.cpu_order.contains(c) by {
                assert(m.per_cpu.key_seq().to_set().contains(c));
            }
        }
        m
    }
}

/// Strictly increasing.
pub open spec fn sorted_keys_u32(s: Seq<u32>) -> bool {
    forall|i: int, j: int| 0 <= i < j < s.len() ==> s[i] < s[j]
}


/// `n` is queue `q` after `dequeue(pid)`.
pub open spec fn rq_dequeued(q: RunQueue, n: RunQueue, pid: u32) -> bool {
    &&& n.tasks@ == q.tasks@.filter(not_task(pid))
    &&& n.current_pid == if q.tasks@.contains(pid) && q.current_pid == Some(pid) {
        None
    } else {
        q.current_pid
    }
    &&& n.cpu_id == q.cpu_id
    &&& n.weight == q.weight
    &&& n.quantum_remaining == q.quantum_remaining
    &&& n.quantum_length == q.quantum_length
}

/// `n` is queue `q` after `enqueue(pid, weight)`.
pub open spec fn rq_enqueued(q: RunQueue, n: RunQueue, pid: u32, weight: u32) -> bool {
    &&& n.tasks@ == if q.tasks@.contains(pid) { q.tasks@ } else { q.tasks@.push(pid) }
    &&& n.weight == if q.tasks@.contains(pid) { q.weight } else { wrap_add32(q.weight, weight) }
    &&& n.current_pid == q.current_pid
    &&& n.cpu_id == q.cpu_id
    &&& n.quantum_remaining == q.quantum_remaining
    &&& n.quantum_length == q.quantum_length
}

/// The manager after cpu `c`'s data is replaced by `d`.
pub open spec fn with_cpu(v: SmpView, c: u32, d: PerCpuData) -> SmpView {
    SmpView { cpus: v.cpus.insert(c, d), ..v }
}

/// The manager after task `pid`'s data is replaced by `t`.
pub open spec fn with_task(v: SmpView, pid: u32, t: TaskSmpInfo) -> SmpView {
    SmpView { tasks: v.tasks.insert(pid, t), ..v }
}

/// The reason `migrate_task(pid, from, to)` fails on `v`, if it does.
pub open spec fn migrate_error(v: SmpView, pid: u32, from: CpuId, to: CpuId) -> Option<SmpError> {
    if from == to {
        None
    } else if !v.cpus.contains_key(to.0) {
        Some(SmpError::CpuNotFound)
    } else if v.cpus[to.0].state != CpuState::Online {
        Some(SmpError::CpuOffline)
    } else if !v.tasks.contains_key(pid) {
        Some(SmpError::TaskNotFound)
    } else if !v.tasks[pid].affinity.allows(to) {
        Some(SmpError::AffinityViolation)
    } else if !v.cpus.contains_key(from.0) {
        Some(SmpError::CpuNotFound)
    } else {
        None
    }
}

/// `w` is `v` after task `pid` moved from `from` to `to` (a migration that succeeds
/// with `from != to`).
pub open spec fn migrated(v: SmpView, w: SmpView, pid: u32, from: CpuId, to: CpuId) -> bool {
    let src = w.cpus[from.0];
    let dst = w.cpus[to.0];
    let t = v.tasks[pid];
    &&& rq_dequeued(v.cpus[from.0].run_queue, src.run_queue, pid)
    &&& src == PerCpuData {
        run_queue: src.run_queue,
        migrations_out: wrap_inc(v.cpus[from.0].migrations_out),
        ..v.cpus[from.0]
    }
    &&& rq_enqueued(v.cpus[to.0].run_queue, dst.run_queue, pid, t.weight)
    &&& dst == PerCpuData {
        run_queue: dst.run_queue,
        migrations_in: wrap_inc(v.cpus[to.0].migrations_in),
        ..v.cpus[to.0]
    }
    &&& w.cpus == v.cpus.insert(from.0, src).insert(to.0, dst)
    &&& w.tasks == v.tasks.insert(
        pid,
        TaskSmpInfo {
            last_cpu: Some(from),
            current_cpu: Some(to),
            migrations: wrap_inc(t.migrations),
            ..t
        },
    )
    &&& w.total_migrations == wrap_inc(v.total_migrations)
    &&& w.cpu_order == v.cpu_order
    &&& w.topology == v.topology
    &&& w.ipis == v.ipis
    &&& w.barriers == v.barriers
    &&& w.domains == v.domains
    &&& w.next_barrier_id == v.next_barrier_id
    &&& w.next_domain_id == v.next_domain_id
    &&& w.total_ipis == v.total_ipis
    &&& w.total_balances == v.total_balances
}

impl SmpManager {
    // ── CPU management ─────────────────────────────────────────

    pub fn cpu_count(&self) -> (r: usize)
        requires
            self.wf(),
        ensures
            r == self@.cpus.dom().len(),
    {
        proof {
            self.per_cpu.lemma_wf();
        }
        self.per_cpu.len()
    }

    fn cpus_where(&self, online: bool) -> (r: Vec<CpuId>)
        requires
            self.wf(),
        ensures
            r@ == as_cpu_ids(self@.cpu_order.filter(if online { online_pred(self@) } else { offline_pred(self@) })),
    {
        proof {
            self.per_cpu.lemma_wf();
        }
        let ghost p = if online { online_pred(self@) } else { offline_pred(self@) };
        let n = self.per_cpu.len();
        let mut out: Vec<CpuId> = Vec::new();
        let mut i: usize = 0;
        while i < n
            invariant
                self.wf(),
                n == self@.cpu_order.len(),
                i <= n,
                p == if online { online_pred(self@) } else { offline_pred(self@) },
                forall|j: int| 0 <= j < self@.cpu_order.len() ==> #[trigger] self@.cpus[self@.cpu_order[j]]
                    == self.per_cpu.value_seq()[j],
                out@ == as_cpu_ids(self@.cpu_order.take(i as int).filter(p)),
            decreases n - i,
        {
            proof {
                lemma_filter_take_succ(self@.cpu_order, i as int, p);
            }
            let d = self.per_cpu.value_at(i);
            let c = self.per_cpu.key_at(i);
            assert(self@.cpus[self@.cpu_order[i as int]] == *d);
            if d.is_online() == online {
                let ghost before = self@.cpu_order.take(i as int).filter(p);
                out.push(CpuId(c));
                assert(as_cpu_ids(before.push(c)) =~= as_cpu_ids(before).push(CpuId(c)));
            }
            i = i + 1;
        }
        proof {
            lemma_take_full(self@.cpu_order);
        }
        out
    }

    pub fn online_count(&self) -> (r: usize)
        requires
            self.wf(),
        ensures
            r == online_ids(self@).len(),
    {
        let v = self.cpus_where(true);
        v.len()
    }

    pub fn get_cpu(&self, cpu: CpuId) -> (r: Option<&PerCpuData>)
        requires
            self.wf(),
        ensures
            match r {
                Some(d) => self@.cpus.contains_key(cpu.0) && *d == self@.cpus[cpu.0],
                None => !self@.cpus.contains_key(cpu.0),
            },
    {
        self.per_cpu.get(cpu.raw())
    }

    pub fn get_cpu_mut(&mut self, cpu: CpuId) -> (r: Option<&mut PerCpuData>)
        requires
            old(self).wf(),
        ensures
            match r {
                Some(d) => old(self)@.cpus.contains_key(cpu.0) && *d == old(self)@.cpus[cpu.0]
                    && final(self)@ == with_cpu(old(self)@, cpu.0, *final(d)),
                None => !old(self)@.cpus.contains_key(cpu.0) && final(self)@ == old(self)@,
            },
    {
        self.per_cpu.get_mut(cpu.raw())
    }

    pub fn online_cpus(&self) -> (r: Vec<CpuId>)
        requires
            self.wf(),
        ensures
            r@ == as_cpu_ids(online_ids(self@)),
    {
        self.cpus_where(true)
    }

    pub fn offline_cpus(&self) -> (r: Vec<CpuId>)
        requires
            self.wf(),
        ensures
            r@ == as_cpu_ids(self@.cpu_order.filter(offline_pred(self@))),
    {
        self.cpus_where(false)
    }

    fn set_cpu_state(&mut self, c: u32, st: CpuState)
        requires
            old(self).wf(),
            old(self)@.cpus.contains_key(c),
        ensures
            final(self).wf(),
            final(self)@ == with_cpu(old(self)@, c, PerCpuData { state: st, ..old(self)@.cpus[c] }),
    {
        let ghost v = self@;
        match self.per_cpu.get_mut(c) {
            Some(d) => {
                d.state = st;
            },
            None => {},
        }
        proof {
            assert(self@.cpus =~= v.cpus.insert(c, PerCpuData { state: st, ..v.cpus[c] }));
            Self::lemma_cpus_same_keys(v, self@, c);
        }
    }

    // ── CPU hotplug ────────────────────────────────────────────

    /// Brings an offline or paused cpu online.
    pub fn bring_cpu_online(&mut self, cpu: CpuId) -> (r: Result<(), SmpError>)
        requires
            old(self).wf(),
        ensures
            final(self).wf(),
            r == if !old(self)@.cpus.contains_key(cpu.0) {
                Err(SmpError::CpuNotFound)
            } else {
                match old(self)@.cpus[cpu.0].state {
                    CpuState::Offline | CpuState::Paused => Ok(()),
                    CpuState::Online => Err(SmpError::AlreadyOnline),
                    CpuState::Booting => Err(SmpError::AlreadyBooting),
                    CpuState::Stopping => Err(SmpError::StillStopping),
                }
            },
            r is Ok ==> final(self)@ == with_cpu(
                old(self)@,
                cpu.0,
                PerCpuData { state: CpuState::Online, ..old(self)@.cpus[cpu.0] },
            ),
            r is Err ==> final(self)@ == old(self)@,
    {
        let st = match self.per_cpu.get(cpu.raw()) {
            Some(d) => d.state,
            None => {
                return Err(SmpError::CpuNotFound);
            },
        };
        match st {
            CpuState::Offline | CpuState::Paused => {
                self.set_cpu_state(cpu.raw(), CpuState::Online);
                Ok(())
            },
            CpuState::Online => Err(SmpError::AlreadyOnline),
            CpuState::Booting => Err(SmpError::AlreadyBooting),
            CpuState::Stopping => Err(SmpError::StillStopping),
        }
    }

    pub fn pause_cpu(&mut self, cpu: CpuId) -> (r: Result<(), SmpError>)
        requires
            old(self).wf(),
        ensures
            final(self).wf(),
            r == if !old(self)@.cpus.contains_key(cpu.0) {
                Err(SmpError::CpuNotFound)
            } else if old(self)@.cpus[cpu.0].state != CpuState::Online {
                Err(SmpError::NotOnline)
            } else {
                Ok(())
            },
            r is Ok ==> final(self)@ == with_cpu(
                old(self)@,
                cpu.0,
                PerCpuData { state: CpuState::Paused, ..old(self)@.cpus[cpu.0] },
            ),
            r is Err ==> final(self)@ == old(self)@,
    {
        let st = match self.per_cpu.get(cpu.raw()) {
            Some(d) => d.state,
            None => {
                return Err(SmpError::CpuNotFound);
            },
        };
        if st != CpuState::Online {
            return Err(SmpError::NotOnline);
        }
        self.set_cpu_state(cpu.raw(), CpuState::Paused);
        Ok(())
    }

    pub fn resume_cpu(&mut self, cpu: CpuId) -> (r: Result<(), SmpError>)
        requires
            old(self).wf(),
        ensures
            final(self).wf(),
            r == if !old(self)@.cpus.contains_key(cpu.0) {
                Err(SmpError::CpuNotFound)
            } else if old(self)@.cpus[cpu.0].state != CpuState::Paused {
                Err(SmpError::NotPaused)
            } else {
                Ok(())
            },
            r is Ok ==> final(self)@ == with_cpu(
                old(self)@,
                cpu.0,
                PerCpuData { state: CpuState::Online, ..old(self)@.cpus[cpu.0] },
            ),
            r is Err ==> final(self)@ == old(self)@,
    {
        let st = match self.per_cpu.get(cpu.raw()) {
            Some(d) => d.state,
            None => {
                return Err(SmpError::CpuNotFound);
            },
        };
        if st != CpuState::Paused {
            return Err(SmpError::NotPaused);
        }
        self.set_cpu_state(cpu.raw(), CpuState::Online);
        Ok(())
    }
}


impl SmpManager {
    proof fn lemma_cpus_same_keys(old_v: SmpView, new_v: SmpView, c: u32)
        requires
            smp_ok(old_v),
            old_v.cpus.contains_key(c),
            new_v.cpus == old_v.cpus.insert(c, new_v.cpus[c]),
            new_v.cpus[c].cpu_id == CpuId(c),
            new_v.cpu_order == old_v.cpu_order,
            new_v.topology == old_v.topology,
            new_v.barriers == old_v.barriers,
        ensures
            smp_ok(new_v),
    {
        assert forall|k: u32| #[trigger] new_v.cpus.contains_key(k) implies new_v.cpu_order.contains(k) by {
            assert(old_v.cpus.contains_key(k));
        }
        assert forall|i: int| 0 <= i < new_v.cpu_order.len() implies #[trigger] new_v.cpus.contains_key(
            new_v.cpu_order[i],
        ) by {
            assert(old_v.cpus.contains_key(old_v.cpu_order[i]));
        }
    }

    proof fn lemma_order_member(v: SmpView, x: u32)
        requires
            smp_ok(v),
            v.cpu_order.contains(x),
        ensures
            v.cpus.contains_key(x),
    {
        let k = choose|k: int| 0 <= k < v.cpu_order.len() && v.cpu_order[k] == x;
        assert(v.cpus.contains_key(v.cpu_order[k]));
    }

    proof fn lemma_cpus_untouched(old_v: SmpView, new_v: SmpView)
        requires
            smp_ok(old_v),
            new_v.cpus == old_v.cpus,
            new_v.cpu_order == old_v.cpu_order,
            new_v.topology == old_v.topology,
            new_v.barriers == old_v.barriers,
        ensures
            smp_ok(new_v),
    {
    }

    // ── Task management ────────────────────────────────────────

    /// Registers task `pid`, allowed on every cpu below `max_cpus` (soft affinity).
    pub fn register_task(&mut self, pid: u32, max_cpus: usize)
        requires
            old(self).wf(),
            max_cpus <= 0x1_0000_0000,
            max_cpus + 63 <= usize::MAX,
        ensures
            final(self).wf(),
            final(self)@ == with_task(old(self)@, pid, final(self)@.tasks[pid]),
            final(self)@.tasks[pid].pid == pid,
            final(self)@.tasks[pid].affinity.words().len() == (max_cpus + 63) / 64,
            forall|i: int| 0 <= i < final(self)@.tasks[pid].affinity.words().len()
                ==> final(self)@.tasks[pid].affinity.words()[i] == u64::MAX,
            !final(self)@.tasks[pid].affinity.is_hard(),
            final(self)@.tasks[pid].current_cpu == None::<CpuId>,
            final(self)@.tasks[pid].last_cpu == None::<CpuId>,
            final(self)@.tasks[pid].weight == DEFAULT_TASK_WEIGHT,
            final(self)@.tasks[pid].migrations == 0,
    {
        let ghost v = self@;
        self.tasks.insert(pid, TaskSmpInfo::new(pid, max_cpus));
        proof {
            Self::lemma_cpus_untouched(v, self@);
        }
    }

    /// Registers task `pid`, pinned to `cpu` (hard affinity) and placed there.
    pub fn register_task_pinned(&mut self, pid: u32, cpu: CpuId)
        requires
            old(self).wf(),
        ensures
            final(self).wf(),
            final(self)@ == with_task(old(self)@, pid, final(self)@.tasks[pid]),
            final(self)@.tasks[pid].pid == pid,
            forall|c: u32| #[trigger] final(self)@.tasks[pid].affinity.allows(CpuId(c)) == (c == cpu.0),
            final(self)@.tasks[pid].affinity.is_hard(),
            final(self)@.tasks[pid].current_cpu == Some(cpu),
            final(self)@.tasks[pid].last_cpu == None::<CpuId>,
            final(self)@.tasks[pid].weight == DEFAULT_TASK_WEIGHT,
            final(self)@.tasks[pid].migrations == 0,
    {
        let ghost v = self@;
        self.tasks.insert(pid, TaskSmpInfo::pinned(pid, cpu));
        proof {
            Self::lemma_cpus_untouched(v, self@);
        }
    }

    /// The SMP data of task `pid`.
    pub fn get_task(&self, pid: u32) -> (r: Option<&TaskSmpInfo>)
        requires
            self.wf(),
        ensures
            match r {
                Some(t) => self@.tasks.contains_key(pid) && *t == self@.tasks[pid],
                None => !self@.tasks.contains_key(pid),
            },
    {
        self.tasks.get(pid)
    }

    /// Forgets task `pid`, taking it off the run queue of the cpu it runs on.
    pub fn unregister_task(&mut self, pid: u32)
        requires
            old(self).wf(),
        ensures
            final(self).wf(),
            final(self)@.tasks == old(self)@.tasks.remove(pid),
            ({
                let v = old(self)@;
                if v.tasks.contains_key(pid) && v.tasks[pid].current_cpu is Some
                    && v.cpus.contains_key(v.tasks[pid].current_cpu.unwrap().0) {
                    let c = v.tasks[pid].current_cpu.unwrap().0;
                    &&& rq_dequeued(v.cpus[c].run_queue, final(self)@.cpus[c].run_queue, pid)
                    &&& final(self)@.cpus == v.cpus.insert(
                        c,
                        PerCpuData { run_queue: final(self)@.cpus[c].run_queue, ..v.cpus[c] },
                    )
                } else {
                    final(self)@.cpus == v.cpus
                }
            }),
            final(self)@ == (SmpView { cpus: final(self)@.cpus, tasks: final(self)@.tasks, ..old(self)@ }),
    {
        let ghost v = self@;
        let cur = match self.tasks.get(pid) {
            Some(t) => t.current_cpu,
            None => None,
        };
        match cur {
            Some(c) => match self.per_cpu.get_mut(c.raw()) {
                Some(d) => {
                    d.run_queue.dequeue(pid);
                    proof {
                        Self::lemma_cpus_same_keys(v, self@, c.0);
                    }
                },
                None => {},
            },
            None => {},
        }
        self.tasks.remove(pid);
    }

    pub fn get_task_affinity(&self, pid: u32) -> (r: Option<&CpuAffinity>)
        requires
            self.wf(),
        ensures
            match r {
                Some(a) => self@.tasks.contains_key(pid) && *a == self@.tasks[pid].affinity,
                None => !self@.tasks.contains_key(pid),
            },
    {
        match self.tasks.get(pid) {
            Some(t) => Some(&t.affinity),
            None => None,
        }
    }

    pub fn set_task_weight(&mut self, pid: u32, weight: u32) -> (r: Result<(), SmpError>)
        requires
            old(self).wf(),
        ensures
            final(self).wf(),
            r == if old(self)@.tasks.contains_key(pid) { Ok(()) } else { Err(SmpError::TaskNotFound) },
            r is Ok ==> final(self)@ == with_task(
                old(self)@,
                pid,
                TaskSmpInfo { weight, ..old(self)@.tasks[pid] },
            ),
            r is Err ==> final(self)@ == old(self)@,
    {
        let ghost v = self@;
        let r = match self.tasks.get_mut(pid) {
            Some(t) => {
                t.weight = weight;
                Ok(())
            },
            None => Err(SmpError::TaskNotFound),
        };
        proof {
            Self::lemma_cpus_untouched(v, self@);
        }
        r
    }

    // ── Scheduling ─────────────────────────────────────────────

    /// Queues task `pid` on `cpu`, which must be online, and records it as running there.
    pub fn enqueue_task(&mut self, pid: u32, cpu: CpuId) -> (r: Result<(), SmpError>)
        requires
            old(self).wf(),
        ensures
            final(self).wf(),
            r == if !old(self)@.cpus.contains_key(cpu.0) {
                Err(SmpError::CpuNotFound)
            } else if old(self)@.cpus[cpu.0].state != CpuState::Online {
                Err(SmpError::CpuOffline)
            } else if !old(self)@.tasks.contains_key(pid) {
                Err(SmpError::TaskNotFound)
            } else {
                Ok(())
            },
            r is Err ==> final(self)@ == old(self)@,
            r is Ok ==> {
                let v = old(self)@;
                let d = final(self)@.cpus[cpu.0];
                &&& rq_enqueued(v.cpus[cpu.0].run_queue, d.run_queue, pid, v.tasks[pid].weight)
                &&& final(self)@ == (SmpView {
                    cpus: v.cpus.insert(cpu.0, PerCpuData { run_queue: d.run_queue, ..v.cpus[cpu.0] }),
                    tasks: v.tasks.insert(pid, TaskSmpInfo { current_cpu: Some(cpu), ..v.tasks[pid] }),
                    ..v
                })
            },
    {
        let ghost v = self@;
        let online = match self.per_cpu.get(cpu.raw()) {
            Some(d) => d.is_online(),
            None => {
                return Err(SmpError::CpuNotFound);
            },
        };
        if !online {
            return Err(SmpError::CpuOffline);
        }
        let weight = match self.tasks.get(pid) {
            Some(t) => t.weight,
            None => {
                return Err(SmpError::TaskNotFound);
            },
        };
        match self.per_cpu.get_mut(cpu.raw()) {
            Some(d) => {
                d.run_queue.enqueue(pid, weight);
            },
            None => {},
        }
        proof {
            Self::lemma_cpus_same_keys(v, self@, cpu.0);
        }
        match self.tasks.get_mut(pid) {
            Some(t) => {
                t.current_cpu = Some(cpu);
            },
            None => {},
        }
        Ok(())
    }

    /// Takes task `pid` off the run queue of the cpu it runs on.
    pub fn dequeue_task(&mut self, pid: u32) -> (r: Result<(), SmpError>)
        requires
            old(self).wf(),
        ensures
            final(self).wf(),
            r == if !old(self)@.tasks.contains_key(pid) {
                Err(SmpError::TaskNotFound)
            } else if old(self)@.tasks[pid].current_cpu is None {
                Err(SmpError::TaskNotRunning)
            } else if !old(self)@.cpus.contains_key(old(self)@.tasks[pid].current_cpu.unwrap().0) {
                Err(SmpError::CpuNotFound)
            } else {
                Ok(())
            },
            r is Err ==> final(self)@ == old(self)@,
            r is Ok ==> {
                let v = old(self)@;
                let c = v.tasks[pid].current_cpu.unwrap().0;
                let d = final(self)@.cpus[c];
                &&& rq_dequeued(v.cpus[c].run_queue, d.run_queue, pid)
                &&& final(self)@ == (SmpView {
                    cpus: v.cpus.insert(c, PerCpuData { run_queue: d.run_queue, ..v.cpus[c] }),
                    tasks: v.tasks.insert(pid, TaskSmpInfo { current_cpu: None, ..v.tasks[pid] }),
                    ..v
                })
            },
    {
        let ghost v = self@;
        let cur = match self.tasks.get(pid) {
            Some(t) => t.current_cpu,
            None => {
                return Err(SmpError::TaskNotFound);
            },
        };
        let cpu = match cur {
            Some(c) => c,
            None => {
                return Err(SmpError::TaskNotRunning);
            },
        };
        match self.per_cpu.get_mut(cpu.raw()) {
            Some(d) => {
                d.run_queue.dequeue(pid);
            },
            None => {
                return Err(SmpError::CpuNotFound);
            },
        }
        proof {
            Self::lemma_cpus_same_keys(v, self@, cpu.0);
        }
        match self.tasks.get_mut(pid) {
            Some(t) => {
                t.current_cpu = None;
            },
            None => {},
        }
        Ok(())
    }

    /// Runs the next task of an online cpu's queue, counting a context switch.
    pub fn schedule_next(&mut self, cpu: CpuId) -> (r: Option<u32>)
        requires
            old(self).wf(),
        ensures
            final(self).wf(),
            ({
                let v = old(self)@;
                if !v.cpus.contains_key(cpu.0) || v.cpus[cpu.0].state != CpuState::Online
                    || v.cpus[cpu.0].run_queue.tasks@.len() == 0 {
                    r == None::<u32> && final(self)@ == v
                } else {
                    let q = v.cpus[cpu.0].run_queue;
                    let d = final(self)@.cpus[cpu.0];
                    &&& r == Some(q.tasks@[0])
                    &&& d.run_queue.tasks@ == q.tasks@.drop_first()
                    &&& d.run_queue == RunQueue {
                        tasks: d.run_queue.tasks,
                        current_pid: r,
                        quantum_remaining: q.quantum_length,
                        ..q
                    }
                    &&& d == PerCpuData {
                        run_queue: d.run_queue,
                        context_switches: wrap_inc(v.cpus[cpu.0].context_switches),
                        ..v.cpus[cpu.0]
                    }
                    &&& final(self)@ == with_cpu(v, cpu.0, d)
                }
            }),
    {
        let ghost v = self@;
        let r = match self.per_cpu.get_mut(cpu.raw()) {
            Some(d) => {
                if !d.is_online() {
                    None
                } else {
                    let pid = d.run_queue.next_task();
                    if pid.is_some() {
                        d.record_switch();
                    }
                    pid
                }
            },
            None => None,
        };
        proof {
            if v.cpus.contains_key(cpu.0) {
                Self::lemma_cpus_same_keys(v, self@, cpu.0);
                if v.cpus[cpu.0].state != CpuState::Online || v.cpus[cpu.0].run_queue.tasks@.len() == 0 {
                    assert(self@.cpus =~= v.cpus);
                }
            }
        }
        r
    }

    /// One timer tick on `cpu`: counts the tick (idle when the queue is empty) and
    /// reports whether the running quantum had run out; false for an unknown cpu.
    pub fn tick(&mut self, cpu: CpuId) -> (r: bool)
        requires
            old(self).wf(),
        ensures
            final(self).wf(),
            ({
                let v = old(self)@;
                if !v.cpus.contains_key(cpu.0) {
                    !r && final(self)@ == v
                } else {
                    let o = v.cpus[cpu.0];
                    let d = final(self)@.cpus[cpu.0];
                    &&& r == (o.run_queue.quantum_remaining == 0)
                    &&& d == PerCpuData {
                        ticks: wrap_inc(o.ticks),
                        idle_ticks: if o.run_queue.tasks@.len() == 0 {
                            wrap_inc(o.idle_ticks)
                        } else {
                            o.idle_ticks
                        },
                        run_queue: RunQueue {
                            quantum_remaining: if r {
                                0
                            } else {
                                (o.run_queue.quantum_remaining - 1) as u32
                            },
                            ..o.run_queue
                        },
                        ..o
                    }
                    &&& final(self)@ == with_cpu(v, cpu.0, d)
                }
            }),
    {
        let ghost v = self@;
        let r = match self.per_cpu.get_mut(cpu.raw()) {
            Some(d) => {
                let idle = d.run_queue.is_empty();
                d.record_tick(idle);
                d.run_queue.tick()
            },
            None => false,
        };
        proof {
            if v.cpus.contains_key(cpu.0) {
                Self::lemma_cpus_same_keys(v, self@, cpu.0);
            }
        }
        r
    }
}


/// Position `i` holds the first cpu of the order, among those satisfying `p`,
/// whose load is least.
pub open spec fn least_loaded_at(v: SmpView, p: spec_fn(u32) -> bool, i: int) -> bool {
    &&& 0 <= i < v.cpu_order.len()
    &&& p(v.cpu_order[i])
    &&& forall|j: int| 0 <= j < v.cpu_order.len() && p(#[trigger] v.cpu_order[j]) ==> load_of(v, v.cpu_order[i])
        <= load_of(v, v.cpu_order[j])
    &&& forall|j: int| 0 <= j < i && p(#[trigger] v.cpu_order[j]) ==> load_of(v, v.cpu_order[j]) > load_of(
        v,
        v.cpu_order[i],
    )
}

/// Position `i` holds the last cpu of the order, among those satisfying `p`,
/// whose load is greatest.
pub open spec fn most_loaded_at(v: SmpView, p: spec_fn(u32) -> bool, i: int) -> bool {
    &&& 0 <= i < v.cpu_order.len()
    &&& p(v.cpu_order[i])
    &&& forall|j: int| 0 <= j < v.cpu_order.len() && p(#[trigger] v.cpu_order[j]) ==> load_of(v, v.cpu_order[j])
        <= load_of(v, v.cpu_order[i])
    &&& forall|j: int| i < j < v.cpu_order.len() && p(#[trigger] v.cpu_order[j]) ==> load_of(v, v.cpu_order[j])
        < load_of(v, v.cpu_order[i])
}

/// Online and allowed for task `pid`.
pub open spec fn runnable_pred(v: SmpView, pid: u32) -> spec_fn(u32) -> bool {
    |c: u32| v.cpus[c].state == CpuState::Online && v.tasks[pid].affinity.allows(CpuId(c))
}

/// Idle and allowed for task `pid`.
pub open spec fn idle_for_pred(v: SmpView, pid: u32) -> spec_fn(u32) -> bool {
    |c: u32| is_idle(v, c) && v.tasks[pid].affinity.allows(CpuId(c))
}

/// The manager after a successful IPI of type `ty` from `src` to `target`.
pub open spec fn ipi_sent(v: SmpView, src: CpuId, target: u32, ty: IpiType) -> SmpView {
    let d = v.cpus[target];
    SmpView {
        cpus: v.cpus.insert(target, PerCpuData { ipi_count: wrap_inc(d.ipi_count), last_ipi: Some(ty), ..d }),
        ipis: v.ipis.push(
            IpiMessage { ipi_type: ty, source_cpu: src, target_cpu: CpuId(target), data: 0, timestamp: 0 },
        ),
        total_ipis: wrap_inc(v.total_ipis),
        ..v
    }
}

/// IPIs sent to each of `ts` in turn.
pub open spec fn ipis_sent(v: SmpView, src: CpuId, ts: Seq<u32>, ty: IpiType) -> SmpView
    decreases ts.len(),
{
    if ts.len() == 0 {
        v
    } else {
        ipi_sent(ipis_sent(v, src, ts.drop_last(), ty), src, ts.last(), ty)
    }
}

/// What sending an IPI of type `ty` to `target` returns.
pub open spec fn ipi_result(v: SmpView, target: u32, ty: IpiType) -> Result<(), SmpError> {
    if !v.cpus.contains_key(target) {
        Err(SmpError::CpuNotFound)
    } else if v.cpus[target].state != CpuState::Online && ty != IpiType::WakeUp {
        Err(SmpError::CpuOffline)
    } else {
        Ok(())
    }
}

/// Not the cpu `src`.
pub open spec fn not_cpu(src: CpuId) -> spec_fn(u32) -> bool {
    |c: u32| c != src.0
}

/// Messages of `s` addressed to `cpu`.
pub open spec fn to_cpu(cpu: CpuId) -> spec_fn(IpiMessage) -> bool {
    |m: IpiMessage| m.target_cpu == cpu
}

impl SmpManager {
    // ── Task migration ─────────────────────────────────────────

    /// Moves task `pid` from the run queue of `from` to that of `to`, which must be
    /// online and allowed by the task's affinity. Moving to the same cpu does nothing.
    pub fn migrate_task(&mut self, pid: u32, from: CpuId, to: CpuId) -> (r: Result<(), SmpError>)
        requires
            old(self).wf(),
        ensures
            final(self).wf(),
            r == match migrate_error(old(self)@, pid, from, to) {
                Some(e) => Err(e),
                None => Ok(()),
            },
            r is Err || from == to ==> final(self)@ == old(self)@,
            r is Ok && from != to ==> migrated(old(self)@, final(self)@, pid, from, to),
    {
        if from == to {
            return Ok(());
        }
        let ghost v = self@;
        let online = match self.per_cpu.get(to.raw()) {
            Some(d) => d.is_online(),
            None => {
                return Err(SmpError::CpuNotFound);
            },
        };
        if !online {
            return Err(SmpError::CpuOffline);
        }
        let weight = match self.tasks.get(pid) {
            Some(t) => {
                if !t.can_run_on(to) {
                    return Err(SmpError::AffinityViolation);
                }
                t.weight
            },
            None => {
                return Err(SmpError::TaskNotFound);
            },
        };
        match self.per_cpu.get_mut(from.raw()) {
            Some(src) => {
                src.run_queue.dequeue(pid);
                src.record_migration_out();
            },
            None => {
                return Err(SmpError::CpuNotFound);
            },
        }
        let ghost v1 = self@;
        proof {
            Self::lemma_cpus_same_keys(v, v1, from.0);
        }
        match self.per_cpu.get_mut(to.raw()) {
            Some(dst) => {
                dst.run_queue.enqueue(pid, weight);
                dst.record_migration_in();
            },
            None => {},
        }
        proof {
            Self::lemma_cpus_same_keys(v1, self@, to.0);
        }
        let ghost v2 = self@;
        match self.tasks.get_mut(pid) {
            Some(t) => {
                t.record_migration(from, to);
            },
            None => {},
        }
        self.total_migrations = self.total_migrations.wrapping_add(1);
        proof {
            Self::lemma_cpus_untouched(v2, self@);
        }
        Ok(())
    }

    // ── Load balancing ─────────────────────────────────────────

    /// The first online cpu with an empty run queue.
    pub fn find_idle_cpu(&self) -> (r: Option<CpuId>)
        requires
            self.wf(),
        ensures
            r == match first_idle(self@) {
                Some(c) => Some(CpuId(c)),
                None => None::<CpuId>,
            },
    {
        proof {
            self.per_cpu.lemma_wf();
        }
        let n = self.per_cpu.len();
        let mut i: usize = 0;
        while i < n
            invariant
                self.wf(),
                n == self@.cpu_order.len(),
                i <= n,
                forall|j: int| 0 <= j < self@.cpu_order.len() ==> #[trigger] self@.cpus[self@.cpu_order[j]]
                    == self.per_cpu.value_seq()[j],
                forall|j: int| 0 <= j < i ==> !idle_pred(self@)(#[trigger] self@.cpu_order[j]),
            decreases n - i,
        {
            let d = self.per_cpu.value_at(i);
            assert(self@.cpus[self@.cpu_order[i as int]] == *d);
            assert(self@.cpus.contains_key(self@.cpu_order[i as int]));
            if d.is_online() && d.run_queue.is_empty() {
                proof {
                    lemma_first_with(self@.cpu_order, idle_pred(self@), i as int);
                }
                return Some(CpuId(self.per_cpu.key_at(i)));
            }
            i = i + 1;
        }
        proof {
            lemma_none_with(self@.cpu_order, idle_pred(self@));
        }
        None
    }

    /// A cpu for task `pid`: the first idle cpu its affinity allows, else the
    /// least loaded allowed online cpu (the first of equals); none for an unknown task.
    pub fn find_cpu_for_task(&self, pid: u32) -> (r: Option<CpuId>)
        requires
            self.wf(),
        ensures
            !self@.tasks.contains_key(pid) ==> r == None::<CpuId>,
            self@.tasks.contains_key(pid) && first_cpu_with(self@.cpu_order, idle_for_pred(self@, pid)) is Some
                ==> r == Some(CpuId(first_cpu_with(self@.cpu_order, idle_for_pred(self@, pid))->0)),
            self@.tasks.contains_key(pid) && first_cpu_with(self@.cpu_order, idle_for_pred(self@, pid)) is None
                ==> match r {
                Some(c) => exists|i: int|
                    #![trigger self@.cpu_order[i]]
                    least_loaded_at(self@, runnable_pred(self@, pid), i) && self@.cpu_order[i] == c.0,
                None => forall|j: int|
                    0 <= j < self@.cpu_order.len() ==> !runnable_pred(self@, pid)(#[trigger] self@.cpu_order[j]),
            },
            r == match cpu_for_task(self@, pid) {
                Some(c) => Some(CpuId(c)),
                None => None::<CpuId>,
            },
    {
        proof {
            self.per_cpu.lemma_wf();
        }
        let task = match self.tasks.get(pid) {
            Some(t) => t,
            None => {
                return None;
            },
        };
        let n = self.per_cpu.len();
        let mut i: usize = 0;
        while i < n
            invariant
                self.wf(),
                self@.tasks.contains_key(pid),
                *task == self@.tasks[pid],
                n == self@.cpu_order.len(),
                i <= n,
                forall|j: int| 0 <= j < self@.cpu_order.len() ==> #[trigger] self@.cpus[self@.cpu_order[j]]
                    == self.per_cpu.value_seq()[j],
                forall|j: int| 0 <= j < i ==> !idle_for_pred(self@, pid)(#[trigger] self@.cpu_order[j]),
            decreases n - i,
        {
            let d = self.per_cpu.value_at(i);
            assert(self@.cpus[self@.cpu_order[i as int]] == *d);
            assert(self@.cpus.contains_key(self@.cpu_order[i as int]));
            if d.is_online() && d.run_queue.is_empty() && task.can_run_on(d.cpu_id) {
                proof {
                    lemma_first_with(self@.cpu_order, idle_for_pred(self@, pid), i as int);
                }
                return Some(d.cpu_id);
            }
            i = i + 1;
        }
        proof {
            lemma_none_with(self@.cpu_order, idle_for_pred(self@, pid));
        }
        let ghost p = runnable_pred(self@, pid);
        let mut best: Option<(CpuId, u32, usize)> = None;
        let mut k: usize = 0;
        while k < n
            invariant
                self.wf(),
                self@.tasks.contains_key(pid),
                *task == self@.tasks[pid],
                p == runnable_pred(self@, pid),
                n == self@.cpu_order.len(),
                k <= n,
                forall|j: int| 0 <= j < self@.cpu_order.len() ==> #[trigger] self@.cpus[self@.cpu_order[j]]
                    == self.per_cpu.value_seq()[j],
                match best {
                    Some((c, l, bi)) => {
                        &&& bi < k
                        &&& p(self@.cpu_order[bi as int])
                        &&& c == CpuId(self@.cpu_order[bi as int])
                        &&& l == load_of(self@, self@.cpu_order[bi as int])
                        &&& forall|j: int| 0 <= j < k && p(#[trigger] self@.cpu_order[j]) ==> l <= load_of(self@, self@.cpu_order[j])
                        &&& forall|j: int| 0 <= j < bi && p(#[trigger] self@.cpu_order[j]) ==> load_of(self@, self@.cpu_order[j]) > l
                    },
                    None => forall|j: int| 0 <= j < k ==> !p(#[trigger] self@.cpu_order[j]),
                },
            decreases n - k,
        {
            let d = self.per_cpu.value_at(k);
            assert(self@.cpus[self@.cpu_order[k as int]] == *d);
            assert(self@.cpus.contains_key(self@.cpu_order[k as int]));
            if d.is_online() && task.can_run_on(d.cpu_id) {
                let load = d.load();
                let better = match best {
                    Some((_, l, _)) => load < l,
                    None => true,
                };
                if better {
                    best = Some((d.cpu_id, load, k));
                }
            }
            k = k + 1;
        }
        match best {
            Some((c, _, bi)) => {
                assert(least_loaded_at(self@, p, bi as int));
                proof {
                    lemma_least_loaded(self@, p, bi as int);
                }
                Some(c)
            },
            None => None,
        }
    }

    /// The last online cpu with the greatest load.
    pub fn max_load_cpu(&self) -> (r: Option<CpuId>)
        requires
            self.wf(),
        ensures
            match r {
                Some(c) => exists|i: int|
                    #![trigger self@.cpu_order[i]]
                    most_loaded_at(self@, online_pred(self@), i) && self@.cpu_order[i] == c.0,
                None => forall|j: int| 0 <= j < self@.cpu_order.len() ==> !online_pred(self@)(#[trigger] self@.cpu_order[j]),
            },
            r == match most_loaded(self@, online_pred(self@)) {
                Some(c) => Some(CpuId(c)),
                None => None::<CpuId>,
            },
    {
        proof {
            self.per_cpu.lemma_wf();
        }
        let ghost p = online_pred(self@);
        let n = self.per_cpu.len();
        let mut best: Option<(CpuId, u32, usize)> = None;
        let mut k: usize = 0;
        while k < n
            invariant
                self.wf(),
                p == online_pred(self@),
                n == self@.cpu_order.len(),
                k <= n,
                forall|j: int| 0 <= j < self@.cpu_order.len() ==> #[trigger] self@.cpus[self@.cpu_order[j]]
                    == self.per_cpu.value_seq()[j],
                match best {
                    Some((c, l, bi)) => {
                        &&& bi < k
                        &&& p(self@.cpu_order[bi as int])
                        &&& c == CpuId(self@.cpu_order[bi as int])
                        &&& l == load_of(self@, self@.cpu_order[bi as int])
                        &&& forall|j: int| 0 <= j < k && p(#[trigger] self@.cpu_order[j]) ==> load_of(self@, self@.cpu_order[j]) <= l
                        &&& forall|j: int| bi < j < k && p(#[trigger] self@.cpu_order[j]) ==> load_of(self@, self@.cpu_order[j]) < l
                    },
                    None => forall|j: int| 0 <= j < k ==> !p(#[trigger] self@.cpu_order[j]),
                },
            decreases n - k,
        {
            let d = self.per_cpu.value_at(k);
            assert(self@.cpus[self@.cpu_order[k as int]] == *d);
            assert(self@.cpus.contains_key(self@.cpu_order[k as int]));
            if d.is_online() {
                let load = d.load();
                let better = match best {
                    Some((_, l, _)) => load >= l,
                    None => true,
                };
                if better {
                    best = Some((d.cpu_id, load, k));
                }
            }
            k = k + 1;
        }
        match best {
            Some((c, _, bi)) => {
                assert(most_loaded_at(self@, p, bi as int));
                proof {
                    lemma_most_loaded(self@, p, bi as int);
                }
                Some(c)
            },
            None => None,
        }
    }

    /// The first online cpu with the least load.
    pub fn min_load_cpu(&self) -> (r: Option<CpuId>)
        requires
            self.wf(),
        ensures
            match r {
                Some(c) => exists|i: int|
                    #![trigger self@.cpu_order[i]]
                    least_loaded_at(self@, online_pred(self@), i) && self@.cpu_order[i] == c.0,
                None => forall|j: int| 0 <= j < self@.cpu_order.len() ==> !online_pred(self@)(#[trigger] self@.cpu_order[j]),
            },
            r == match least_loaded(self@, online_pred(self@)) {
                Some(c) => Some(CpuId(c)),
                None => None::<CpuId>,
            },
    {
        proof {
            self.per_cpu.lemma_wf();
        }
        let ghost p = online_pred(self@);
        let n = self.per_cpu.len();
        let mut best: Option<(CpuId, u32, usize)> = None;
        let mut k: usize = 0;
        while k < n
            invariant
                self.wf(),
                p == online_pred(self@),
                n == self@.cpu_order.len(),
                k <= n,
                forall|j: int| 0 <= j < self@.cpu_order.len() ==> #[trigger] self@.cpus[self@.cpu_order[j]]
                    == self.per_cpu.value_seq()[j],
                match best {
                    Some((c, l, bi)) => {
                        &&& bi < k
                        &&& p(self@.cpu_order[bi as int])
                        &&& c == CpuId(self@.cpu_order[bi as int])
                        &&& l == load_of(self@, self@.cpu_order[bi as int])
                        &&& forall|j: int| 0 <= j < k && p(#[trigger] self@.cpu_order[j]) ==> l <= load_of(self@, self@.cpu_order[j])
                        &&& forall|j: int| 0 <= j < bi && p(#[trigger] self@.cpu_order[j]) ==> load_of(self@, self@.cpu_order[j]) > l
                    },
                    None => forall|j: int| 0 <= j < k ==> !p(#[trigger] self@.cpu_order[j]),
                },
            decreases n - k,
        {
            let d = self.per_cpu.value_at(k);
            assert(self@.cpus[self@.cpu_order[k as int]] == *d);
            assert(self@.cpus.contains_key(self@.cpu_order[k as int]));
            if d.is_online() {
                let load = d.load();
                let better = match best {
                    Some((_, l, _)) => load < l,
                    None => true,
                };
                if better {
                    best = Some((d.cpu_id, load, k));
                }
            }
            k = k + 1;
        }
        match best {
            Some((c, _, bi)) => {
                assert(least_loaded_at(self@, p, bi as int));
                proof {
                    lemma_least_loaded(self@, p, bi as int);
                }
                Some(c)
            },
            None => None,
        }
    }
}


impl SmpManager {
    // ── IPIs ───────────────────────────────────────────────────

    /// Queues an IPI for `target`, which must be online unless the IPI wakes it up.
    pub fn send_ipi(&mut self, source: CpuId, target: CpuId, ipi_type: IpiType) -> (r: Result<(), SmpError>)
        requires
            old(self).wf(),
        ensures
            final(self).wf(),
            r == ipi_result(old(self)@, target.0, ipi_type),
            r is Ok ==> final(self)@ == ipi_sent(old(self)@, source, target.0, ipi_type),
            r is Err ==> final(self)@ == old(self)@,
    {
        let ghost v = self@;
        let online = match self.per_cpu.get(target.raw()) {
            Some(d) => d.is_online(),
            None => {
                return Err(SmpError::CpuNotFound);
            },
        };
        if !online && ipi_type != IpiType::WakeUp {
            return Err(SmpError::CpuOffline);
        }
        let msg = IpiMessage { ipi_type, source_cpu: source, target_cpu: target, data: 0, timestamp: 0 };
        self.ipi_queue.push(msg);
        self.total_ipis = self.total_ipis.wrapping_add(1);
        let ghost v1 = self@;
        proof {
            Self::lemma_cpus_untouched(v, v1);
        }
        match self.per_cpu.get_mut(target.raw()) {
            Some(d) => {
                d.record_ipi(ipi_type);
            },
            None => {},
        }
        proof {
            Self::lemma_cpus_same_keys(v1, self@, target.0);
        }
        Ok(())
    }

    /// Sends an IPI to every online cpu but `source`, in ascending order.
    pub fn send_ipi_all(&mut self, source: CpuId, ipi_type: IpiType) -> (r: Vec<(CpuId, Result<(), SmpError>)>)
        requires
            old(self).wf(),
        ensures
            final(self).wf(),
            r@ == online_ids(old(self)@).filter(not_cpu(source)).map_values(
                |c: u32| (CpuId(c), Ok::<(), SmpError>(())),
            ),
            final(self)@ == ipis_sent(old(self)@, source, online_ids(old(self)@).filter(not_cpu(source)), ipi_type),
    {
        let ghost v = self@;
        let targets = self.online_cpus();
        let ghost ts = online_ids(v);
        let mut results: Vec<(CpuId, Result<(), SmpError>)> = Vec::new();
        let mut i: usize = 0;
        while i < targets.len()
            invariant
                self.wf(),
                targets@ == as_cpu_ids(ts),
                ts == online_ids(v),
                smp_ok(v),
                i <= targets@.len(),
                self@ == ipis_sent(v, source, ts.take(i as int).filter(not_cpu(source)), ipi_type),
                self@.cpus.dom() == v.cpus.dom(),
                forall|c: u32| #[trigger] v.cpus.contains_key(c) ==> self@.cpus[c].state == v.cpus[c].state,
                results@ == ts.take(i as int).filter(not_cpu(source)).map_values(
                    |c: u32| (CpuId(c), Ok::<(), SmpError>(())),
                ),
            decreases targets@.len() - i,
        {
            proof {
                lemma_filter_take_succ(ts, i as int, not_cpu(source));
                v.cpu_order.lemma_filter_pred(online_pred(v), i as int);
                assert(ts.contains(ts[i as int]));
                v.cpu_order.lemma_filter_contains_rev(online_pred(v), ts[i as int]);
                Self::lemma_order_member(v, ts[i as int]);
            }
            let target = targets[i];
            if target != source {
                let ghost before = self@;
                let res = self.send_ipi(source, target, ipi_type);
                assert(res is Ok);
                let ghost pre = ts.take(i as int).filter(not_cpu(source));
                results.push((target, res));
                assert(pre.push(target.0).map_values(|c: u32| (CpuId(c), Ok::<(), SmpError>(())))
                    =~= pre.map_values(|c: u32| (CpuId(c), Ok::<(), SmpError>(()))).push((target, res)));
                assert(pre.push(target.0).drop_last() =~= pre);
            }
            i = i + 1;
        }
        proof {
            lemma_take_full(ts);
        }
        results
    }
}


/// The cpu numbers of a list of per-cpu results.
pub open spec fn result_ids(r: Seq<(CpuId, Result<(), SmpError>)>) -> Seq<u32> {
    r.map_values(|p: (CpuId, Result<(), SmpError>)| p.0.0)
}

/// Sending an IPI of type `ty` to the cpu succeeds.
pub open spec fn ipi_ok(v: SmpView, ty: IpiType) -> spec_fn(u32) -> bool {
    |c: u32| ipi_result(v, c, ty) is Ok
}

/// Some cpu of `mask` other than `source` and below `c` can take an IPI of type `ty`.
pub open spec fn lower_reachable(v: SmpView, mask: CpuAffinity, source: CpuId, ty: IpiType, c: u32) -> bool {
    exists|c2: u32| c2 < c && mask.allows(CpuId(c2)) && c2 != source.0 && #[trigger] ipi_ok(v, ty)(c2)
}

/// Some target before position `i` of `ts`, other than `source` and below `c`,
/// can take an IPI of type `ty`.
pub open spec fn reached_before(v: SmpView, ts: Seq<CpuId>, source: CpuId, ty: IpiType, i: int, c: u32) -> bool {
    exists|k: int| 0 <= k < i && #[trigger] ts[k].0 < c && ts[k].0 != source.0 && ipi_ok(v, ty)(ts[k].0)
}

impl SmpManager {
    /// Sends an IPI to the cpus of `mask` but `source` in ascending order, as a
    /// lowest-priority delivery: the first cpu that can take it gets it, and the
    /// cpus after it that can take it are left out. Every cpu of the mask that
    /// cannot take it is listed with its error.
    pub fn send_ipi_mask(&mut self, source: CpuId, mask: &CpuAffinity, ipi_type: IpiType) -> (r: Vec<(CpuId, Result<(), SmpError>)>)
        requires
            old(self).wf(),
            mask.wf(),
        ensures
            final(self).wf(),
            forall|i: int, j: int| 0 <= i < j < r@.len() ==> r@[i].0.0 < r@[j].0.0,
            forall|c: u32| #[trigger] result_ids(r@).contains(c) == (mask.allows(CpuId(c)) && c != source.0 && (
                !ipi_ok(old(self)@, ipi_type)(c) || !lower_reachable(old(self)@, *mask, source, ipi_type, c))),
            forall|i: int| 0 <= i < r@.len() ==> #[trigger] r@[i].1 == ipi_result(old(self)@, r@[i].0.0, ipi_type),
            final(self)@ == ipis_sent(old(self)@, source, result_ids(r@).filter(ipi_ok(old(self)@, ipi_type)), ipi_type),
    {
        let ghost v = self@;
        let targets = mask.cpus();
        let mut results: Vec<(CpuId, Result<(), SmpError>)> = Vec::new();
        let mut delivered = false;
        assert(result_ids(results@) =~= Seq::<u32>::empty());
        let mut i: usize = 0;
        while i < targets.len()
            invariant
                self.wf(),
                i <= targets@.len(),
                forall|a: int, b: int| 0 <= a < b < targets@.len() ==> targets@[a].0 < targets@[b].0,
                forall|c: u32| targets@.contains(CpuId(c)) == #[trigger] mask.allows(CpuId(c)),
                forall|a: int, b: int| 0 <= a < b < results@.len() ==> results@[a].0.0 < results@[b].0.0,
                forall|a: int| 0 <= a < results@.len() && i < targets@.len() ==> results@[a].0.0 < targets@[i as int].0,
                delivered == exists|k: int| 0 <= k < i && targets@[k].0 != source.0 && #[trigger] ipi_ok(v, ipi_type)(targets@[k].0),
                forall|c: u32| #[trigger] result_ids(results@).contains(c) == ((exists|k: int| 0 <= k < i && targets@[k] == CpuId(c)) && c != source.0
                    && (!ipi_ok(v, ipi_type)(c) || !reached_before(v, targets@, source, ipi_type, i as int, c))),
                forall|a: int| 0 <= a < results@.len() ==> #[trigger] results@[a].1 == ipi_result(v, results@[a].0.0, ipi_type),
                self@ == ipis_sent(v, source, result_ids(results@).filter(ipi_ok(v, ipi_type)), ipi_type),
                self@.cpus.dom() == v.cpus.dom(),
                forall|c: u32| #[trigger] v.cpus.contains_key(c) ==> self@.cpus[c].state == v.cpus[c].state,
            decreases targets@.len() - i,
        {
            let target = targets[i];
            let ghost before = results@;
            proof {
                assert forall|c: u32| c != target.0 implies
                    reached_before(v, targets@, source, ipi_type, i + 1, c) == (reached_before(v, targets@, source, ipi_type, i as int, c)
                        || (target.0 < c && target.0 != source.0 && ipi_ok(v, ipi_type)(target.0))) by {
                    if reached_before(v, targets@, source, ipi_type, i + 1, c) {
                        let k = choose|k: int| 0 <= k < i + 1 && #[trigger] targets@[k].0 < c && targets@[k].0 != source.0 && ipi_ok(v, ipi_type)(targets@[k].0);
                        if k < i {
                            assert(reached_before(v, targets@, source, ipi_type, i as int, c));
                        }
                    }
                    if reached_before(v, targets@, source, ipi_type, i as int, c) {
                        let k = choose|k: int| 0 <= k < i && #[trigger] targets@[k].0 < c && targets@[k].0 != source.0 && ipi_ok(v, ipi_type)(targets@[k].0);
                        assert(targets@[k].0 < c);
                    }
                    if target.0 < c && target.0 != source.0 && ipi_ok(v, ipi_type)(target.0) {
                        assert(targets@[i as int].0 < c);
                    }
                }
                assert(reached_before(v, targets@, source, ipi_type, i as int, target.0) == delivered) by {
                    if delivered {
                        let k = choose|k: int| 0 <= k < i && targets@[k].0 != source.0 && #[trigger] ipi_ok(v, ipi_type)(targets@[k].0);
                        assert(targets@[k].0 < targets@[i as int].0);
                    }
                    if reached_before(v, targets@, source, ipi_type, i as int, target.0) {
                        let k = choose|k: int| 0 <= k < i && #[trigger] targets@[k].0 < target.0 && targets@[k].0 != source.0 && ipi_ok(v, ipi_type)(targets@[k].0);
                        assert(ipi_ok(v, ipi_type)(targets@[k].0));
                    }
                }
                assert(!reached_before(v, targets@, source, ipi_type, i + 1, target.0) == !delivered) by {
                    if reached_before(v, targets@, source, ipi_type, i + 1, target.0) {
                        let k = choose|k: int| 0 <= k < i + 1 && #[trigger] targets@[k].0 < target.0 && targets@[k].0 != source.0 && ipi_ok(v, ipi_type)(targets@[k].0);
                        assert(k != i);
                        assert(reached_before(v, targets@, source, ipi_type, i as int, target.0));
                    }
                    if reached_before(v, targets@, source, ipi_type, i as int, target.0) {
                        let k = choose|k: int| 0 <= k < i && #[trigger] targets@[k].0 < target.0 && targets@[k].0 != source.0 && ipi_ok(v, ipi_type)(targets@[k].0);
                        assert(targets@[k].0 < target.0);
                    }
                }
                assert(delivered == exists|k: int| 0 <= k < i && targets@[k].0 != source.0 && #[trigger] ipi_ok(v, ipi_type)(targets@[k].0));
            }
            if target != source {
                let would = match self.per_cpu.get(target.raw()) {
                    Some(d) => d.is_online() || ipi_type == IpiType::WakeUp,
                    None => false,
                };
                assert(would == ipi_ok(v, ipi_type)(target.0));
                if !would || !delivered {
                    let res = self.send_ipi(source, target, ipi_type);
                    assert(res == ipi_result(v, target.0, ipi_type));
                    results.push((target, res));
                    proof {
                        assert(result_ids(results@) =~= result_ids(before).push(target.0));
                        lemma_filter_push_u32(result_ids(before), target.0, ipi_ok(v, ipi_type));
                        let f = result_ids(before).filter(ipi_ok(v, ipi_type));
                        assert(f.push(target.0).drop_last() =~= f);
                    }
                    if would {
                        delivered = true;
                    }
                }
                proof {
                    assert forall|c: u32| #[trigger] result_ids(results@).contains(c) == ((exists|k: int| 0 <= k < i + 1 && targets@[k] == CpuId(c)) && c != source.0
                        && (!ipi_ok(v, ipi_type)(c) || !reached_before(v, targets@, source, ipi_type, i + 1, c))) by {
                        if result_ids(results@) != result_ids(before) {
                            vstd::seq_lib::lemma_seq_contains_after_push(result_ids(before), target.0, c);
                        }
                        if exists|k: int| 0 <= k < i + 1 && targets@[k] == CpuId(c) {
                            let k = choose|k: int| 0 <= k < i + 1 && targets@[k] == CpuId(c);
                            if k < i {
                                assert(exists|k2: int| 0 <= k2 < i && targets@[k2] == CpuId(c));
                                assert(targets@[k].0 < target.0);
                            }
                        }
                        if c == target.0 {
                            assert(targets@[i as int] == CpuId(c));
                            if exists|k: int| 0 <= k < i && targets@[k] == CpuId(c) {
                                let k = choose|k: int| 0 <= k < i && targets@[k] == CpuId(c);
                                assert(targets@[k].0 < targets@[i as int].0);
                            }
                        }
                    }
                    assert(delivered == exists|k: int| 0 <= k < i + 1 && targets@[k].0 != source.0 && #[trigger] ipi_ok(v, ipi_type)(targets@[k].0)) by {
                        if exists|k: int| 0 <= k < i + 1 && targets@[k].0 != source.0 && #[trigger] ipi_ok(v, ipi_type)(targets@[k].0) {
                            let k = choose|k: int| 0 <= k < i + 1 && targets@[k].0 != source.0 && #[trigger] ipi_ok(v, ipi_type)(targets@[k].0);
                            if k < i {
                                assert(exists|k2: int| 0 <= k2 < i && targets@[k2].0 != source.0 && #[trigger] ipi_ok(v, ipi_type)(targets@[k2].0));
                            }
                        }
                    }
                }
            } else {
                proof {
                    assert forall|c: u32| #[trigger] result_ids(results@).contains(c) == ((exists|k: int| 0 <= k < i + 1 && targets@[k] == CpuId(c)) && c != source.0
                        && (!ipi_ok(v, ipi_type)(c) || !reached_before(v, targets@, source, ipi_type, i + 1, c))) by {
                        if exists|k: int| 0 <= k < i + 1 && targets@[k] == CpuId(c) {
                            let k = choose|k: int| 0 <= k < i + 1 && targets@[k] == CpuId(c);
                            if k < i {
                                assert(exists|k2: int| 0 <= k2 < i && targets@[k2] == CpuId(c));
                            }
                        }
                    }
                    assert(delivered == exists|k: int| 0 <= k < i + 1 && targets@[k].0 != source.0 && #[trigger] ipi_ok(v, ipi_type)(targets@[k].0)) by {
                        if exists|k: int| 0 <= k < i + 1 && targets@[k].0 != source.0 && #[trigger] ipi_ok(v, ipi_type)(targets@[k].0) {
                            let k = choose|k: int| 0 <= k < i + 1 && targets@[k].0 != source.0 && #[trigger] ipi_ok(v, ipi_type)(targets@[k].0);
                            if k < i {
                                assert(exists|k2: int| 0 <= k2 < i && targets@[k2].0 != source.0 && #[trigger] ipi_ok(v, ipi_type)(targets@[k2].0));
                            }
                        }
                    }
                }
            }
            i = i + 1;
        }
        assert forall|c: u32| #[trigger] result_ids(results@).contains(c) == (mask.allows(CpuId(c)) && c != source.0 && (
            !ipi_ok(v, ipi_type)(c) || !lower_reachable(v, *mask, source, ipi_type, c))) by {
            if mask.allows(CpuId(c)) {
                assert(targets@.contains(CpuId(c)));
            }
            if lower_reachable(v, *mask, source, ipi_type, c) {
                let c2 = choose|c2: u32| c2 < c && mask.allows(CpuId(c2)) && c2 != source.0 && #[trigger] ipi_ok(v, ipi_type)(c2);
                assert(targets@.contains(CpuId(c2)));
                let k = choose|k: int| 0 <= k < targets@.len() && targets@[k] == CpuId(c2);
                assert(targets@[k].0 < c);
                assert(reached_before(v, targets@, source, ipi_type, targets@.len() as int, c));
            }
            if reached_before(v, targets@, source, ipi_type, targets@.len() as int, c) {
                let k = choose|k: int| 0 <= k < targets@.len() && #[trigger] targets@[k].0 < c && targets@[k].0 != source.0 && ipi_ok(v, ipi_type)(targets@[k].0);
                assert(targets@.contains(targets@[k]));
                assert(targets@[k] == CpuId(targets@[k].0));
                assert(mask.allows(CpuId(targets@[k].0)));
                assert(ipi_ok(v, ipi_type)(targets@[k].0));
            }
        }
        results
    }

    /// Every IPI sent so far.
    pub fn pending_ipis(&self) -> (r: Vec<IpiMessage>)
        requires
            self.wf(),
        ensures
            r@ == self@.ipis,
    {
        let mut out: Vec<IpiMessage> = Vec::new();
        let mut i: usize = 0;
        while i < self.ipi_queue.len()
            invariant
                i <= self.ipi_queue@.len(),
                out@ == self.ipi_queue@.take(i as int),
            decreases self.ipi_queue@.len() - i,
        {
            out.push(self.ipi_queue[i]);
            i = i + 1;
            assert(out@ =~= self.ipi_queue@.take(i as int));
        }
        assert(self.ipi_queue@.take(self.ipi_queue@.len() as int) =~= self.ipi_queue@);
        out
    }

    /// The IPIs addressed to `cpu`; they stay queued.
    pub fn consume_ipis(&self, cpu: CpuId) -> (r: Vec<IpiMessage>)
        requires
            self.wf(),
        ensures
            r@ == self@.ipis.filter(to_cpu(cpu)),
    {
        let mut out: Vec<IpiMessage> = Vec::new();
        let mut i: usize = 0;
        while i < self.ipi_queue.len()
            invariant
                i <= self.ipi_queue@.len(),
                out@ == self.ipi_queue@.take(i as int).filter(to_cpu(cpu)),
            decreases self.ipi_queue@.len() - i,
        {
            proof {
                lemma_filter_take_succ(self.ipi_queue@, i as int, to_cpu(cpu));
            }
            let m = self.ipi_queue[i];
            if m.target_cpu == cpu {
                out.push(m);
            }
            i = i + 1;
        }
        proof {
            lemma_take_full(self.ipi_queue@);
        }
        out
    }

    pub fn ipi_count(&self) -> (r: usize)
        requires
            self.wf(),
        ensures
            r == self@.ipis.len(),
    {
        self.ipi_queue.len()
    }

    // ── Barriers ───────────────────────────────────────────────

    /// Creates a barrier for `participants` under the next barrier id.
    pub fn create_barrier(&mut self, participants: Vec<CpuId>) -> (id: u32)
        requires
            old(self).wf(),
            old(self)@.next_barrier_id < u32::MAX,
            participants@.len() <= u32::MAX,
        ensures
            final(self).wf(),
            id == old(self)@.next_barrier_id,
            final(self)@ == (SmpView {
                barriers: old(self)@.barriers.insert(id, final(self)@.barriers[id]),
                next_barrier_id: (id + 1) as u32,
                ..old(self)@
            }),
            final(self)@.barriers[id].barrier_id == id,
            final(self)@.barriers[id].expected == participants@.len(),
            final(self)@.barriers[id].arrived == 0,
            final(self)@.barriers[id].generation == 0,
            final(self)@.barriers[id].participants@ == participants@,
    {
        let ghost v = self@;
        let id = self.next_barrier_id;
        self.next_barrier_id = self.next_barrier_id + 1;
        self.barriers.insert(id, SmpBarrier::new(id, participants));
        proof {
            assert forall|b: u32| #[trigger] self@.barriers.contains_key(b) implies self@.barriers[b].arrived < u32::MAX by {
                if b != id {
                    assert(v.barriers.contains_key(b));
                }
            }
        }
        id
    }

    /// Cpu `cpu` arrives at barrier `barrier_id`; true when that releases it.
    pub fn arrive_barrier(&mut self, barrier_id: u32, cpu: CpuId) -> (r: Result<bool, SmpError>)
        requires
            old(self).wf(),
        ensures
            final(self).wf(),
            !old(self)@.barriers.contains_key(barrier_id) ==> r == Err::<bool, SmpError>(SmpError::BarrierNotFound)
                && final(self)@ == old(self)@,
            old(self)@.barriers.contains_key(barrier_id) ==> {
                let b = old(self)@.barriers[barrier_id];
                let n = final(self)@.barriers[barrier_id];
                let joins = b.participants@.contains(cpu);
                let released = joins && b.arrived + 1 >= b.expected;
                &&& r == Ok::<bool, SmpError>(released)
                &&& final(self)@ == (SmpView { barriers: old(self)@.barriers.insert(barrier_id, n), ..old(self)@ })
                &&& n == SmpBarrier {
                    arrived: if !joins {
                        b.arrived
                    } else if released {
                        0
                    } else {
                        (b.arrived + 1) as u32
                    },
                    generation: if released { wrap_inc(b.generation) } else { b.generation },
                    ..b
                }
            },
    {
        let ghost v = self@;
        let r = match self.barriers.get_mut(barrier_id) {
            Some(b) => {
                let released = b.arrive(cpu);
                Ok(released)
            },
            None => Err(SmpError::BarrierNotFound),
        };
        proof {
            if v.barriers.contains_key(barrier_id) {
                assert forall|k: u32| #[trigger] self@.barriers.contains_key(k) implies self@.barriers[k].arrived < u32::MAX by {
                    if k != barrier_id {
                        assert(v.barriers.contains_key(k));
                    }
                }
            }
        }
        r
    }

    pub fn barrier_complete(&self, barrier_id: u32) -> (r: Result<bool, SmpError>)
        requires
            self.wf(),
        ensures
            r == if self@.barriers.contains_key(barrier_id) {
                Ok::<bool, SmpError>(self@.barriers[barrier_id].arrived == 0 && self@.barriers[barrier_id].generation > 0)
            } else {
                Err(SmpError::BarrierNotFound)
            },
    {
        match self.barriers.get(barrier_id) {
            Some(b) => Ok(b.is_complete()),
            None => Err(SmpError::BarrierNotFound),
        }
    }

    pub fn destroy_barrier(&mut self, barrier_id: u32) -> (r: bool)
        requires
            old(self).wf(),
        ensures
            final(self).wf(),
            r == old(self)@.barriers.contains_key(barrier_id),
            final(self)@ == (SmpView { barriers: old(self)@.barriers.remove(barrier_id), ..old(self)@ }),
    {
        let ghost v = self@;
        let r = self.barriers.remove(barrier_id).is_some();
        proof {
            assert forall|k: u32| #[trigger] self@.barriers.contains_key(k) implies self@.barriers[k].arrived < u32::MAX by {
                assert(v.barriers.contains_key(k));
            }
        }
        r
    }

    // ── Scheduling domains ─────────────────────────────────────

    /// Creates a scheduling domain over `cpus` under the next domain id.
    pub fn create_sched_domain(&mut self, level: u32, cpus: Vec<CpuId>) -> (id: u32)
        requires
            old(self).wf(),
            old(self)@.next_domain_id < u32::MAX,
        ensures
            final(self).wf(),
            id == old(self)@.next_domain_id,
            final(self)@ == (SmpView {
                domains: old(self)@.domains.insert(id, final(self)@.domains[id]),
                next_domain_id: (id + 1) as u32,
                ..old(self)@
            }),
            final(self)@.domains[id].domain_id == id,
            final(self)@.domains[id].level == level,
            final(self)@.domains[id].cpus@ == cpus@,
            final(self)@.domains[id].parent == None::<u32>,
            final(self)@.domains[id].child@ == Seq::<u32>::empty(),
            final(self)@.domains[id].balance_interval_ms == DEFAULT_LOAD_BALANCE_INTERVAL_MS,
            final(self)@.domains[id].last_balance == 0,
            final(self)@.domains[id].cache_nice_tries == 1,
            final(self)@.domains[id].flags == SchedDomainFlags::none(),
    {
        let id = self.next_domain_id;
        self.next_domain_id = self.next_domain_id + 1;
        self.sched_domains.insert(id, SchedDomain::new(id, level, cpus));
        id
    }

    pub fn get_sched_domain(&self, domain_id: u32) -> (r: Option<&SchedDomain>)
        requires
            self.wf(),
        ensures
            match r {
                Some(d) => self@.domains.contains_key(domain_id) && *d == self@.domains[domain_id],
                None => !self@.domains.contains_key(domain_id),
            },
    {
        self.sched_domains.get(domain_id)
    }

    pub fn set_domain_parent(&mut self, domain_id: u32, parent: u32) -> (r: bool)
        requires
            old(self).wf(),
        ensures
            final(self).wf(),
            r == old(self)@.domains.contains_key(domain_id),
            r ==> final(self)@ == (SmpView {
                domains: old(self)@.domains.insert(
                    domain_id,
                    SchedDomain { parent: Some(parent), ..old(self)@.domains[domain_id] },
                ),
                ..old(self)@
            }),
            !r ==> final(self)@ == old(self)@,
    {
        match self.sched_domains.get_mut(domain_id) {
            Some(d) => {
                d.parent = Some(parent);
                true
            },
            None => false,
        }
    }

    pub fn add_domain_child(&mut self, domain_id: u32, child: u32) -> (r: bool)
        requires
            old(self).wf(),
        ensures
            final(self).wf(),
            r == old(self)@.domains.contains_key(domain_id),
            r ==> final(self)@ == (SmpView {
                domains: old(self)@.domains.insert(domain_id, final(self)@.domains[domain_id]),
                ..old(self)@
            }),
            r ==> final(self)@.domains[domain_id].child@ == old(self)@.domains[domain_id].child@.push(child),
            r ==> final(self)@.domains[domain_id] == (SchedDomain {
                child: final(self)@.domains[domain_id].child,
                ..old(self)@.domains[domain_id]
            }),
            !r ==> final(self)@ == old(self)@,
    {
        match self.sched_domains.get_mut(domain_id) {
            Some(d) => {
                d.child.push(child);
                true
            },
            None => false,
        }
    }

    // ── Topology queries ───────────────────────────────────────

    pub fn topology(&self) -> (r: &CpuTopology)
        ensures
            *r == self@.topology,
    {
        &self.topology
    }

    pub fn cpu_distance(&self, cpu_a: CpuId, cpu_b: CpuId) -> (r: u32)
        requires
            self.wf(),
        ensures
            r == if self@.topology.cpu_to_node@.contains_key(cpu_a.0) && self@.topology.cpu_to_node@.contains_key(cpu_b.0) {
                if self@.topology.cpu_to_node@[cpu_a.0] == self@.topology.cpu_to_node@[cpu_b.0] {
                    10u32
                } else {
                    20u32
                }
            } else {
                30u32
            },
    {
        self.topology.distance(cpu_a.raw(), cpu_b.raw())
    }

    pub fn is_sibling(&self, cpu_a: CpuId, cpu_b: CpuId) -> (r: bool)
        requires
            self.wf(),
        ensures
            r == ((self@.topology.siblings@.contains_key(cpu_a.0) && self@.topology.siblings@[cpu_a.0] == cpu_b.0)
                || (self@.topology.siblings@.contains_key(cpu_b.0) && self@.topology.siblings@[cpu_b.0] == cpu_a.0)),
    {
        self.topology.is_sibling(cpu_a.raw(), cpu_b.raw())
    }

    /// Both cpus have the same NUMA node, or neither has one.
    pub fn same_numa_node(&self, cpu_a: CpuId, cpu_b: CpuId) -> (r: bool)
        requires
            self.wf(),
        ensures
            r == (self@.topology.cpu_to_node@.contains_key(cpu_a.0) == self@.topology.cpu_to_node@.contains_key(cpu_b.0)
                && (self@.topology.cpu_to_node@.contains_key(cpu_a.0) ==> self@.topology.cpu_to_node@[cpu_a.0]
                == self@.topology.cpu_to_node@[cpu_b.0])),
    {
        let a = self.topology.get_node(cpu_a.raw());
        let b = self.topology.get_node(cpu_b.raw());
        match (a, b) {
            (Some(x), Some(y)) => x == y,
            (None, None) => true,
            _ => false,
        }
    }

    // ── Statistics ─────────────────────────────────────────────

    fn online_load(&self) -> (r: u32)
        requires
            self.wf(),
            load_sum(self@, online_ids(self@)) <= u32::MAX,
        ensures
            r == load_sum(self@, online_ids(self@)),
    {
        let ids = self.online_cpus();
        let ghost ts = online_ids(self@);
        let mut total: u32 = 0;
        let mut i: usize = 0;
        while i < ids.len()
            invariant
                self.wf(),
                ids@ == as_cpu_ids(ts),
                ts == online_ids(self@),
                i <= ids@.len(),
                total == load_sum(self@, ts.take(i as int)),
                load_sum(self@, ts) <= u32::MAX,
            decreases ids@.len() - i,
        {
            proof {
                lemma_take_succ(ts, i as int);
                assert(ts.take(i + 1).drop_last() =~= ts.take(i as int));
                lemma_load_sum_prefix(self@, ts, i + 1);
                self@.cpu_order.lemma_filter_pred(online_pred(self@), i as int);
                assert(ts.contains(ts[i as int]));
                self@.cpu_order.lemma_filter_contains_rev(online_pred(self@), ts[i as int]);
                Self::lemma_order_member(self@, ts[i as int]);
            }
            let c = ids[i];
            let load = match self.per_cpu.get(c.raw()) {
                Some(d) => d.load(),
                None => 0,
            };
            total = total + load;
            i = i + 1;
        }
        proof {
            lemma_take_full(ts);
        }
        total
    }

    /// Cpu, task, migration, IPI and balancing counts, the total load of the
    /// online cpus, and the number of NUMA nodes.
    pub fn stats(&self) -> (st: SmpStats)
        requires
            self.wf(),
            load_sum(self@, online_ids(self@)) <= u32::MAX,
        ensures
            st.total_cpus == self@.cpus.dom().len() as u32,
            st.online_cpus == online_ids(self@).len() as u32,
            st.total_tasks == self@.tasks.dom().len() as u32,
            st.total_migrations == self@.total_migrations,
            st.total_ipis == self@.total_ipis,
            st.total_balances == self@.total_balances,
            st.online_load == load_sum(self@, online_ids(self@)),
            st.numa_nodes == self@.topology.numa_nodes@.len() as u32,
    {
        proof {
            self.tasks.lemma_wf();
        }
        SmpStats {
            total_cpus: self.cpu_count() as u32,
            online_cpus: self.online_count() as u32,
            total_tasks: self.tasks.len() as u32,
            total_migrations: self.total_migrations,
            total_ipis: self.total_ipis,
            total_balances: self.total_balances,
            online_load: self.online_load() as u64,
            numa_nodes: self.topology.numa_nodes.len() as u32,
        }
    }
}

proof fn lemma_filter_push_u32(s: Seq<u32>, x: u32, p: spec_fn(u32) -> bool)
    ensures
        s.push(x).filter(p) == if p(x) { s.filter(p).push(x) } else { s.filter(p) },
{
    s.lemma_filter_push(x, p);
}

proof fn lemma_load_sum_prefix(v: SmpView, ts: Seq<u32>, i: int)
    requires
        0 <= i <= ts.len(),
    ensures
        load_sum(v, ts.take(i)) <= load_sum(v, ts),
    decreases ts.len() - i,
{
    if i < ts.len() {
        lemma_load_sum_prefix(v, ts, i + 1);
        lemma_take_succ(ts, i);
        assert(ts.take(i + 1).drop_last() =~= ts.take(i));
    } else {
        lemma_take_full(ts);
    }
}


/// The least loaded cpu satisfying `p` (the first of equals), if any.
pub open spec fn least_loaded(v: SmpView, p: spec_fn(u32) -> bool) -> Option<u32> {
    if exists|i: int| least_loaded_at(v, p, i) {
        Some(v.cpu_order[choose|i: int| least_loaded_at(v, p, i)])
    } else {
        None
    }
}

/// The most loaded cpu satisfying `p` (the last of equals), if any.
pub open spec fn most_loaded(v: SmpView, p: spec_fn(u32) -> bool) -> Option<u32> {
    if exists|i: int| most_loaded_at(v, p, i) {
        Some(v.cpu_order[choose|i: int| most_loaded_at(v, p, i)])
    } else {
        None
    }
}

/// The cpu `find_cpu_for_task` picks for task `pid`.
pub open spec fn cpu_for_task(v: SmpView, pid: u32) -> Option<u32> {
    if !v.tasks.contains_key(pid) {
        None
    } else if first_cpu_with(v.cpu_order, idle_for_pred(v, pid)) is Some {
        first_cpu_with(v.cpu_order, idle_for_pred(v, pid))
    } else {
        least_loaded(v, runnable_pred(v, pid))
    }
}

pub proof fn lemma_least_loaded(v: SmpView, p: spec_fn(u32) -> bool, i: int)
    requires
        least_loaded_at(v, p, i),
    ensures
        least_loaded(v, p) == Some(v.cpu_order[i]),
{
    let k = choose|k: int| least_loaded_at(v, p, k);
    assert(least_loaded_at(v, p, k));
    if k < i {
        assert(p(v.cpu_order[k]));
    } else if i < k {
        assert(p(v.cpu_order[i]));
    }
}

pub proof fn lemma_most_loaded(v: SmpView, p: spec_fn(u32) -> bool, i: int)
    requires
        most_loaded_at(v, p, i),
    ensures
        most_loaded(v, p) == Some(v.cpu_order[i]),
{
    let k = choose|k: int| most_loaded_at(v, p, k);
    assert(most_loaded_at(v, p, k));
    if k < i {
        assert(p(v.cpu_order[k]));
    } else if i < k {
        assert(p(v.cpu_order[i]));
    }
}

/// Task `pid` may move from `busy` to `idle`: it is registered, allowed on
/// `idle`, and recorded as running on `busy`.
pub open spec fn movable_pred(v: SmpView, busy: u32, idle: u32) -> spec_fn(u32) -> bool {
    |pid: u32| v.tasks.contains_key(pid) && v.tasks[pid].affinity.allows(CpuId(idle))
        && v.tasks[pid].current_cpu == Some(CpuId(busy))
}

/// The migration the load balancer makes next on `v`: a task of the busiest
/// online cpu moves to the idlest one, while they differ, their load ratio is at
/// least 5/4 (always when the idlest is empty), the busiest has at least two more
/// tasks, and it has a task that may move. `None` ends the balancing.
pub open spec fn balance_pick(v: SmpView) -> Option<(u32, u32, u32)> {
    let b = most_loaded(v, online_pred(v));
    let i = least_loaded(v, online_pred(v));
    if b is None || i is None {
        None
    } else {
        let bc = b->0;
        let ic = i->0;
        let bl = load_of(v, bc);
        let il = load_of(v, ic);
        if bc == ic {
            None
        } else if il > 0 && 4 * bl < 5 * il {
            None
        } else if bl <= il + 1 {
            None
        } else {
            match first_cpu_with(v.cpus[bc].run_queue.tasks@, movable_pred(v, bc, ic)) {
                Some(pid) => Some((pid, bc, ic)),
                None => None,
            }
        }
    }
}


/// `w` and `r` are what `set_task_affinity(pid, a)` makes of `v`: the task takes the
/// new affinity, and if the cpu it runs on is no longer allowed it migrates to the
/// cpu `find_cpu_for_task` picks, when there is one.
pub open spec fn affinity_set(v: SmpView, w: SmpView, pid: u32, a: CpuAffinity, r: Result<(), SmpError>) -> bool {
    if !v.tasks.contains_key(pid) {
        r == Err::<(), SmpError>(SmpError::TaskNotFound) && w == v
    } else {
        let v1 = with_task(v, pid, TaskSmpInfo { affinity: a, ..v.tasks[pid] });
        let cur = v.tasks[pid].current_cpu;
        if cur is Some && !a.allows(cur.unwrap()) && cpu_for_task(v1, pid) is Some {
            let from = cur.unwrap();
            let to = CpuId(cpu_for_task(v1, pid).unwrap());
            match migrate_error(v1, pid, from, to) {
                Some(e) => r == Err::<(), SmpError>(e) && w == v1,
                None => r == Ok::<(), SmpError>(()) && (from == to ==> w == v1) && (from != to ==> migrated(
                    v1,
                    w,
                    pid,
                    from,
                    to,
                )),
            }
        } else {
            r == Ok::<(), SmpError>(()) && w == v1
        }
    }
}

impl SmpManager {
    /// Sets the affinity of task `pid`; a task running on a cpu the new affinity
    /// excludes moves to the cpu `find_cpu_for_task` picks, if there is one.
    pub fn set_task_affinity(&mut self, pid: u32, affinity: CpuAffinity) -> (r: Result<(), SmpError>)
        requires
            old(self).wf(),
        ensures
            final(self).wf(),
            affinity_set(old(self)@, final(self)@, pid, affinity, r),
    {
        let ghost v = self@;
        let ghost a = affinity;
        let cur = match self.tasks.get_mut(pid) {
            Some(t) => {
                t.set_affinity(affinity);
                t.current_cpu
            },
            None => {
                return Err(SmpError::TaskNotFound);
            },
        };
        proof {
            Self::lemma_cpus_untouched(v, self@);
            assert(self@ == with_task(v, pid, TaskSmpInfo { affinity: a, ..v.tasks[pid] }));
        }
        match cur {
            Some(c) => {
                let allowed = match self.tasks.get(pid) {
                    Some(t) => t.can_run_on(c),
                    None => true,
                };
                if !allowed {
                    match self.find_cpu_for_task(pid) {
                        Some(target) => {
                            let res = self.migrate_task(pid, c, target);
                            match res {
                                Ok(()) => {},
                                Err(e) => {
                                    return Err(e);
                                },
                            }
                        },
                        None => {},
                    }
                }
            },
            None => {},
        }
        Ok(())
    }

    /// Pins task `pid` to `cpu`.
    pub fn pin_task(&mut self, pid: u32, cpu: CpuId) -> (r: Result<(), SmpError>)
        requires
            old(self).wf(),
        ensures
            final(self).wf(),
            exists|a: CpuAffinity|
                #![trigger affinity_set(old(self)@, final(self)@, pid, a, r)]
                a.wf() && a.is_hard() && (forall|c: u32| #[trigger] a.allows(CpuId(c)) == (c == cpu.0))
                    && affinity_set(old(self)@, final(self)@, pid, a, r),
    {
        let a = CpuAffinity::single(cpu);
        let ghost ga = a;
        let r = self.set_task_affinity(pid, a);
        assert(affinity_set(old(self)@, self@, pid, ga, r));
        r
    }

    /// Lets task `pid` run on every cpu below `max_cpus` again (soft affinity).
    pub fn unpin_task(&mut self, pid: u32, max_cpus: usize) -> (r: Result<(), SmpError>)
        requires
            old(self).wf(),
            max_cpus <= 0x1_0000_0000,
            max_cpus + 63 <= usize::MAX,
        ensures
            final(self).wf(),
            exists|a: CpuAffinity|
                #![trigger affinity_set(old(self)@, final(self)@, pid, a, r)]
                a.wf() && !a.is_hard() && a.words().len() == (max_cpus + 63) / 64 && (forall|i: int|
                    0 <= i < a.words().len() ==> a.words()[i] == u64::MAX) && affinity_set(
                    old(self)@,
                    final(self)@,
                    pid,
                    a,
                    r,
                ),
    {
        let a = CpuAffinity::all_cpus(max_cpus);
        let ghost ga = a;
        let r = self.set_task_affinity(pid, a);
        assert(affinity_set(old(self)@, self@, pid, ga, r));
        r
    }
}


/// One step of taking `cpu` offline: its task `pid` moves to the first idle
/// cpu, if there is one.
pub open spec fn offline_step(a: SmpView, b: SmpView, cpu: CpuId, pid: u32) -> bool {
    match first_idle(a) {
        None => b == a,
        Some(t) => migrate_error(a, pid, cpu, CpuId(t)) is None && (cpu.0 == t ==> b == a) && (cpu.0 != t
            ==> migrated(a, b, pid, cpu, CpuId(t))),
    }
}

/// `trace` lists the states `take_cpu_offline(cpu)` passes through on `v`, ending
/// in `w` with result `r`: the cpu stops, each task of its queue moves to an idle
/// cpu in turn, and the cpu goes offline; a failed move ends it with that error.
pub open spec fn offline_trace(
    v: SmpView,
    cpu: CpuId,
    trace: Seq<SmpView>,
    w: SmpView,
    r: Result<(), SmpError>,
) -> bool {
    let pids = v.cpus[cpu.0].run_queue.tasks@;
    let k = trace.len() - 1;
    &&& trace.len() >= 1
    &&& trace[0] == with_cpu(v, cpu.0, PerCpuData { state: CpuState::Stopping, ..v.cpus[cpu.0] })
    &&& k <= pids.len()
    &&& forall|j: int| 0 <= j < k ==> offline_step(#[trigger] trace[j], trace[j + 1], cpu, pids[j])
    &&& if k == pids.len() {
        r == Ok::<(), SmpError>(()) && w == with_cpu(
            trace[k],
            cpu.0,
            PerCpuData { state: CpuState::Offline, ..trace[k].cpus[cpu.0] },
        )
    } else {
        &&& first_idle(trace[k]) is Some
        &&& migrate_error(trace[k], pids[k], cpu, CpuId(first_idle(trace[k]).unwrap())) is Some
        &&& r == Err::<(), SmpError>(
            migrate_error(trace[k], pids[k], cpu, CpuId(first_idle(trace[k]).unwrap())).unwrap(),
        )
        &&& w == trace[k]
    }
}

/// `trace` lists the states `balance_load` passes through on `v`, ending in `w`
/// after the migrations `r`.
pub open spec fn balance_trace(v: SmpView, trace: Seq<SmpView>, w: SmpView, r: Seq<(u32, CpuId, CpuId)>) -> bool {
    let k = r.len() as int;
    &&& trace.len() == k + 1
    &&& trace[0] == (SmpView { total_balances: wrap_inc(v.total_balances), ..v })
    &&& trace[k] == w
    &&& k <= MAX_MIGRATIONS_PER_BALANCE
    &&& forall|j: int|
        0 <= j < k ==> balance_pick(#[trigger] trace[j]) == Some((r[j].0, r[j].1.0, r[j].2.0))
            && migrated(trace[j], trace[j + 1], r[j].0, r[j].1, r[j].2)
    &&& k == MAX_MIGRATIONS_PER_BALANCE || balance_pick(trace[k]) is None
}

impl SmpManager {
    fn queue_copy(&self, cpu: CpuId) -> (r: Vec<u32>)
        requires
            self.wf(),
            self@.cpus.contains_key(cpu.0),
        ensures
            r@ == self@.cpus[cpu.0].run_queue.tasks@,
    {
        let mut out: Vec<u32> = Vec::new();
        match self.per_cpu.get(cpu.raw()) {
            Some(d) => {
                let mut i: usize = 0;
                while i < d.run_queue.tasks.len()
                    invariant
                        i <= d.run_queue.tasks@.len(),
                        out@ == d.run_queue.tasks@.take(i as int),
                    decreases d.run_queue.tasks@.len() - i,
                {
                    out.push(d.run_queue.tasks[i]);
                    i = i + 1;
                    assert(out@ =~= d.run_queue.tasks@.take(i as int));
                }
                assert(d.run_queue.tasks@.take(d.run_queue.tasks@.len() as int) =~= d.run_queue.tasks@);
            },
            None => {},
        }
        out
    }

    /// Takes an online application processor offline, first moving each of its
    /// tasks to an idle cpu where there is one.
    pub fn take_cpu_offline(&mut self, cpu: CpuId) -> (r: Result<(), SmpError>)
        requires
            old(self).wf(),
        ensures
            final(self).wf(),
            ({
                let v = old(self)@;
                if !v.cpus.contains_key(cpu.0) {
                    r == Err::<(), SmpError>(SmpError::CpuNotFound) && final(self)@ == v
                } else if cpu.0 == 0 {
                    r == Err::<(), SmpError>(SmpError::CannotOfflineBsp) && final(self)@ == v
                } else if v.cpus[cpu.0].state == CpuState::Offline {
                    r == Err::<(), SmpError>(SmpError::AlreadyOffline) && final(self)@ == v
                } else if v.cpus[cpu.0].state != CpuState::Online {
                    r == Err::<(), SmpError>(SmpError::InvalidState) && final(self)@ == v
                } else {
                    exists|trace: Seq<SmpView>| #[trigger] offline_trace(v, cpu, trace, final(self)@, r)
                }
            }),
    {
        let ghost v = self@;
        let (is_bsp, st) = match self.per_cpu.get(cpu.raw()) {
            Some(d) => (d.cpu_id.is_bsp(), d.state),
            None => {
                return Err(SmpError::CpuNotFound);
            },
        };
        if is_bsp {
            return Err(SmpError::CannotOfflineBsp);
        }
        match st {
            CpuState::Online => {},
            CpuState::Offline => {
                return Err(SmpError::AlreadyOffline);
            },
            _ => {
                return Err(SmpError::InvalidState);
            },
        }
        let pids = self.queue_copy(cpu);
        self.set_cpu_state(cpu.raw(), CpuState::Stopping);
        let ghost mut trace: Seq<SmpView> = seq![self@];
        let mut i: usize = 0;
        while i < pids.len()
            invariant
                self.wf(),
                i <= pids@.len(),
                pids@ == v.cpus[cpu.0].run_queue.tasks@,
                v.cpus.contains_key(cpu.0),
                v == old(self)@,
                cpu.0 != 0,
                v.cpus[cpu.0].state == CpuState::Online,
                self@.cpus.dom() == v.cpus.dom(),
                trace.len() == i + 1,
                trace[0] == with_cpu(v, cpu.0, PerCpuData { state: CpuState::Stopping, ..v.cpus[cpu.0] }),
                trace[i as int] == self@,
                forall|j: int| 0 <= j < i ==> offline_step(#[trigger] trace[j], trace[j + 1], cpu, pids@[j]),
            decreases pids@.len() - i,
        {
            let pid = pids[i];
            let ghost before = self@;
            match self.find_idle_cpu() {
                Some(target) => {
                    let res = self.migrate_task(pid, cpu, target);
                    match res {
                        Ok(()) => {},
                        Err(e) => {
                            proof {
                                assert(self@ == before);
                                assert(offline_trace(v, cpu, trace, self@, Err(e)));
                            }
                            return Err(e);
                        },
                    }
                },
                None => {},
            }
            proof {
                assert(offline_step(before, self@, cpu, pid));
                trace = trace.push(self@);
                assert forall|c: u32| #[trigger] self@.cpus.contains_key(c) == v.cpus.contains_key(c) by {
                    assert(before.cpus.contains_key(c) == v.cpus.contains_key(c));
                }
                assert(self@.cpus.dom() =~= v.cpus.dom());
            }
            i = i + 1;
        }
        self.set_cpu_state(cpu.raw(), CpuState::Offline);
        proof {
            assert(offline_trace(v, cpu, trace, self@, Ok(())));
        }
        Ok(())
    }

    fn first_movable(&self, busy: CpuId, idle: CpuId) -> (r: Option<u32>)
        requires
            self.wf(),
            self@.cpus.contains_key(busy.0),
        ensures
            r == first_cpu_with(self@.cpus[busy.0].run_queue.tasks@, movable_pred(self@, busy.0, idle.0)),
    {
        let ghost q = self@.cpus[busy.0].run_queue.tasks@;
        let ghost p = movable_pred(self@, busy.0, idle.0);
        let d = match self.per_cpu.get(busy.raw()) {
            Some(d) => d,
            None => {
                return None;
            },
        };
        let mut i: usize = 0;
        while i < d.run_queue.tasks.len()
            invariant
                self.wf(),
                *d == self@.cpus[busy.0],
                q == d.run_queue.tasks@,
                p == movable_pred(self@, busy.0, idle.0),
                i <= q.len(),
                forall|j: int| 0 <= j < i ==> !p(#[trigger] q[j]),
            decreases q.len() - i,
        {
            let pid = d.run_queue.tasks[i];
            let ok = match self.tasks.get(pid) {
                Some(t) => t.can_run_on(idle) && t.current_cpu == Some(busy),
                None => false,
            };
            if ok {
                proof {
                    lemma_first_with(q, p, i as int);
                }
                return Some(pid);
            }
            i = i + 1;
        }
        proof {
            lemma_none_with(q, p);
        }
        None
    }

    /// Spreads tasks over the online cpus: up to four times, a task of the
    /// busiest cpu moves to the idlest one while `balance_pick` finds a move.
    pub fn balance_load(&mut self) -> (r: Vec<(u32, CpuId, CpuId)>)
        requires
            old(self).wf(),
        ensures
            final(self).wf(),
            online_ids(old(self)@).len() < 2 ==> r@ == Seq::<(u32, CpuId, CpuId)>::empty() && final(self)@ == (SmpView {
                total_balances: wrap_inc(old(self)@.total_balances),
                ..old(self)@
            }),
            online_ids(old(self)@).len() >= 2 ==> exists|trace: Seq<SmpView>|
                #[trigger] balance_trace(old(self)@, trace, final(self)@, r@),
    {
        let ghost v = self@;
        self.total_balances = self.total_balances.wrapping_add(1);
        proof {
            Self::lemma_cpus_untouched(v, self@);
        }
        let mut migrations: Vec<(u32, CpuId, CpuId)> = Vec::new();
        let online = self.online_cpus();
        if online.len() < 2 {
            return migrations;
        }
        let ghost mut trace: Seq<SmpView> = seq![self@];
        let mut done: usize = 0;
        while done < MAX_MIGRATIONS_PER_BALANCE
            invariant_except_break
                self.wf(),
                done == migrations@.len(),
                done <= MAX_MIGRATIONS_PER_BALANCE,
                trace.len() == done + 1,
                trace[0] == (SmpView { total_balances: wrap_inc(v.total_balances), ..v }),
                trace[done as int] == self@,
                forall|j: int|
                    0 <= j < done ==> balance_pick(#[trigger] trace[j]) == Some(
                        (migrations@[j].0, migrations@[j].1.0, migrations@[j].2.0),
                    ) && migrated(trace[j], trace[j + 1], migrations@[j].0, migrations@[j].1, migrations@[j].2),
            ensures
                self.wf(),
                balance_trace(v, trace, self@, migrations@),
            decreases MAX_MIGRATIONS_PER_BALANCE - done,
        {
            let busiest = self.max_load_cpu();
            let idlest = self.min_load_cpu();
            let (busy, idle) = match (busiest, idlest) {
                (Some(b), Some(i)) => (b, i),
                _ => {
                    assert(balance_pick(self@) is None);
                    break;
                },
            };
            if busy == idle {
                assert(balance_pick(self@) is None);
                break;
            }
            let busy_load = match self.per_cpu.get(busy.raw()) {
                Some(d) => d.load(),
                None => 0,
            };
            let idle_load = match self.per_cpu.get(idle.raw()) {
                Some(d) => d.load(),
                None => 0,
            };
            proof {
                let b = most_loaded(self@, online_pred(self@)).unwrap();
                let i = least_loaded(self@, online_pred(self@)).unwrap();
                let bi = choose|k: int| most_loaded_at(self@, online_pred(self@), k);
                let ii = choose|k: int| least_loaded_at(self@, online_pred(self@), k);
                assert(self@.cpus.contains_key(self@.cpu_order[bi]));
                assert(self@.cpus.contains_key(self@.cpu_order[ii]));
            }
            if idle_load > 0 && 4 * (busy_load as u64) < 5 * (idle_load as u64) {
                assert(balance_pick(self@) is None);
                break;
            }
            if (busy_load as u64) <= (idle_load as u64) + 1 {
                assert(balance_pick(self@) is None);
                break;
            }
            let pid = match self.first_movable(busy, idle) {
                Some(p) => p,
                None => {
                    assert(balance_pick(self@) is None);
                    break;
                },
            };
            assert(balance_pick(self@) == Some((pid, busy.0, idle.0)));
            let ghost before = self@;
            let res = self.migrate_task(pid, busy, idle);
            assert(res is Ok);
            migrations.push((pid, busy, idle));
            proof {
                trace = trace.push(self@);
                assert(migrated(before, self@, pid, busy, idle));
            }
            done = done + 1;
        }
        migrations
    }
}

} // verus!
