//! The security layer: m-of-n multi-signature proposals, a hash-chained audit
//! log, peer reputation with bans, token-bucket rate limiting, and keyed
//! channels.

use vstd::prelude::*;
use crate::tcpip::{be32, push_be32, push_all};

verus! {

// ═══════════════════════════════════════════════════════════════════════════
// The 32-byte digest
// ═══════════════════════════════════════════════════════════════════════════

/// One FNV-1a step: xor the byte in, multiply by the FNV prime modulo 2^32.
pub open spec fn fnv_step(h: u32, b: u8) -> u32 {
    (h ^ (b as u32)).wrapping_mul(0x0100_0193u32)
}

/// FNV-1a (32 bits) of `data`.
pub open spec fn fnv1a(data: Seq<u8>) -> u32
    decreases data.len(),
{
    if data.len() == 0 {
        0x811c_9dc5u32
    } else {
        fnv_step(fnv1a(data.drop_last()), data.last())
    }
}

/// The `k`-th word of the digest that starts from `h`: each next word folds the
/// first byte of the one before into it.
pub open spec fn digest_word(h: u32, k: nat) -> u32
    decreases k,
{
    if k == 0 {
        h
    } else {
        let prev = digest_word(h, (k - 1) as nat);
        fnv_step(prev, (prev / 0x100_0000) as u8)
    }
}

/// The first `n` words of the digest from `h`, each in network byte order.
pub open spec fn digest_words(h: u32, n: nat) -> Seq<u8>
    decreases n,
{
    if n == 0 {
        Seq::empty()
    } else {
        digest_words(h, (n - 1) as nat) + be32(digest_word(h, (n - 1) as nat))
    }
}

/// The 32-byte digest of `data`.
#[verifier::opaque]
pub open spec fn digest(data: Seq<u8>) -> Seq<u8> {
    digest_words(fnv1a(data), 8)
}

proof fn lemma_digest_words_len(h: u32, n: nat)
    ensures
        digest_words(h, n).len() == 4 * n,
    decreases n,
{
    if n > 0 {
        lemma_digest_words_len(h, (n - 1) as nat);
    }
}

/// A 32-byte digest of `data`: FNV-1a over the data, stretched to eight words.
pub fn simple_hash(data: &[u8]) -> (r: [u8; 32])
    ensures
        r@ == digest(data@),
{
    let mut hash: u32 = 0x811c_9dc5;
    let mut i: usize = 0;
    while i < data.len()
        invariant
            i <= data@.len(),
            hash == fnv1a(data@.take(i as int)),
        decreases data@.len() - i,
    {
        assert(data@.take(i as int + 1).drop_last() =~= data@.take(i as int));
        hash = (hash ^ (data[i] as u32)).wrapping_mul(0x0100_0193);
        i = i + 1;
    }
    assert(data@.take(i as int) =~= data@);
    let ghost h0 = hash;
    let mut out: Vec<u8> = Vec::new();
    push_be32(&mut out, hash);
    proof {
        assert(digest_words(h0, 0) =~= Seq::<u8>::empty());
        assert(out@ =~= digest_words(h0, 1));
    }
    let mut k: usize = 1;
    while k < 8
        invariant
            1 <= k <= 8,
            out@ == digest_words(h0, k as nat),
            hash == digest_word(h0, (k - 1) as nat),
        decreases 8 - k,
    {
        proof {
            lemma_digest_words_len(h0, (k - 1) as nat);
            assert(out@[4 * (k - 1)] == be32(hash)[0]);
        }
        let first = out[4 * (k - 1)];
        hash = (hash ^ (first as u32)).wrapping_mul(0x0100_0193);
        push_be32(&mut out, hash);
        k = k + 1;
    }
    proof {
        lemma_digest_words_len(h0, 8);
    }
    let mut r = [0u8; 32];
    let mut j: usize = 0;
    while j < 32
        invariant
            j <= 32,
            out@.len() == 32,
            forall|m: int| 0 <= m < j ==> r@[m] == out@[m],
        decreases 32 - j,
    {
        r[j] = out[j];
        j = j + 1;
    }
    assert(r@ =~= out@);
    proof {
        reveal(digest);
    }
    r
}


// ═══════════════════════════════════════════════════════════════════════════
// Errors
// ═══════════════════════════════════════════════════════════════════════════

#[derive(Debug, Clone, PartialEq, Eq)]
pub enum SecurityError {
    AlreadyExecuted,
    AlreadySigned(String),
    TooManySignatures,
    InsufficientSignatures { have: u32, required: u32 },
    ProposalNotFound,
    ChannelNotEstablished,
    PeerBanned,
    RateLimited,
}

// ═══════════════════════════════════════════════════════════════════════════
// Multi-signature proposals
// ═══════════════════════════════════════════════════════════════════════════

/// An m-of-n multi-signature proposal: `required_sigs` of `total_signers`
/// signatures, each under a distinct DID, authorize it.
#[derive(Debug)]
pub struct MultiSigProposal {
    pub id: u64,
    pub description: String,
    pub data_hash: [u8; 32],
    pub required_sigs: u32,
    pub total_signers: u32,
    pub signatures: Vec<(String, [u8; 64])>,
    pub created_at: u64,
    pub executed: bool,
}

/// What a proposal holds.
pub struct ProposalView {
    pub id: u64,
    pub description: String,
    pub data_hash: [u8; 32],
    pub required_sigs: u32,
    pub total_signers: u32,
    pub signatures: Seq<(String, [u8; 64])>,
    pub created_at: u64,
    pub executed: bool,
}

impl View for MultiSigProposal {
    type V = ProposalView;

    open spec fn view(&self) -> ProposalView {
        ProposalView {
            id: self.id,
            description: self.description,
            data_hash: self.data_hash,
            required_sigs: self.required_sigs,
            total_signers: self.total_signers,
            signatures: self.signatures@,
            created_at: self.created_at,
            executed: self.executed,
        }
    }
}

/// The number of signatures as the proposal counts them (32 bits).
pub open spec fn sig_count(p: ProposalView) -> u32 {
    p.signatures.len() as u32
}

pub open spec fn ready(p: ProposalView) -> bool {
    sig_count(p) >= p.required_sigs
}

/// `did` has signed `p`.
pub open spec fn signed_by(p: ProposalView, did: Seq<char>) -> bool {
    exists|i: int| 0 <= i < p.signatures.len() && p.signatures[i].0@ == did
}

/// A signature by `did`: refused once executed, once all signers have signed,
/// or where `did` has signed already; else recorded.
pub open spec fn sign_outcome(p: ProposalView, did: String, sig: [u8; 64]) -> (
    ProposalView,
    Result<(), SecurityError>,
) {
    if p.executed {
        (p, Err(SecurityError::AlreadyExecuted))
    } else if p.signatures.len() >= p.total_signers {
        (p, Err(SecurityError::TooManySignatures))
    } else if signed_by(p, did@) {
        (p, Err(SecurityError::AlreadySigned(did)))
    } else {
        (ProposalView { signatures: p.signatures.push((did, sig)), ..p }, Ok(()))
    }
}

/// Execution: refused without enough signatures or a second time.
pub open spec fn execute_outcome(p: ProposalView) -> (ProposalView, Result<(), SecurityError>) {
    if !ready(p) {
        (
            p,
            Err(
                SecurityError::InsufficientSignatures { have: sig_count(p), required: p.required_sigs },
            ),
        )
    } else if p.executed {
        (p, Err(SecurityError::AlreadyExecuted))
    } else {
        (ProposalView { executed: true, ..p }, Ok(()))
    }
}

impl MultiSigProposal {
    pub fn new(
        id: u64,
        description: String,
        data_hash: [u8; 32],
        required: u32,
        total: u32,
        created_at: u64,
    ) -> (p: Self)
        ensures
            p@ == (ProposalView {
                id,
                description,
                data_hash,
                required_sigs: required,
                total_signers: total,
                signatures: Seq::empty(),
                created_at,
                executed: false,
            }),
    {
        let p = MultiSigProposal {
            id,
            description,
            data_hash,
            required_sigs: required,
            total_signers: total,
            signatures: Vec::new(),
            created_at,
            executed: false,
        };
        assert(p@.signatures =~= Seq::<(String, [u8; 64])>::empty());
        p
    }

    pub fn sign(&mut self, did: String, signature: [u8; 64]) -> (r: Result<(), SecurityError>)
        ensures
            (final(self)@, r) == sign_outcome(old(self)@, did, signature),
    {
        if self.executed {
            return Err(SecurityError::AlreadyExecuted);
        }
        if self.signatures.len() >= self.total_signers as usize {
            return Err(SecurityError::TooManySignatures);
        }
        let mut i: usize = 0;
        while i < self.signatures.len()
            invariant
                *self == *old(self),
                !self.executed,
                self.signatures@.len() < self.total_signers,
                i <= self.signatures@.len(),
                forall|j: int| 0 <= j < i ==> #[trigger] self.signatures@[j].0@ != did@,
            decreases self.signatures@.len() - i,
        {
            if self.signatures[i].0 == did {
                assert(self@.signatures[i as int].0@ == did@);
                return Err(SecurityError::AlreadySigned(did));
            }
            i = i + 1;
        }
        self.signatures.push((did, signature));
        Ok(())
    }

    pub fn is_ready(&self) -> (r: bool)
        ensures
            r == ready(self@),
    {
        self.signatures.len() as u32 >= self.required_sigs
    }

    /// Signatures still missing (0 once ready).
    pub fn remaining_sigs(&self) -> (r: u32)
        ensures
            r == (if ready(self@) {
                0
            } else {
                self.required_sigs - sig_count(self@)
            }),
    {
        self.required_sigs.saturating_sub(self.signatures.len() as u32)
    }

    pub fn execute(&mut self) -> (r: Result<(), SecurityError>)
        ensures
            (final(self)@, r) == execute_outcome(old(self)@),
    {
        if !self.is_ready() {
            return Err(
                SecurityError::InsufficientSignatures {
                    have: self.signatures.len() as u32,
                    required: self.required_sigs,
                },
            );
        }
        if self.executed {
            return Err(SecurityError::AlreadyExecuted);
        }
        self.executed = true;
        Ok(())
    }
}

impl Clone for MultiSigProposal {
    fn clone(&self) -> (r: Self)
        ensures
            r@ == self@,
    {
        let mut sigs: Vec<(String, [u8; 64])> = Vec::new();
        let mut i: usize = 0;
        while i < self.signatures.len()
            invariant
                i <= self.signatures@.len(),
                sigs@ == self.signatures@.take(i as int),
            decreases self.signatures@.len() - i,
        {
            let entry = (self.signatures[i].0.clone(), self.signatures[i].1);
            sigs.push(entry);
            i = i + 1;
            assert(sigs@ =~= self.signatures@.take(i as int));
        }
        assert(self.signatures@.take(i as int) =~= self.signatures@);
        MultiSigProposal {
            id: self.id,
            description: self.description.clone(),
            data_hash: self.data_hash,
            required_sigs: self.required_sigs,
            total_signers: self.total_signers,
            signatures: sigs,
            created_at: self.created_at,
            executed: self.executed,
        }
    }
}


/// The proposals in ascending id order, and the next id to give.
pub struct MultiSigView {
    pub proposals: Seq<ProposalView>,
    pub next_id: u64,
}

pub open spec fn proposal_at(v: MultiSigView, id: u64, k: int) -> bool {
    0 <= k < v.proposals.len() && v.proposals[k].id == id
}

pub open spec fn has_proposal(v: MultiSigView, id: u64) -> bool {
    exists|k: int| proposal_at(v, id, k)
}

/// Proposal ids ascend and stay below the next id to give.
pub open spec fn multisig_wf(v: MultiSigView) -> bool {
    &&& forall|i: int, j: int|
        0 <= i < j < v.proposals.len() ==> #[trigger] v.proposals[i].id < #[trigger] v.proposals[j].id
    &&& forall|i: int| 0 <= i < v.proposals.len() ==> #[trigger] v.proposals[i].id < v.next_id
}

/// All multi-signature proposals.
pub struct MultiSigManager {
    proposals: Vec<MultiSigProposal>,
    next_id: u64,
}

impl View for MultiSigManager {
    type V = MultiSigView;

    closed spec fn view(&self) -> MultiSigView {
        MultiSigView {
            proposals: self.proposals@.map_values(|p: MultiSigProposal| p@),
            next_id: self.next_id,
        }
    }
}

impl MultiSigManager {
    pub fn new() -> (m: Self)
        ensures
            multisig_wf(m@),
            m@.proposals == Seq::<ProposalView>::empty(),
            m@.next_id == 1,
    {
        let m = MultiSigManager { proposals: Vec::new(), next_id: 1 };
        assert(m@.proposals =~= Seq::<ProposalView>::empty());
        m
    }

    fn find(&self, id: u64) -> (r: Option<usize>)
        requires
            multisig_wf(self@),
        ensures
            r matches Some(k) ==> proposal_at(self@, id, k as int) && forall|j: int|
                proposal_at(self@, id, j) ==> j == k,
            r is None ==> !has_proposal(self@, id),
    {
        let mut i: usize = 0;
        while i < self.proposals.len()
            invariant
                multisig_wf(self@),
                i <= self.proposals@.len(),
                forall|j: int| 0 <= j < i ==> #[trigger] self@.proposals[j].id != id,
            decreases self.proposals@.len() - i,
        {
            if self.proposals[i].id == id {
                proof {
                    let v = self@;
                    assert forall|j: int| proposal_at(v, id, j) implies j == i as int by {
                        if j > i as int {
                            assert(v.proposals[i as int].id < v.proposals[j].id);
                        }
                    }
                }
                return Some(i);
            }
            i = i + 1;
        }
        None
    }

    /// Opens a proposal; its id is the next id to give.
    pub fn create(
        &mut self,
        description: String,
        data_hash: [u8; 32],
        required: u32,
        total: u32,
        now: u64,
    ) -> (id: u64)
        requires
            multisig_wf(old(self)@),
            old(self)@.next_id < u64::MAX,
        ensures
            multisig_wf(final(self)@),
            id == old(self)@.next_id,
            final(self)@ == (MultiSigView {
                proposals: old(self)@.proposals.push(
                    ProposalView {
                        id,
                        description,
                        data_hash,
                        required_sigs: required,
                        total_signers: total,
                        signatures: Seq::empty(),
                        created_at: now,
                        executed: false,
                    },
                ),
                next_id: (id + 1) as u64,
            }),
    {
        let id = self.next_id;
        self.next_id = self.next_id + 1;
        let p = MultiSigProposal::new(id, description, data_hash, required, total, now);
        self.proposals.push(p);
        proof {
            assert(self@.proposals =~= old(self)@.proposals.push(p@));
        }
        id
    }

    /// Signs proposal `proposal_id` as `did`; see `sign_outcome`.
    pub fn sign(&mut self, proposal_id: u64, did: String, signature: [u8; 64]) -> (r: Result<
        (),
        SecurityError,
    >)
        requires
            multisig_wf(old(self)@),
        ensures
            multisig_wf(final(self)@),
            final(self)@.next_id == old(self)@.next_id,
            !has_proposal(old(self)@, proposal_id) ==> r == Err::<(), SecurityError>(
                SecurityError::ProposalNotFound,
            ) && final(self)@ == old(self)@,
            forall|k: int|
                proposal_at(old(self)@, proposal_id, k) ==> {
                    let (p, res) = sign_outcome(old(self)@.proposals[k], did, signature);
                    r == res && final(self)@.proposals == old(self)@.proposals.update(k, p)
                },
    {
        match self.find(proposal_id) {
            Some(k) => {
                let ghost v = self@;
                let r = self.proposals[k].sign(did, signature);
                proof {
                    assert(self@.proposals =~= v.proposals.update(k as int, self.proposals@[k as int]@));
                }
                r
            },
            None => Err(SecurityError::ProposalNotFound),
        }
    }

    /// Executes proposal `proposal_id`; see `execute_outcome`.
    pub fn execute(&mut self, proposal_id: u64) -> (r: Result<(), SecurityError>)
        requires
            multisig_wf(old(self)@),
        ensures
            multisig_wf(final(self)@),
            final(self)@.next_id == old(self)@.next_id,
            !has_proposal(old(self)@, proposal_id) ==> r == Err::<(), SecurityError>(
                SecurityError::ProposalNotFound,
            ) && final(self)@ == old(self)@,
            forall|k: int|
                proposal_at(old(self)@, proposal_id, k) ==> {
                    let (p, res) = execute_outcome(old(self)@.proposals[k]);
                    r == res && final(self)@.proposals == old(self)@.proposals.update(k, p)
                },
    {
        match self.find(proposal_id) {
            Some(k) => {
                let ghost v = self@;
                let r = self.proposals[k].execute();
                proof {
                    assert(self@.proposals =~= v.proposals.update(k as int, self.proposals@[k as int]@));
                }
                r
            },
            None => Err(SecurityError::ProposalNotFound),
        }
    }

    /// A copy of proposal `proposal_id`, where there is one.
    pub fn get(&self, proposal_id: u64) -> (r: Option<MultiSigProposal>)
        requires
            multisig_wf(self@),
        ensures
            r is None <==> !has_proposal(self@, proposal_id),
            r matches Some(p) ==> forall|k: int|
                proposal_at(self@, proposal_id, k) ==> p@ == self@.proposals[k],
    {
        match self.find(proposal_id) {
            Some(k) => Some(self.proposals[k].clone()),
            None => None,
        }
    }

    pub fn count(&self) -> (n: usize)
        ensures
            n == self@.proposals.len(),
    {
        self.proposals.len()
    }
}


// ═══════════════════════════════════════════════════════════════════════════
// Audit log
// ═══════════════════════════════════════════════════════════════════════════

#[derive(Clone, Copy, Debug, PartialEq, Eq, Structural)]
pub enum AuditResult {
    Allowed,
    Denied,
    Error,
}

/// One audit record, chained to the one before by `prev_hash`.
#[derive(Debug)]
pub struct AuditEntry {
    pub seq: u64,
    pub timestamp: u64,
    pub actor_did: String,
    pub action: String,
    pub resource: String,
    pub result: AuditResult,
    pub prev_hash: [u8; 32],
    pub entry_hash: [u8; 32],
}

impl Clone for AuditEntry {
    fn clone(&self) -> (r: Self)
        ensures
            r == *self,
    {
        AuditEntry {
            seq: self.seq,
            timestamp: self.timestamp,
            actor_did: self.actor_did.clone(),
            action: self.action.clone(),
            resource: self.resource.clone(),
            result: self.result,
            prev_hash: self.prev_hash,
            entry_hash: self.entry_hash,
        }
    }
}

/// `x` in network byte order.
pub open spec fn be64(x: u64) -> Seq<u8> {
    be32((x / 0x1_0000_0000) as u32) + be32((x % 0x1_0000_0000) as u32)
}

/// The bytes an entry's hash covers: sequence number, time, actor, action and
/// resource (UTF-8), and the hash before it.
#[verifier::opaque]
pub open spec fn hash_input(
    seq: u64,
    timestamp: u64,
    actor: Seq<char>,
    action: Seq<char>,
    resource: Seq<char>,
    prev: Seq<u8>,
) -> Seq<u8> {
    be64(seq) + be64(timestamp) + vstd::utf8::encode_utf8(actor) + vstd::utf8::encode_utf8(action)
        + vstd::utf8::encode_utf8(resource) + prev
}

pub open spec fn entry_input(e: AuditEntry) -> Seq<u8> {
    hash_input(e.seq, e.timestamp, e.actor_did@, e.action@, e.resource@, e.prev_hash@)
}

/// The hash that starts the chain: 32 zero bytes.
pub open spec fn zero_hash() -> Seq<u8> {
    Seq::new(32, |i: int| 0u8)
}

/// Every entry's hash covers its own fields and the hash before it, and the
/// first entry follows the zero hash.
pub open spec fn chain_ok(s: Seq<AuditEntry>) -> bool {
    forall|i: int|
        0 <= i < s.len() ==> {
            &&& (#[trigger] s[i].prev_hash)@ == (if i == 0 {
                zero_hash()
            } else {
                s[i - 1].entry_hash@
            })
            &&& s[i].entry_hash@ == digest(entry_input(s[i]))
        }
}

fn push_be64(v: &mut Vec<u8>, x: u64)
    ensures
        final(v)@ == old(v)@ + be64(x),
{
    push_be32(v, (x / 0x1_0000_0000) as u32);
    push_be32(v, (x % 0x1_0000_0000) as u32);
    assert(v@ =~= old(v)@ + be64(x));
}

fn input_bytes(
    seq: u64,
    timestamp: u64,
    actor: &String,
    action: &String,
    resource: &String,
    prev: &[u8; 32],
) -> (r: Vec<u8>)
    ensures
        r@ == hash_input(seq, timestamp, actor@, action@, resource@, prev@),
{
    let mut buf: Vec<u8> = Vec::new();
    push_be64(&mut buf, seq);
    push_be64(&mut buf, timestamp);
    push_all(&mut buf, actor.as_str().as_bytes());
    push_all(&mut buf, action.as_str().as_bytes());
    push_all(&mut buf, resource.as_str().as_bytes());
    push_all(&mut buf, prev.as_slice());
    proof {
        reveal(hash_input);
    }
    assert(buf@ =~= hash_input(seq, timestamp, actor@, action@, resource@, prev@));
    buf
}

fn same_hash(a: &[u8; 32], b: &[u8; 32]) -> (r: bool)
    ensures
        r == (a@ == b@),
{
    let mut i: usize = 0;
    while i < 32
        invariant
            i <= 32,
            forall|j: int| 0 <= j < i ==> a@[j] == b@[j],
        decreases 32 - i,
    {
        if a[i] != b[i] {
            return false;
        }
        i = i + 1;
    }
    assert(a@ =~= b@);
    true
}

/// A tamper-evident log: each entry carries the hash of its fields and of the
/// entry before it.
pub struct AuditLog {
    entries: Vec<AuditEntry>,
    last_hash: [u8; 32],
}

impl AuditLog {
    pub closed spec fn log_entries(&self) -> Seq<AuditEntry> {
        self.entries@
    }

    /// The hash the next entry chains to.
    pub closed spec fn last_hash(&self) -> Seq<u8> {
        self.last_hash@
    }

    /// The chain holds, the next entry chains to the last hash, and entries are
    /// numbered from 1.
    pub closed spec fn wf(&self) -> bool {
        &&& chain_ok(self.entries@)
        &&& self.last_hash@ == (if self.entries@.len() == 0 {
            zero_hash()
        } else {
            self.entries@.last().entry_hash@
        })
        &&& forall|i: int| 0 <= i < self.entries@.len() ==> (#[trigger] self.entries@[i]).seq == i + 1
    }

    pub fn new() -> (l: Self)
        ensures
            l.wf(),
            l.log_entries() == Seq::<AuditEntry>::empty(),
            l.last_hash() == zero_hash(),
    {
        let l = AuditLog { entries: Vec::new(), last_hash: [0u8; 32] };
        assert(l.last_hash@ =~= zero_hash());
        l
    }

    /// Appends an entry numbered one past the last, chained to the last hash.
    pub fn log(
        &mut self,
        timestamp: u64,
        actor_did: String,
        action: String,
        resource: String,
        result: AuditResult,
    )
        requires
            old(self).wf(),
            old(self).log_entries().len() < u64::MAX,
        ensures
            final(self).wf(),
            final(self).log_entries().len() == old(self).log_entries().len() + 1,
            final(self).log_entries().drop_last() == old(self).log_entries(),
            ({
                let e = final(self).log_entries().last();
                &&& e.seq == old(self).log_entries().len() + 1
                &&& e.timestamp == timestamp
                &&& e.actor_did == actor_did
                &&& e.action == action
                &&& e.resource == resource
                &&& e.result == result
                &&& e.prev_hash@ == old(self).last_hash()
                &&& e.entry_hash@ == digest(entry_input(e))
            }),
            final(self).last_hash() == final(self).log_entries().last().entry_hash@,
    {
        let seq: u64 = (self.entries.len() as u64) + 1;
        let prev_hash = self.last_hash;
        let input = input_bytes(seq, timestamp, &actor_did, &action, &resource, &prev_hash);
        let entry_hash = simple_hash(input.as_slice());
        self.last_hash = entry_hash;
        let e = AuditEntry { seq, timestamp, actor_did, action, resource, result, prev_hash, entry_hash };
        let ghost before = self.entries@;
        self.entries.push(e);
        proof {
            assert(self.entries@.drop_last() =~= before);
            assert forall|i: int| 0 <= i < self.entries@.len() implies {
                &&& (#[trigger] self.entries@[i].prev_hash)@ == (if i == 0 {
                    zero_hash()
                } else {
                    self.entries@[i - 1].entry_hash@
                })
                &&& self.entries@[i].entry_hash@ == digest(entry_input(self.entries@[i]))
            } by {
                if i < before.len() {
                    assert(self.entries@[i] == before[i]);
                }
            }
        }
    }

    /// Whether the chain holds: every entry follows the hash before it and its
    /// hash matches its fields.
    pub fn verify_chain(&self) -> (r: bool)
        ensures
            r == chain_ok(self.log_entries()),
            self.wf() ==> r,
    {
        let mut expected_prev: [u8; 32] = [0u8; 32];
        assert(expected_prev@ =~= zero_hash());
        let mut i: usize = 0;
        while i < self.entries.len()
            invariant
                i <= self.entries@.len(),
                expected_prev@ == (if i == 0 {
                    zero_hash()
                } else {
                    self.entries@[i - 1].entry_hash@
                }),
                forall|j: int|
                    0 <= j < i ==> {
                        &&& (#[trigger] self.entries@[j].prev_hash)@ == (if j == 0 {
                            zero_hash()
                        } else {
                            self.entries@[j - 1].entry_hash@
                        })
                        &&& self.entries@[j].entry_hash@ == digest(entry_input(self.entries@[j]))
                    },
            decreases self.entries@.len() - i,
        {
            let entry = &self.entries[i];
            if !same_hash(&entry.prev_hash, &expected_prev) {
                return false;
            }
            let input = input_bytes(
                entry.seq,
                entry.timestamp,
                &entry.actor_did,
                &entry.action,
                &entry.resource,
                &entry.prev_hash,
            );
            let recomputed = simple_hash(input.as_slice());
            if !same_hash(&recomputed, &entry.entry_hash) {
                return false;
            }
            expected_prev = entry.entry_hash;
            i = i + 1;
        }
        true
    }

    /// All entries, oldest first.
    pub fn entries(&self) -> (r: Vec<AuditEntry>)
        ensures
            r@ == self.log_entries(),
    {
        let mut out: Vec<AuditEntry> = Vec::new();
        let mut i: usize = 0;
        while i < self.entries.len()
            invariant
                i <= self.entries@.len(),
                out@ == self.entries@.take(i as int),
            decreases self.entries@.len() - i,
        {
            out.push(self.entries[i].clone());
            i = i + 1;
            assert(out@ =~= self.entries@.take(i as int));
        }
        assert(self.entries@.take(i as int) =~= self.entries@);
        out
    }

    pub fn count(&self) -> (n: usize)
        ensures
            n == self.log_entries().len(),
    {
        self.entries.len()
    }

    /// A log that only `new` and `log` built (any number of calls, none too)
    /// verifies: its hash chain holds, so the first entry follows the zero hash and
    /// each later one the hash of the entry before it, and entries are numbered
    /// 1, 2, 3, ... in order.
    pub proof fn lemma_chain(&self)
        requires
            self.wf(),
        ensures
            chain_ok(self.log_entries()),
            self.log_entries().len() > 0 ==> self.log_entries()[0].prev_hash@ == zero_hash(),
            forall|i: int| 0 < i < self.log_entries().len() ==> (#[trigger] self.log_entries()[i]).prev_hash@ == self.log_entries()[i - 1].entry_hash@,
            forall|i: int| 0 <= i < self.log_entries().len() ==> (#[trigger] self.log_entries()[i]).seq == i + 1,
    {
        assert forall|i: int| 0 < i < self.log_entries().len() implies (#[trigger] self.log_entries()[i]).prev_hash@ == self.log_entries()[i - 1].entry_hash@ by {
            assert(self.log_entries()[i].prev_hash == self.entries@[i].prev_hash);
        }
        if self.log_entries().len() > 0 {
            assert(self.entries@[0].prev_hash@ == zero_hash());
        }
    }

    /// The entries by actor `did`, oldest first.
    pub fn filter_by_actor(&self, did: &str) -> (r: Vec<AuditEntry>)
        ensures
            r@ == self.log_entries().filter(|e: AuditEntry| e.actor_did@ == did@),
    {
        let ghost pred = |e: AuditEntry| e.actor_did@ == did@;
        let key = String::from_str(did);
        let mut out: Vec<AuditEntry> = Vec::new();
        let mut i: usize = 0;
        while i < self.entries.len()
            invariant
                i <= self.entries@.len(),
                key@ == did@,
                pred == (|e: AuditEntry| e.actor_did@ == did@),
                out@ == self.entries@.take(i as int).filter(pred),
            decreases self.entries@.len() - i,
        {
            proof {
                crate::seqs::lemma_filter_take_succ(self.entries@, i as int, pred);
            }
            if self.entries[i].actor_did == key {
                out.push(self.entries[i].clone());
            }
            i = i + 1;
        }
        proof {
            crate::seqs::lemma_take_full(self.entries@);
        }
        out
    }

    /// The entries with outcome `result`, oldest first.
    pub fn filter_by_result(&self, result: AuditResult) -> (r: Vec<AuditEntry>)
        ensures
            r@ == self.log_entries().filter(|e: AuditEntry| e.result == result),
    {
        let ghost pred = |e: AuditEntry| e.result == result;
        let mut out: Vec<AuditEntry> = Vec::new();
        let mut i: usize = 0;
        while i < self.entries.len()
            invariant
                i <= self.entries@.len(),
                pred == (|e: AuditEntry| e.result == result),
                out@ == self.entries@.take(i as int).filter(pred),
            decreases self.entries@.len() - i,
        {
            proof {
                crate::seqs::lemma_filter_take_succ(self.entries@, i as int, pred);
            }
            if self.entries[i].result == result {
                out.push(self.entries[i].clone());
            }
            i = i + 1;
        }
        proof {
            crate::seqs::lemma_take_full(self.entries@);
        }
        out
    }
}


// ═══════════════════════════════════════════════════════════════════════════
// Peer reputation
// ═══════════════════════════════════════════════════════════════════════════

pub const REPUTATION_MAX: i32 = 100;

pub const REPUTATION_MIN: i32 = -100;

pub const BAN_THRESHOLD: i32 = -50;

#[derive(Debug)]
pub struct PeerReputation {
    pub peer_id: u64,
    pub score: i32,
    pub good_actions: u32,
    pub bad_actions: u32,
    pub banned: bool,
    pub last_updated: u64,
}

impl Clone for PeerReputation {
    fn clone(&self) -> (r: Self)
        ensures
            r == *self,
    {
        PeerReputation { ..*self }
    }
}

/// A peer after a reward of `amount` at `timestamp`: the score rises, capped
/// at the maximum, and a ban lifts once the score is above the threshold.
pub open spec fn rewarded(r: PeerReputation, amount: i32, timestamp: u64) -> PeerReputation {
    let score = if r.score + amount > REPUTATION_MAX {
        REPUTATION_MAX
    } else {
        (r.score + amount) as i32
    };
    PeerReputation {
        score,
        good_actions: (r.good_actions + 1) as u32,
        last_updated: timestamp,
        banned: r.banned && !(score > BAN_THRESHOLD),
        ..r
    }
}

/// A peer after a penalty of `amount` at `timestamp`: the score falls, floored
/// at the minimum, and at or below the threshold the peer is banned.
pub open spec fn penalized(r: PeerReputation, amount: i32, timestamp: u64) -> PeerReputation {
    let score = if r.score - amount < REPUTATION_MIN {
        REPUTATION_MIN
    } else {
        (r.score - amount) as i32
    };
    PeerReputation {
        score,
        bad_actions: (r.bad_actions + 1) as u32,
        last_updated: timestamp,
        banned: r.banned || score <= BAN_THRESHOLD,
        ..r
    }
}

pub open spec fn peer_at(s: Seq<PeerReputation>, id: u64, k: int) -> bool {
    0 <= k < s.len() && s[k].peer_id == id
}

pub open spec fn has_peer(s: Seq<PeerReputation>, id: u64) -> bool {
    exists|k: int| peer_at(s, id, k)
}

/// No peer is registered twice.
pub open spec fn peers_unique(s: Seq<PeerReputation>) -> bool {
    forall|i: int, j: int|
        0 <= i < s.len() && 0 <= j < s.len() && i != j ==> #[trigger] s[i].peer_id != #[trigger] s[j].peer_id
}

/// How many of `s` are banned.
pub open spec fn banned_in(s: Seq<PeerReputation>) -> nat {
    s.filter(|r: PeerReputation| r.banned).len()
}

/// The reputations of registered peers, in registration order.
pub struct ReputationSystem {
    peers: Vec<PeerReputation>,
}

impl ReputationSystem {
    pub closed spec fn peers(&self) -> Seq<PeerReputation> {
        self.peers@
    }

    pub fn new() -> (r: Self)
        ensures
            r.peers() == Seq::<PeerReputation>::empty(),
    {
        ReputationSystem { peers: Vec::new() }
    }

    fn find(&self, peer_id: u64) -> (r: Option<usize>)
        requires
            peers_unique(self.peers()),
        ensures
            r matches Some(k) ==> peer_at(self.peers(), peer_id, k as int) && forall|j: int|
                peer_at(self.peers(), peer_id, j) ==> j == k,
            r is None ==> !has_peer(self.peers(), peer_id),
    {
        let mut i: usize = 0;
        while i < self.peers.len()
            invariant
                peers_unique(self.peers@),
                i <= self.peers@.len(),
                forall|j: int| 0 <= j < i ==> #[trigger] self.peers@[j].peer_id != peer_id,
            decreases self.peers@.len() - i,
        {
            if self.peers[i].peer_id == peer_id {
                proof {
                    assert forall|j: int| peer_at(self.peers@, peer_id, j) implies j == i as int by {
                        if j != i as int {
                            assert(self.peers@[j].peer_id != self.peers@[i as int].peer_id);
                        }
                    }
                }
                return Some(i);
            }
            i = i + 1;
        }
        None
    }

    /// Registers `peer_id` with score 0, unless it is registered already.
    pub fn register(&mut self, peer_id: u64)
        requires
            peers_unique(old(self).peers()),
        ensures
            peers_unique(final(self).peers()),
            has_peer(old(self).peers(), peer_id) ==> final(self).peers() == old(self).peers(),
            !has_peer(old(self).peers(), peer_id) ==> final(self).peers() == old(self).peers().push(
                PeerReputation {
                    peer_id,
                    score: 0,
                    good_actions: 0,
                    bad_actions: 0,
                    banned: false,
                    last_updated: 0,
                },
            ),
    {
        match self.find(peer_id) {
            Some(_) => {},
            None => {
                self.peers.push(
                    PeerReputation {
                        peer_id,
                        score: 0,
                        good_actions: 0,
                        bad_actions: 0,
                        banned: false,
                        last_updated: 0,
                    },
                );
                proof {
                    let n = self.peers@;
                    assert forall|i: int, j: int|
                        0 <= i < n.len() && 0 <= j < n.len() && i != j implies #[trigger] n[i].peer_id
                        != #[trigger] n[j].peer_id by {
                        if i == n.len() - 1 {
                            assert(!peer_at(old(self).peers@, peer_id, j));
                        } else if j == n.len() - 1 {
                            assert(!peer_at(old(self).peers@, peer_id, i));
                        } else {
                            assert(n[i] == old(self).peers@[i] && n[j] == old(self).peers@[j]);
                        }
                    }
                }
            },
        }
    }

    /// Rewards a registered peer (see `rewarded`); others are ignored.
    pub fn reward(&mut self, peer_id: u64, amount: i32, timestamp: u64)
        requires
            peers_unique(old(self).peers()),
            forall|k: int|
                peer_at(old(self).peers(), peer_id, k) ==> {
                    &&& i32::MIN <= old(self).peers()[k].score + amount <= i32::MAX
                    &&& old(self).peers()[k].good_actions < u32::MAX
                },
        ensures
            peers_unique(final(self).peers()),
            !has_peer(old(self).peers(), peer_id) ==> final(self).peers() == old(self).peers(),
            forall|k: int|
                peer_at(old(self).peers(), peer_id, k) ==> final(self).peers() == old(self).peers().update(
                    k,
                    rewarded(old(self).peers()[k], amount, timestamp),
                ),
    {
        match self.find(peer_id) {
            Some(k) => {
                let ghost old_r = self.peers@[k as int];
                let sum = self.peers[k].score + amount;
                let score = if sum < REPUTATION_MAX {
                    sum
                } else {
                    REPUTATION_MAX
                };
                self.peers[k].score = score;
                self.peers[k].good_actions = self.peers[k].good_actions + 1;
                self.peers[k].last_updated = timestamp;
                if self.peers[k].banned && self.peers[k].score > BAN_THRESHOLD {
                    self.peers[k].banned = false;
                }
                proof {
                    assert(self.peers@[k as int] == rewarded(old_r, amount, timestamp));
                    assert(self.peers@ =~= old(self).peers@.update(k as int, rewarded(old_r, amount, timestamp)));
                }
            },
            None => {},
        }
    }

    /// Penalizes a registered peer (see `penalized`); others are ignored.
    pub fn penalize(&mut self, peer_id: u64, amount: i32, timestamp: u64)
        requires
            peers_unique(old(self).peers()),
            forall|k: int|
                peer_at(old(self).peers(), peer_id, k) ==> {
                    &&& i32::MIN <= old(self).peers()[k].score - amount <= i32::MAX
                    &&& old(self).peers()[k].bad_actions < u32::MAX
                },
        ensures
            peers_unique(final(self).peers()),
            !has_peer(old(self).peers(), peer_id) ==> final(self).peers() == old(self).peers(),
            forall|k: int|
                peer_at(old(self).peers(), peer_id, k) ==> final(self).peers() == old(self).peers().update(
                    k,
                    penalized(old(self).peers()[k], amount, timestamp),
                ),
    {
        match self.find(peer_id) {
            Some(k) => {
                let ghost old_r = self.peers@[k as int];
                let diff = self.peers[k].score - amount;
                let score = if diff > REPUTATION_MIN {
                    diff
                } else {
                    REPUTATION_MIN
                };
                self.peers[k].score = score;
                self.peers[k].bad_actions = self.peers[k].bad_actions + 1;
                self.peers[k].last_updated = timestamp;
                if self.peers[k].score <= BAN_THRESHOLD {
                    self.peers[k].banned = true;
                }
                proof {
                    assert(self.peers@[k as int] == penalized(old_r, amount, timestamp));
                    assert(self.peers@ =~= old(self).peers@.update(k as int, penalized(old_r, amount, timestamp)));
                }
            },
            None => {},
        }
    }

    /// Whether `peer_id` is banned; an unregistered peer is not.
    pub fn is_banned(&self, peer_id: u64) -> (r: bool)
        requires
            peers_unique(self.peers()),
        ensures
            r == exists|k: int| peer_at(self.peers(), peer_id, k) && self.peers()[k].banned,
    {
        match self.find(peer_id) {
            Some(k) => self.peers[k].banned,
            None => false,
        }
    }

    /// The score of `peer_id`; 0 for an unregistered peer.
    pub fn score(&self, peer_id: u64) -> (r: i32)
        requires
            peers_unique(self.peers()),
        ensures
            !has_peer(self.peers(), peer_id) ==> r == 0,
            forall|k: int| peer_at(self.peers(), peer_id, k) ==> r == self.peers()[k].score,
    {
        match self.find(peer_id) {
            Some(k) => self.peers[k].score,
            None => 0,
        }
    }

    /// A copy of the record of `peer_id`, where it is registered.
    pub fn get(&self, peer_id: u64) -> (r: Option<PeerReputation>)
        requires
            peers_unique(self.peers()),
        ensures
            r is None <==> !has_peer(self.peers(), peer_id),
            r matches Some(p) ==> forall|k: int| peer_at(self.peers(), peer_id, k) ==> p == self.peers()[k],
    {
        match self.find(peer_id) {
            Some(k) => Some(self.peers[k].clone()),
            None => None,
        }
    }

    pub fn peer_count(&self) -> (n: usize)
        ensures
            n == self.peers().len(),
    {
        self.peers.len()
    }

    /// How many registered peers are banned.
    pub fn banned_count(&self) -> (n: usize)
        ensures
            n == banned_in(self.peers()),
    {
        let ghost pred = |r: PeerReputation| r.banned;
        let mut n: usize = 0;
        let mut i: usize = 0;
        while i < self.peers.len()
            invariant
                i <= self.peers@.len(),
                pred == (|r: PeerReputation| r.banned),
                n == self.peers@.take(i as int).filter(pred).len(),
                n <= i,
            decreases self.peers@.len() - i,
        {
            proof {
                crate::seqs::lemma_filter_take_succ(self.peers@, i as int, pred);
            }
            if self.peers[i].banned {
                n = n + 1;
            }
            i = i + 1;
        }
        proof {
            crate::seqs::lemma_take_full(self.peers@);
        }
        n
    }

    /// Lifts the ban of `peer_id` and resets its score to 0.
    pub fn unban(&mut self, peer_id: u64)
        requires
            peers_unique(old(self).peers()),
        ensures
            peers_unique(final(self).peers()),
            !has_peer(old(self).peers(), peer_id) ==> final(self).peers() == old(self).peers(),
            forall|k: int|
                peer_at(old(self).peers(), peer_id, k) ==> final(self).peers() == old(self).peers().update(
                    k,
                    PeerReputation { banned: false, score: 0, ..old(self).peers()[k] },
                ),
    {
        match self.find(peer_id) {
            Some(k) => {
                self.peers[k].banned = false;
                self.peers[k].score = 0;
                proof {
                    assert(self.peers@ =~= old(self).peers@.update(
                        k as int,
                        PeerReputation { banned: false, score: 0, ..old(self).peers@[k as int] },
                    ));
                }
            },
            None => {},
        }
    }
}


// ═══════════════════════════════════════════════════════════════════════════
// Rate limiting
// ═══════════════════════════════════════════════════════════════════════════

/// What a token bucket holds.
pub struct BucketView {
    pub capacity: u32,
    pub tokens: u32,
    pub refill_rate: u32,
    pub last_refill: u64,
}

/// Tokens owed at `now`: whole seconds since the last refill (their count cut to
/// 32 bits) times the rate.
pub open spec fn refill_of(b: BucketView, now: u64) -> int {
    let elapsed = if now >= b.last_refill {
        now - b.last_refill
    } else {
        0
    };
    ((elapsed / 1_000_000_000) as u32) * b.refill_rate
}

/// The refill at `now` and the tokens after it fit in 32 bits.
pub open spec fn bucket_fits(b: BucketView, now: u64) -> bool {
    refill_of(b, now) <= u32::MAX && b.tokens + refill_of(b, now) <= u32::MAX
}

/// The bucket once refilled at `now`: where tokens are owed they are added, up
/// to the capacity, and the refill time moves to `now`.
pub open spec fn refilled(b: BucketView, now: u64) -> BucketView {
    if refill_of(b, now) > 0 {
        BucketView {
            tokens: if b.tokens + refill_of(b, now) < b.capacity {
                (b.tokens + refill_of(b, now)) as u32
            } else {
                b.capacity
            },
            last_refill: now,
            ..b
        }
    } else {
        b
    }
}

/// Taking `count` tokens at `now`: the bucket refills, then gives the tokens
/// where it holds that many.
pub open spec fn consume_outcome(b: BucketView, now: u64, count: u32) -> (BucketView, bool) {
    let f = refilled(b, now);
    if f.tokens >= count {
        (BucketView { tokens: (f.tokens - count) as u32, ..f }, true)
    } else {
        (f, false)
    }
}

pub struct TokenBucket {
    capacity: u32,
    tokens: u32,
    refill_rate: u32,
    last_refill: u64,
}

impl View for TokenBucket {
    type V = BucketView;

    closed spec fn view(&self) -> BucketView {
        BucketView {
            capacity: self.capacity,
            tokens: self.tokens,
            refill_rate: self.refill_rate,
            last_refill: self.last_refill,
        }
    }
}

/// The tokens a bucket would hold at `now`: what it holds plus what is owed,
/// up to the capacity.
pub open spec fn available_at(b: BucketView, now: u64) -> int {
    if b.tokens + refill_of(b, now) < b.capacity {
        b.tokens + refill_of(b, now)
    } else {
        b.capacity as int
    }
}

/// A bucket holds at most its capacity.
pub open spec fn within_capacity(b: BucketView) -> bool {
    b.tokens <= b.capacity
}

impl TokenBucket {
    /// A bucket never holds more tokens than its capacity.
    #[verifier::type_invariant]
    spec fn holds_at_most_capacity(self) -> bool {
        self.tokens <= self.capacity
    }

    /// A full bucket of `capacity` tokens, refilling `refill_rate` per second.
    pub fn new(capacity: u32, refill_rate: u32, now: u64) -> (b: Self)
        ensures
            b@ == (BucketView { capacity, tokens: capacity, refill_rate, last_refill: now }),
            within_capacity(b@),
    {
        TokenBucket { capacity, tokens: capacity, refill_rate, last_refill: now }
    }

    fn refill_amount(&self, now: u64) -> (r: u32)
        requires
            refill_of(self@, now) <= u32::MAX,
        ensures
            r == refill_of(self@, now),
    {
        let elapsed_ns = now.saturating_sub(self.last_refill);
        let elapsed_secs = elapsed_ns / 1_000_000_000;
        (elapsed_secs as u32) * self.refill_rate
    }

    /// Takes `count` tokens at `now`; see `consume_outcome`.
    pub fn try_consume(&mut self, now: u64, count: u32) -> (r: bool)
        requires
            bucket_fits(old(self)@, now),
        ensures
            (final(self)@, r) == consume_outcome(old(self)@, now, count),
            within_capacity(old(self)@),
            within_capacity(final(self)@),
    {
        proof {
            use_type_invariant(&*self);
        }
        let refill = self.refill_amount(now);
        if refill > 0 {
            let sum = self.tokens + refill;
            self.tokens = if sum < self.capacity {
                sum
            } else {
                self.capacity
            };
            self.last_refill = now;
        }
        if self.tokens >= count {
            self.tokens = self.tokens - count;
            true
        } else {
            false
        }
    }

    /// The tokens there would be at `now`, without taking any.
    pub fn available(&self, now: u64) -> (r: u32)
        requires
            bucket_fits(self@, now),
        ensures
            r == available_at(self@, now),
            within_capacity(self@),
            r <= self@.capacity,
    {
        proof {
            use_type_invariant(self);
        }
        let refill = self.refill_amount(now);
        let sum = self.tokens + refill;
        if sum < self.capacity {
            sum
        } else {
            self.capacity
        }
    }
}

/// The buckets by peer, and the shape of new buckets.
pub struct LimiterView {
    pub buckets: Seq<(u64, BucketView)>,
    pub capacity: u32,
    pub refill_rate: u32,
}

pub open spec fn bucket_at(v: LimiterView, peer: u64, k: int) -> bool {
    0 <= k < v.buckets.len() && v.buckets[k].0 == peer
}

pub open spec fn has_bucket(v: LimiterView, peer: u64) -> bool {
    exists|k: int| bucket_at(v, peer, k)
}

/// No peer has two buckets.
pub open spec fn limiter_wf(v: LimiterView) -> bool {
    forall|i: int, j: int|
        0 <= i < v.buckets.len() && 0 <= j < v.buckets.len() && i != j ==> #[trigger] v.buckets[i].0
            != #[trigger] v.buckets[j].0
}

/// The peer's bucket meets the 32-bit bounds at `now`.
pub open spec fn limiter_fits(v: LimiterView, peer: u64, now: u64) -> bool {
    forall|k: int| bucket_at(v, peer, k) ==> bucket_fits(v.buckets[k].1, now)
}

/// A request of `peer` at `now`: its bucket, made full on its first request,
/// gives one token or refuses.
pub open spec fn allow_outcome(v: LimiterView, peer: u64, now: u64) -> (LimiterView, bool) {
    if has_bucket(v, peer) {
        let k = choose|k: int| bucket_at(v, peer, k);
        let (b, ok) = consume_outcome(v.buckets[k].1, now, 1);
        (LimiterView { buckets: v.buckets.update(k, (peer, b)), ..v }, ok)
    } else {
        let fresh = BucketView {
            capacity: v.capacity,
            tokens: v.capacity,
            refill_rate: v.refill_rate,
            last_refill: now,
        };
        let (b, ok) = consume_outcome(fresh, now, 1);
        (LimiterView { buckets: v.buckets.push((peer, b)), ..v }, ok)
    }
}

/// A token bucket per peer.
pub struct RateLimiter {
    buckets: Vec<(u64, TokenBucket)>,
    capacity: u32,
    refill_rate: u32,
}

impl View for RateLimiter {
    type V = LimiterView;

    closed spec fn view(&self) -> LimiterView {
        LimiterView {
            buckets: self.buckets@.map_values(|e: (u64, TokenBucket)| (e.0, e.1@)),
            capacity: self.capacity,
            refill_rate: self.refill_rate,
        }
    }
}

impl RateLimiter {
    pub fn new(capacity: u32, refill_rate: u32) -> (l: Self)
        ensures
            limiter_wf(l@),
            l@ == (LimiterView { buckets: Seq::empty(), capacity, refill_rate }),
    {
        let l = RateLimiter { buckets: Vec::new(), capacity, refill_rate };
        assert(l@.buckets =~= Seq::<(u64, BucketView)>::empty());
        l
    }

    /// Whether `peer` may send at `now`; see `allow_outcome`.
    pub fn allow(&mut self, peer_id: u64, now: u64) -> (r: bool)
        requires
            limiter_wf(old(self)@),
            limiter_fits(old(self)@, peer_id, now),
        ensures
            limiter_wf(final(self)@),
            (final(self)@, r) == allow_outcome(old(self)@, peer_id, now),
    {
        let ghost v = self@;
        let mut i: usize = 0;
        while i < self.buckets.len()
            invariant
                self@ == v,
                v == old(self)@,
                limiter_wf(v),
                limiter_fits(v, peer_id, now),
                i <= v.buckets.len(),
                forall|j: int| 0 <= j < i ==> #[trigger] v.buckets[j].0 != peer_id,
            decreases v.buckets.len() - i,
        {
            if self.buckets[i].0 == peer_id {
                proof {
                    assert(bucket_at(v, peer_id, i as int));
                    assert forall|j: int| bucket_at(v, peer_id, j) implies j == i as int by {
                        if j != i as int {
                            assert(v.buckets[j].0 != v.buckets[i as int].0);
                        }
                    }
                }
                let ghost k = choose|k: int| bucket_at(v, peer_id, k);
                assert(k == i as int);
                assert(self.buckets@[i as int].1@ == v.buckets[i as int].1);
                let r = self.buckets[i].1.try_consume(now, 1);
                proof {
                    let (b2, ok) = consume_outcome(v.buckets[i as int].1, now, 1);
                    assert(self.buckets@[i as int].1@ == b2 && r == ok);
                    assert(self@.buckets =~= v.buckets.update(i as int, (peer_id, b2)));
                    assert(allow_outcome(v, peer_id, now) == (LimiterView { buckets: v.buckets.update(i as int, (peer_id, b2)), ..v }, ok));
                    assert(self@.buckets =~= v.buckets.update(i as int, (peer_id, self.buckets@[i as int].1@)));
                    assert(limiter_wf(self@)) by {
                        let n = self@;
                        assert forall|a: int, c: int|
                            0 <= a < n.buckets.len() && 0 <= c < n.buckets.len() && a != c implies #[trigger] n.buckets[a].0
                            != #[trigger] n.buckets[c].0 by {
                            assert(n.buckets[a].0 == v.buckets[a].0 && n.buckets[c].0 == v.buckets[c].0);
                        }
                    }
                }
                return r;
            }
            i = i + 1;
        }
        let mut b = TokenBucket::new(self.capacity, self.refill_rate, now);
        assert(refill_of(b@, now) == 0);
        let r = b.try_consume(now, 1);
        let ghost bv = b@;
        self.buckets.push((peer_id, b));
        proof {
            assert(!has_bucket(v, peer_id));
            assert(self@.buckets =~= v.buckets.push((peer_id, bv)));
            let n = self@;
            assert forall|a: int, c: int|
                0 <= a < n.buckets.len() && 0 <= c < n.buckets.len() && a != c implies #[trigger] n.buckets[a].0
                != #[trigger] n.buckets[c].0 by {
                if a < v.buckets.len() && c < v.buckets.len() {
                    assert(n.buckets[a] == v.buckets[a] && n.buckets[c] == v.buckets[c]);
                }
            }
        }
        r
    }

    pub fn peer_count(&self) -> (n: usize)
        ensures
            n == self@.buckets.len(),
    {
        self.buckets.len()
    }
}


// ═══════════════════════════════════════════════════════════════════════════
// Keyed channels
// ═══════════════════════════════════════════════════════════════════════════

/// `data` with byte `i` xored with key byte `i` modulo 32.
pub open spec fn keyed(data: Seq<u8>, key: Seq<u8>) -> Seq<u8> {
    Seq::new(data.len(), |i: int| data[i] ^ key[i % 32])
}

/// A channel to one peer, keyed with a 32-byte session key.
#[derive(Debug)]
pub struct SecureChannel {
    pub peer_did: String,
    pub session_key: [u8; 32],
    pub established: bool,
    pub messages_sent: u64,
    pub messages_recv: u64,
}

impl Clone for SecureChannel {
    fn clone(&self) -> (r: Self)
        ensures
            r == *self,
    {
        SecureChannel {
            peer_did: self.peer_did.clone(),
            session_key: self.session_key,
            established: self.established,
            messages_sent: self.messages_sent,
            messages_recv: self.messages_recv,
        }
    }
}

impl SecureChannel {
    /// An established channel with no messages yet.
    pub fn new(peer_did: String, session_key: [u8; 32]) -> (c: Self)
        ensures
            c == (SecureChannel {
                peer_did,
                session_key,
                established: true,
                messages_sent: 0,
                messages_recv: 0,
            }),
    {
        SecureChannel { peer_did, session_key, established: true, messages_sent: 0, messages_recv: 0 }
    }

    /// Encrypts `plaintext` with the session key and counts a message sent.
    pub fn encrypt(&mut self, plaintext: &[u8]) -> (r: Vec<u8>)
        requires
            old(self).messages_sent < u64::MAX,
        ensures
            r@ == keyed(plaintext@, old(self).session_key@),
            *final(self) == (SecureChannel { messages_sent: (old(self).messages_sent + 1) as u64, ..*old(self) }),
    {
        self.messages_sent = self.messages_sent + 1;
        let mut out: Vec<u8> = Vec::new();
        let mut i: usize = 0;
        while i < plaintext.len()
            invariant
                i <= plaintext@.len(),
                out@ == keyed(plaintext@, self.session_key@).take(i as int),
            decreases plaintext@.len() - i,
        {
            out.push(plaintext[i] ^ self.session_key[i % 32]);
            i = i + 1;
            assert(out@ =~= keyed(plaintext@, self.session_key@).take(i as int));
        }
        assert(out@ =~= keyed(plaintext@, self.session_key@));
        out
    }

    /// Decrypts `ciphertext` with the session key (the same keyed xor) and
    /// counts a message received and, as the shared path does, one sent.
    pub fn decrypt(&mut self, ciphertext: &[u8]) -> (r: Vec<u8>)
        requires
            old(self).messages_sent < u64::MAX,
            old(self).messages_recv < u64::MAX,
        ensures
            r@ == keyed(ciphertext@, old(self).session_key@),
            *final(self) == (SecureChannel {
                messages_sent: (old(self).messages_sent + 1) as u64,
                messages_recv: (old(self).messages_recv + 1) as u64,
                ..*old(self)
            }),
    {
        self.messages_recv = self.messages_recv + 1;
        self.encrypt(ciphertext)
    }

    pub fn is_established(&self) -> (r: bool)
        ensures
            r == self.established,
    {
        self.established
    }

    pub fn close(&mut self)
        ensures
            *final(self) == (SecureChannel { established: false, ..*old(self) }),
    {
        self.established = false;
    }
}

pub open spec fn channel_at(s: Seq<SecureChannel>, did: Seq<char>, k: int) -> bool {
    0 <= k < s.len() && s[k].peer_did@ == did
}

pub open spec fn has_channel_for(s: Seq<SecureChannel>, did: Seq<char>) -> bool {
    exists|k: int| channel_at(s, did, k)
}

/// No peer has two channels.
pub open spec fn channels_unique(s: Seq<SecureChannel>) -> bool {
    forall|i: int, j: int|
        0 <= i < s.len() && 0 <= j < s.len() && i != j ==> #[trigger] s[i].peer_did@ != #[trigger] s[j].peer_did@
}

/// An open channel of `did` can count one more message sent.
pub open spec fn send_room(s: Seq<SecureChannel>, did: Seq<char>) -> bool {
    forall|k: int| channel_at(s, did, k) && s[k].established ==> s[k].messages_sent < u64::MAX
}

/// An open channel of `did` can count one more message received (and sent).
pub open spec fn recv_room(s: Seq<SecureChannel>, did: Seq<char>) -> bool {
    forall|k: int|
        channel_at(s, did, k) && s[k].established ==> s[k].messages_sent < u64::MAX && s[k].messages_recv
            < u64::MAX
}

/// The channels by peer DID.
pub struct SecureChannelManager {
    channels: Vec<SecureChannel>,
}

impl SecureChannelManager {
    pub closed spec fn channels(&self) -> Seq<SecureChannel> {
        self.channels@
    }

    pub fn new() -> (m: Self)
        ensures
            m.channels() == Seq::<SecureChannel>::empty(),
    {
        SecureChannelManager { channels: Vec::new() }
    }

    fn find(&self, did: &str) -> (r: Option<usize>)
        requires
            channels_unique(self.channels()),
        ensures
            r matches Some(k) ==> channel_at(self.channels(), did@, k as int) && forall|j: int|
                channel_at(self.channels(), did@, j) ==> j == k,
            r is None ==> !has_channel_for(self.channels(), did@),
    {
        let key = String::from_str(did);
        let mut i: usize = 0;
        while i < self.channels.len()
            invariant
                channels_unique(self.channels@),
                key@ == did@,
                i <= self.channels@.len(),
                forall|j: int| 0 <= j < i ==> #[trigger] self.channels@[j].peer_did@ != did@,
            decreases self.channels@.len() - i,
        {
            if self.channels[i].peer_did == key {
                proof {
                    assert forall|j: int| channel_at(self.channels@, did@, j) implies j == i as int by {
                        if j != i as int {
                            assert(self.channels@[j].peer_did@ != self.channels@[i as int].peer_did@);
                        }
                    }
                }
                return Some(i);
            }
            i = i + 1;
        }
        None
    }

    /// Opens a channel to `peer_did`, replacing any channel it had.
    pub fn establish(&mut self, peer_did: String, session_key: [u8; 32]) -> (r: bool)
        requires
            channels_unique(old(self).channels()),
        ensures
            r,
            channels_unique(final(self).channels()),
            ({
                let c = SecureChannel {
                    peer_did,
                    session_key,
                    established: true,
                    messages_sent: 0,
                    messages_recv: 0,
                };
                &&& !has_channel_for(old(self).channels(), peer_did@) ==> final(self).channels()
                    == old(self).channels().push(c)
                &&& forall|k: int|
                    channel_at(old(self).channels(), peer_did@, k) ==> final(self).channels() == old(
                        self,
                    ).channels().update(k, c)
            }),
    {
        let ghost v = self.channels@;
        let found = self.find(peer_did.as_str());
        let channel = SecureChannel::new(peer_did, session_key);
        match found {
            Some(k) => {
                self.channels.set(k, channel);
                proof {
                    let n = self.channels@;
                    assert forall|a: int, b: int|
                        0 <= a < n.len() && 0 <= b < n.len() && a != b implies #[trigger] n[a].peer_did@
                        != #[trigger] n[b].peer_did@ by {
                        assert(n[a].peer_did@ == v[a].peer_did@ && n[b].peer_did@ == v[b].peer_did@);
                    }
                }
            },
            None => {
                self.channels.push(channel);
                proof {
                    let n = self.channels@;
                    assert forall|a: int, b: int|
                        0 <= a < n.len() && 0 <= b < n.len() && a != b implies #[trigger] n[a].peer_did@
                        != #[trigger] n[b].peer_did@ by {
                        if a == n.len() - 1 {
                            assert(!channel_at(v, n[a].peer_did@, b));
                        } else if b == n.len() - 1 {
                            assert(!channel_at(v, n[b].peer_did@, a));
                        } else {
                            assert(n[a] == v[a] && n[b] == v[b]);
                        }
                    }
                }
            },
        }
        true
    }

    /// Encrypts for `peer_did`; refused without an open channel to it.
    pub fn send(&mut self, peer_did: &str, plaintext: &[u8]) -> (r: Result<Vec<u8>, SecurityError>)
        requires
            channels_unique(old(self).channels()),
            send_room(old(self).channels(), peer_did@),
        ensures
            channels_unique(final(self).channels()),
            match r {
                Ok(ct) => exists|k: int|
                    {
                        &&& channel_at(old(self).channels(), peer_did@, k)
                        &&& old(self).channels()[k].established
                        &&& ct@ == keyed(plaintext@, old(self).channels()[k].session_key@)
                        &&& final(self).channels() == old(self).channels().update(
                            k,
                            SecureChannel {
                                messages_sent: (old(self).channels()[k].messages_sent + 1) as u64,
                                ..old(self).channels()[k]
                            },
                        )
                    },
                Err(e) => e == SecurityError::ChannelNotEstablished && final(self).channels() == old(
                    self,
                ).channels() && forall|k: int|
                    channel_at(old(self).channels(), peer_did@, k) ==> !old(self).channels()[k].established,
            },
    {
        match self.find(peer_did) {
            Some(k) => {
                if !self.channels[k].is_established() {
                    return Err(SecurityError::ChannelNotEstablished);
                }
                let ghost v = self.channels@;
                let ct = self.channels[k].encrypt(plaintext);
                proof {
                    assert(self.channels@ =~= v.update(k as int, self.channels@[k as int]));
                    let n = self.channels@;
                    assert forall|a: int, b: int|
                        0 <= a < n.len() && 0 <= b < n.len() && a != b implies #[trigger] n[a].peer_did@
                        != #[trigger] n[b].peer_did@ by {
                        assert(n[a].peer_did@ == v[a].peer_did@ && n[b].peer_did@ == v[b].peer_did@);
                    }
                }
                Ok(ct)
            },
            None => Err(SecurityError::ChannelNotEstablished),
        }
    }

    /// Decrypts from `peer_did`; refused without an open channel to it.
    pub fn recv(&mut self, peer_did: &str, ciphertext: &[u8]) -> (r: Result<Vec<u8>, SecurityError>)
        requires
            channels_unique(old(self).channels()),
            recv_room(old(self).channels(), peer_did@),
        ensures
            channels_unique(final(self).channels()),
            match r {
                Ok(pt) => exists|k: int|
                    {
                        &&& channel_at(old(self).channels(), peer_did@, k)
                        &&& old(self).channels()[k].established
                        &&& pt@ == keyed(ciphertext@, old(self).channels()[k].session_key@)
                        &&& final(self).channels() == old(self).channels().update(
                            k,
                            SecureChannel {
                                messages_sent: (old(self).channels()[k].messages_sent + 1) as u64,
                                messages_recv: (old(self).channels()[k].messages_recv + 1) as u64,
                                ..old(self).channels()[k]
                            },
                        )
                    },
                Err(e) => e == SecurityError::ChannelNotEstablished && final(self).channels() == old(
                    self,
                ).channels() && forall|k: int|
                    channel_at(old(self).channels(), peer_did@, k) ==> !old(self).channels()[k].established,
            },
    {
        match self.find(peer_did) {
            Some(k) => {
                if !self.channels[k].is_established() {
                    return Err(SecurityError::ChannelNotEstablished);
                }
                let ghost v = self.channels@;
                let pt = self.channels[k].decrypt(ciphertext);
                proof {
                    assert(self.channels@ =~= v.update(k as int, self.channels@[k as int]));
                    let n = self.channels@;
                    assert forall|a: int, b: int|
                        0 <= a < n.len() && 0 <= b < n.len() && a != b implies #[trigger] n[a].peer_did@
                        != #[trigger] n[b].peer_did@ by {
                        assert(n[a].peer_did@ == v[a].peer_did@ && n[b].peer_did@ == v[b].peer_did@);
                    }
                }
                Ok(pt)
            },
            None => Err(SecurityError::ChannelNotEstablished),
        }
    }

    /// Closes the channel to `peer_did`, where there is one; it stays listed.
    pub fn close(&mut self, peer_did: &str)
        requires
            channels_unique(old(self).channels()),
        ensures
            channels_unique(final(self).channels()),
            !has_channel_for(old(self).channels(), peer_did@) ==> final(self).channels() == old(
                self,
            ).channels(),
            forall|k: int|
                channel_at(old(self).channels(), peer_did@, k) ==> final(self).channels() == old(
                    self,
                ).channels().update(k, SecureChannel { established: false, ..old(self).channels()[k] }),
    {
        match self.find(peer_did) {
            Some(k) => {
                let ghost v = self.channels@;
                self.channels[k].close();
                proof {
                    assert(self.channels@ =~= v.update(k as int, self.channels@[k as int]));
                    let n = self.channels@;
                    assert forall|a: int, b: int|
                        0 <= a < n.len() && 0 <= b < n.len() && a != b implies #[trigger] n[a].peer_did@
                        != #[trigger] n[b].peer_did@ by {
                        assert(n[a].peer_did@ == v[a].peer_did@ && n[b].peer_did@ == v[b].peer_did@);
                    }
                }
            },
            None => {},
        }
    }

    pub fn channel_count(&self) -> (n: usize)
        ensures
            n == self.channels().len(),
    {
        self.channels.len()
    }

    pub fn has_channel(&self, peer_did: &str) -> (r: bool)
        requires
            channels_unique(self.channels()),
        ensures
            r == has_channel_for(self.channels(), peer_did@),
    {
        self.find(peer_did).is_some()
    }
}


// ═══════════════════════════════════════════════════════════════════════════
// The security manager
// ═══════════════════════════════════════════════════════════════════════════

/// The security services of one node.
pub struct SecurityManager {
    pub multisig: MultiSigManager,
    pub audit: AuditLog,
    pub reputation: ReputationSystem,
    pub rate_limiter: RateLimiter,
    pub channels: SecureChannelManager,
}

impl SecurityManager {
    /// The invariants of the parts.
    pub open spec fn wf(&self) -> bool {
        &&& multisig_wf(self.multisig@)
        &&& self.audit.wf()
        &&& peers_unique(self.reputation.peers())
        &&& limiter_wf(self.rate_limiter@)
        &&& channels_unique(self.channels.channels())
    }

    /// Fresh services; peers get 100 tokens, refilled at 10 per second.
    pub fn new() -> (m: Self)
        ensures
            m.wf(),
            m.multisig@.proposals.len() == 0 && m.multisig@.next_id == 1,
            m.audit.log_entries().len() == 0,
            m.reputation.peers().len() == 0,
            m.rate_limiter@ == (LimiterView { buckets: Seq::empty(), capacity: 100, refill_rate: 10 }),
            m.channels.channels().len() == 0,
    {
        SecurityManager {
            multisig: MultiSigManager::new(),
            audit: AuditLog::new(),
            reputation: ReputationSystem::new(),
            rate_limiter: RateLimiter::new(100, 10),
            channels: SecureChannelManager::new(),
        }
    }

    /// Whether `peer_id` may communicate at `now`: a banned peer may not (and
    /// spends no token); any other asks the rate limiter.
    pub fn check_peer(&mut self, peer_id: u64, now: u64) -> (r: bool)
        requires
            old(self).wf(),
            (exists|k: int| peer_at(old(self).reputation.peers(), peer_id, k) && old(self).reputation.peers()[k].banned)
                || limiter_fits(old(self).rate_limiter@, peer_id, now),
        ensures
            final(self).wf(),
            final(self).multisig@ == old(self).multisig@,
            final(self).audit == old(self).audit,
            final(self).reputation.peers() == old(self).reputation.peers(),
            final(self).channels.channels() == old(self).channels.channels(),
            (exists|k: int|
                peer_at(old(self).reputation.peers(), peer_id, k) && old(self).reputation.peers()[k].banned)
                ==> !r && final(self).rate_limiter@ == old(self).rate_limiter@,
            !(exists|k: int|
                peer_at(old(self).reputation.peers(), peer_id, k) && old(self).reputation.peers()[k].banned)
                ==> (final(self).rate_limiter@, r) == allow_outcome(old(self).rate_limiter@, peer_id, now),
    {
        if self.reputation.is_banned(peer_id) {
            return false;
        }
        self.rate_limiter.allow(peer_id, now)
    }

    /// Records a security action in the audit log.
    pub fn audit_log(
        &mut self,
        timestamp: u64,
        actor: String,
        action: String,
        resource: String,
        result: AuditResult,
    )
        requires
            old(self).wf(),
            old(self).audit.log_entries().len() < u64::MAX,
        ensures
            final(self).wf(),
            final(self).multisig@ == old(self).multisig@,
            final(self).reputation.peers() == old(self).reputation.peers(),
            final(self).rate_limiter@ == old(self).rate_limiter@,
            final(self).channels.channels() == old(self).channels.channels(),
            final(self).audit.log_entries().len() == old(self).audit.log_entries().len() + 1,
            final(self).audit.log_entries().drop_last() == old(self).audit.log_entries(),
            ({
                let e = final(self).audit.log_entries().last();
                &&& e.seq == old(self).audit.log_entries().len() + 1
                &&& e.timestamp == timestamp
                &&& e.actor_did == actor
                &&& e.action == action
                &&& e.resource == resource
                &&& e.result == result
                &&& e.prev_hash@ == old(self).audit.last_hash()
                &&& e.entry_hash@ == digest(entry_input(e))
            }),
    {
        self.audit.log(timestamp, actor, action, resource, result);
    }
}

} // verus!
