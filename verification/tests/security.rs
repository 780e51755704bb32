use shivacore::security::{
    simple_hash, AuditLog, AuditResult, MultiSigManager, RateLimiter, ReputationSystem,
    SecureChannelManager, SecurityError, SecurityManager, REPUTATION_MAX, REPUTATION_MIN,
};

// ── Multi-Sig (ATC-18) ─────────────────────────────────────────────────

#[test]
fn test_multisig_create() {
    let mut mgr = MultiSigManager::new();
    let id = mgr.create("Transfer 100 ATC".into(), [0x42; 32], 3, 5, 1000);
    let p = mgr.get(id).unwrap();
    assert_eq!(p.required_sigs, 3);
    assert_eq!(p.total_signers, 5);
    assert!(!p.is_ready());
    assert_eq!(p.remaining_sigs(), 3);
}

#[test]
fn test_multisig_sign_and_execute() {
    let mut mgr = MultiSigManager::new();
    let id = mgr.create("Update protocol".into(), [0xAA; 32], 2, 3, 1000);

    // 2 Signaturen
    mgr.sign(id, "did:node1".into(), [1u8; 64]).unwrap();
    assert!(!mgr.get(id).unwrap().is_ready());

    mgr.sign(id, "did:node2".into(), [2u8; 64]).unwrap();
    assert!(mgr.get(id).unwrap().is_ready());
    assert_eq!(mgr.get(id).unwrap().remaining_sigs(), 0);

    // Execute
    mgr.execute(id).unwrap();
    assert!(mgr.get(id).unwrap().executed);
}

#[test]
fn test_multisig_duplicate_signer() {
    let mut mgr = MultiSigManager::new();
    let id = mgr.create("Test".into(), [0; 32], 2, 3, 1000);
    mgr.sign(id, "did:node1".into(), [1u8; 64]).unwrap();
    assert_eq!(
        mgr.sign(id, "did:node1".into(), [1u8; 64]),
        Err(SecurityError::AlreadySigned("did:node1".into()))
    );
}

#[test]
fn test_multisig_insufficient() {
    let mut mgr = MultiSigManager::new();
    let id = mgr.create("Test".into(), [0; 32], 3, 5, 1000);
    mgr.sign(id, "did:node1".into(), [1u8; 64]).unwrap();
    mgr.sign(id, "did:node2".into(), [2u8; 64]).unwrap();
    assert_eq!(
        mgr.execute(id),
        Err(SecurityError::InsufficientSignatures { have: 2, required: 3 })
    );
}

#[test]
fn test_multisig_already_executed() {
    let mut mgr = MultiSigManager::new();
    let id = mgr.create("Test".into(), [0; 32], 1, 1, 1000);
    mgr.sign(id, "did:node1".into(), [1u8; 64]).unwrap();
    mgr.execute(id).unwrap();
    assert_eq!(mgr.execute(id), Err(SecurityError::AlreadyExecuted));
}

#[test]
fn test_multisig_too_many_signatures() {
    let mut mgr = MultiSigManager::new();
    let id = mgr.create("Test".into(), [0; 32], 1, 2, 1000);
    mgr.sign(id, "did:node1".into(), [1u8; 64]).unwrap();
    mgr.sign(id, "did:node2".into(), [2u8; 64]).unwrap();
    assert_eq!(
        mgr.sign(id, "did:node3".into(), [3u8; 64]),
        Err(SecurityError::TooManySignatures)
    );
}

#[test]
fn test_multisig_not_found() {
    let mut mgr = MultiSigManager::new();
    assert_eq!(mgr.sign(999, "did:x".into(), [0; 64]), Err(SecurityError::ProposalNotFound));
    assert_eq!(mgr.execute(999), Err(SecurityError::ProposalNotFound));
}

// ── Audit-Log ──────────────────────────────────────────────────────────

#[test]
fn test_audit_log_basic() {
    let mut log = AuditLog::new();
    log.log(1000, "did:admin".into(), "write".into(), "/etc/config".into(), AuditResult::Allowed);
    log.log(2000, "did:guest".into(), "read".into(), "/etc/shadow".into(), AuditResult::Denied);

    assert_eq!(log.count(), 2);
    let entries = log.entries();
    assert_eq!(entries[0].seq, 1);
    assert_eq!(entries[0].result, AuditResult::Allowed);
    assert_eq!(entries[1].seq, 2);
    assert_eq!(entries[1].result, AuditResult::Denied);
}

#[test]
fn test_audit_log_tamper_evident() {
    let mut log = AuditLog::new();
    log.log(1000, "did:a".into(), "action1".into(), "res1".into(), AuditResult::Allowed);
    log.log(2000, "did:b".into(), "action2".into(), "res2".into(), AuditResult::Denied);
    assert!(log.verify_chain());
}

#[test]
fn test_audit_log_filter_by_actor() {
    let mut log = AuditLog::new();
    log.log(1000, "did:alice".into(), "read".into(), "/file1".into(), AuditResult::Allowed);
    log.log(2000, "did:bob".into(), "write".into(), "/file2".into(), AuditResult::Allowed);
    log.log(3000, "did:alice".into(), "delete".into(), "/file3".into(), AuditResult::Denied);

    let alice_entries = log.filter_by_actor("did:alice");
    assert_eq!(alice_entries.len(), 2);
}

#[test]
fn test_audit_log_filter_by_result() {
    let mut log = AuditLog::new();
    log.log(1000, "did:a".into(), "read".into(), "res".into(), AuditResult::Allowed);
    log.log(2000, "did:b".into(), "write".into(), "res".into(), AuditResult::Denied);
    log.log(3000, "did:c".into(), "read".into(), "res".into(), AuditResult::Allowed);

    let denied = log.filter_by_result(AuditResult::Denied);
    assert_eq!(denied.len(), 1);
    let allowed = log.filter_by_result(AuditResult::Allowed);
    assert_eq!(allowed.len(), 2);
}

#[test]
fn test_audit_log_empty() {
    let mut log = AuditLog::new();
    assert_eq!(log.count(), 0);
    assert!(log.verify_chain()); // empty chain is valid
}

// ── Peer-Reputation ─────────────────────────────────────────────────────

#[test]
fn test_reputation_register() {
    let mut rep = ReputationSystem::new();
    rep.register(1);
    assert_eq!(rep.peer_count(), 1);
    assert_eq!(rep.score(1), 0);
    assert!(!rep.is_banned(1));
}

#[test]
fn test_reputation_reward() {
    let mut rep = ReputationSystem::new();
    rep.register(1);
    rep.reward(1, 10, 1000);
    assert_eq!(rep.score(1), 10);
    rep.reward(1, 20, 2000);
    assert_eq!(rep.score(1), 30);
    assert_eq!(rep.get(1).unwrap().good_actions, 2);
}

#[test]
fn test_reputation_penalize_and_ban() {
    let mut rep = ReputationSystem::new();
    rep.register(1);
    rep.penalize(1, 30, 1000);
    assert_eq!(rep.score(1), -30);
    assert!(!rep.is_banned(1));

    rep.penalize(1, 30, 2000);
    assert_eq!(rep.score(1), -60);
    assert!(rep.is_banned(1)); // below -50
}

#[test]
fn test_reputation_max_min() {
    let mut rep = ReputationSystem::new();
    rep.register(1);
    rep.reward(1, 200, 1000);
    assert_eq!(rep.score(1), REPUTATION_MAX); // capped at 100

    rep.penalize(1, 300, 2000);
    assert_eq!(rep.score(1), REPUTATION_MIN); // capped at -100
}

#[test]
fn test_reputation_unban() {
    let mut rep = ReputationSystem::new();
    rep.register(1);
    rep.penalize(1, 60, 1000);
    assert!(rep.is_banned(1));

    rep.unban(1);
    assert!(!rep.is_banned(1));

    // Reward above threshold should also unban
    rep.penalize(1, 60, 2000);
    assert!(rep.is_banned(1));
    rep.reward(1, 30, 3000);
    assert!(!rep.is_banned(1)); // score now -30, above -50
}

#[test]
fn test_reputation_banned_count() {
    let mut rep = ReputationSystem::new();
    rep.register(1);
    rep.register(2);
    rep.register(3);
    rep.penalize(1, 60, 1000);
    rep.penalize(2, 60, 1000);
    assert_eq!(rep.banned_count(), 2);
}

#[test]
fn test_reputation_unregistered() {
    let mut rep = ReputationSystem::new();
    assert_eq!(rep.score(999), 0);
    assert!(!rep.is_banned(999));
}

// ── Rate-Limiting ────────────────────────────────────────────────────────

#[test]
fn test_rate_limiter_allow_initial() {
    let mut rl = RateLimiter::new(10, 5);
    assert!(rl.allow(1, 0));
    assert!(rl.allow(1, 0));
    assert!(rl.allow(1, 0));
}

#[test]
fn test_rate_limiter_deplete() {
    let mut rl = RateLimiter::new(3, 1);
    assert!(rl.allow(1, 0));
    assert!(rl.allow(1, 0));
    assert!(rl.allow(1, 0));
    assert!(!rl.allow(1, 0)); // depleted
}

#[test]
fn test_rate_limiter_refill() {
    let mut rl = RateLimiter::new(2, 1);
    rl.allow(1, 0);
    rl.allow(1, 0);
    assert!(!rl.allow(1, 0)); // empty
    assert!(!rl.allow(1, 500_000_000)); // 0.5s → no refill yet
    assert!(rl.allow(1, 1_000_000_000)); // 1s → 1 token refilled
}

#[test]
fn test_rate_limiter_multiple_peers() {
    let mut rl = RateLimiter::new(2, 1);
    rl.allow(1, 0);
    rl.allow(1, 0);
    assert!(!rl.allow(1, 0)); // peer 1 depleted
    assert!(rl.allow(2, 0));  // peer 2 has own bucket
}

// ── Secure-Channel ──────────────────────────────────────────────────────

#[test]
fn test_secure_channel_encrypt_decrypt() {
    let mut mgr = SecureChannelManager::new();
    let key = [0x42u8; 32];
    mgr.establish("did:peer1".into(), key);

    let plaintext = b"Hello, secure world!";
    let ciphertext = mgr.send("did:peer1", plaintext).unwrap();
    assert_ne!(&ciphertext[..], &plaintext[..]);

    let decrypted = mgr.recv("did:peer1", &ciphertext).unwrap();
    assert_eq!(decrypted, plaintext);
}

#[test]
fn test_secure_channel_not_established() {
    let mut mgr = SecureChannelManager::new();
    assert_eq!(mgr.send("did:unknown", b"test"), Err(SecurityError::ChannelNotEstablished));
}

#[test]
fn test_secure_channel_close() {
    let mut mgr = SecureChannelManager::new();
    mgr.establish("did:peer1".into(), [0; 32]);
    assert!(mgr.has_channel("did:peer1"));
    mgr.close("did:peer1");
    assert_eq!(mgr.send("did:peer1", b"test"), Err(SecurityError::ChannelNotEstablished));
}

#[test]
fn test_secure_channel_stats() {
    let mut mgr = SecureChannelManager::new();
    mgr.establish("did:peer1".into(), [0xAA; 32]);
    mgr.establish("did:peer2".into(), [0xBB; 32]);
    assert_eq!(mgr.channel_count(), 2);
}

// ── Security-Manager Integration ────────────────────────────────────────

#[test]
fn test_security_manager_check_peer() {
    let mut sm = SecurityManager::new();
    sm.reputation.register(1);

    // Not banned, rate limit allows
    assert!(sm.check_peer(1, 0));

    // Ban the peer
    sm.reputation.penalize(1, 60, 1000);
    assert!(!sm.check_peer(1, 2000)); // banned
}

#[test]
fn test_security_manager_rate_limit() {
    let mut sm = SecurityManager::new();
    sm.reputation.register(1);

    // Deplete rate limit (100 tokens)
    for _ in 0..100 {
        assert!(sm.check_peer(1, 0));
    }
    assert!(!sm.check_peer(1, 0)); // rate limited
}

#[test]
fn test_security_manager_audit() {
    let mut sm = SecurityManager::new();
    sm.audit_log(1000, "did:admin".into(), "grant".into(), "cap:123".into(), AuditResult::Allowed);
    sm.audit_log(2000, "did:guest".into(), "access".into(), "/secret".into(), AuditResult::Denied);
    assert_eq!(sm.audit.count(), 2);
    assert!(sm.audit.verify_chain());
}

#[test]
fn test_security_manager_full_workflow() {
    let mut sm = SecurityManager::new();
    sm.reputation.register(1);

    // 1. Peer passes security check
    assert!(sm.check_peer(1, 0));

    // 2. Create Multi-Sig proposal
    let pid = sm.multisig.create("Upgrade protocol".into(), [0x42; 32], 2, 3, 1000);

    // 3. Collect signatures
    sm.multisig.sign(pid, "did:node1".into(), [1u8; 64]).unwrap();
    sm.multisig.sign(pid, "did:node2".into(), [2u8; 64]).unwrap();

    // 4. Execute
    sm.multisig.execute(pid).unwrap();

    // 5. Audit the whole operation
    sm.audit_log(2000, "did:system".into(), "multisig_execute".into(), format!("proposal:{}", pid), AuditResult::Allowed);

    // 6. Establish secure channel with peer
    sm.channels.establish("did:peer1".into(), [0xFF; 32]);
    let ct = sm.channels.send("did:peer1", b"sensitive data").unwrap();
    let pt = sm.channels.recv("did:peer1", &ct).unwrap();
    assert_eq!(pt, b"sensitive data");

    // 7. Verify audit trail
    assert!(sm.audit.verify_chain());
}

// ── simple_hash ─────────────────────────────────────────────────────────

#[test]
fn test_simple_hash_deterministic() {
    let h1 = simple_hash(b"test");
    let h2 = simple_hash(b"test");
    assert_eq!(h1, h2);
}

#[test]
fn test_simple_hash_different_inputs() {
    let h1 = simple_hash(b"hello");
    let h2 = simple_hash(b"world");
    assert_ne!(h1, h2);
}

#[test]
fn test_simple_hash_size() {
    let h = simple_hash(b"test");
    assert_eq!(h.len(), 32);
}

// ── Further cases ───────────────────────────────────────────────────────

fn hex(h: &[u8]) -> String {
    h.iter().map(|b| format!("{:02x}", b)).collect()
}

#[test]
fn test_simple_hash_known_values() {
    assert_eq!(
        hex(&simple_hash(b"")),
        "811c9dc5840b920c6637ac1867a48a5a65059e0769d85446ce8c85fd5a35af49"
    );
    assert_eq!(
        hex(&simple_hash(b"a")),
        "e40c292cc725c5d89f754fcd57abde16448ee05303eac4356092e1026938cd46"
    );
}

#[test]
fn test_audit_entry_hash_and_chain() {
    let mut log = AuditLog::new();
    log.log(1000, "did:a".into(), "action1".into(), "res1".into(), AuditResult::Allowed);
    log.log(2000, "did:b".into(), "action2".into(), "res2".into(), AuditResult::Error);
    let entries = log.entries();
    assert_eq!(entries[0].prev_hash, [0u8; 32]);
    assert_eq!(
        hex(&entries[0].entry_hash),
        "fbc39465f2e2f4baa3468d5803118221f68fdb86947671507a75178cbc54b842"
    );
    assert_eq!(entries[1].prev_hash, entries[0].entry_hash);
    assert_eq!(entries[1].seq, 2);
    assert_eq!(log.filter_by_result(AuditResult::Error).len(), 1);
    assert!(log.filter_by_actor("did:nobody").is_empty());
    assert!(log.verify_chain());
}

#[test]
fn test_multisig_get_and_remaining() {
    let mut mgr = MultiSigManager::new();
    assert!(mgr.get(1).is_none());
    let a = mgr.create("a".into(), [1; 32], 2, 2, 5);
    let b = mgr.create("b".into(), [2; 32], 0, 1, 6);
    assert_eq!((a, b), (1, 2));
    assert_eq!(mgr.count(), 2);
    // Nothing required: ready at once, nothing remaining.
    assert!(mgr.get(b).unwrap().is_ready());
    assert_eq!(mgr.get(b).unwrap().remaining_sigs(), 0);
    mgr.sign(a, "did:x".into(), [9; 64]).unwrap();
    let p = mgr.get(a).unwrap();
    assert_eq!(p.remaining_sigs(), 1);
    assert_eq!(p.signatures[0].0, "did:x");
    assert_eq!(p.description, "a");
    assert_eq!(p.created_at, 5);
    assert_eq!(mgr.execute(b), Ok(()));
    assert_eq!(mgr.sign(b, "did:y".into(), [0; 64]), Err(SecurityError::AlreadyExecuted));
}

#[test]
fn test_reputation_ignores_unregistered_and_registers_once() {
    let mut rep = ReputationSystem::new();
    rep.reward(5, 10, 1);
    rep.penalize(5, 10, 1);
    rep.unban(5);
    assert_eq!(rep.peer_count(), 0);
    assert!(rep.get(5).is_none());
    rep.register(5);
    rep.reward(5, 7, 42);
    rep.register(5);
    assert_eq!(rep.peer_count(), 1);
    let r = rep.get(5).unwrap();
    assert_eq!((r.score, r.good_actions, r.last_updated), (7, 1, 42));
    rep.penalize(5, 57, 43);
    assert!(rep.is_banned(5));
    assert_eq!(rep.get(5).unwrap().bad_actions, 1);
    assert_eq!(rep.banned_count(), 1);
    rep.unban(5);
    assert_eq!(rep.score(5), 0);
    assert_eq!(rep.banned_count(), 0);
}

#[test]
fn test_rate_limiter_refill_caps_at_capacity() {
    let mut rl = RateLimiter::new(2, 5);
    assert!(rl.allow(1, 0));
    assert!(rl.allow(1, 0));
    assert!(!rl.allow(1, 0));
    // Ten seconds owe 50 tokens; the bucket holds 2.
    assert!(rl.allow(1, 10_000_000_000));
    assert!(rl.allow(1, 10_000_000_000));
    assert!(!rl.allow(1, 10_000_000_000));
    assert_eq!(rl.peer_count(), 1);
    // A limiter without capacity refuses everything.
    let mut none = RateLimiter::new(0, 1);
    assert!(!none.allow(3, 0));
}

#[test]
fn test_secure_channel_counters_and_replace() {
    let mut mgr = SecureChannelManager::new();
    mgr.establish("did:p".into(), [0x0F; 32]);
    let ct = mgr.send("did:p", &[0xF0, 0x0F]).unwrap();
    assert_eq!(ct, vec![0xFF, 0x00]);
    mgr.close("did:p");
    assert_eq!(mgr.recv("did:p", &ct), Err(SecurityError::ChannelNotEstablished));
    // Establishing again replaces the closed channel.
    mgr.establish("did:p".into(), [0x0F; 32]);
    assert_eq!(mgr.channel_count(), 1);
    assert_eq!(mgr.recv("did:p", &ct).unwrap(), vec![0xF0, 0x0F]);
    assert!(!mgr.has_channel("did:q"));
}

#[test]
fn test_security_manager_ban_spends_no_token() {
    let mut sm = SecurityManager::new();
    sm.reputation.register(7);
    sm.reputation.penalize(7, 60, 0);
    for _ in 0..150 {
        assert!(!sm.check_peer(7, 0));
    }
    assert_eq!(sm.rate_limiter.peer_count(), 0);
    sm.reputation.unban(7);
    assert!(sm.check_peer(7, 0));
    assert_eq!(sm.rate_limiter.peer_count(), 1);
}
