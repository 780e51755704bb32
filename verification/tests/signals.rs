use shivacore::signals::{
    AdvancedSignalManager, AltStack, FullSignal, IntervalTimer, PendingEntry, ProcessSignalState,
    SignalAction, SignalCode, SignalDisposition, SignalHandlerFlags, SignalInfo, SignalMask,
    SignalResolution, SignalSendResult, SignalTargetType, TimeVal, TimerType,
    MAX_PENDING_PER_PROCESS,
};

// ── FullSignal Tests ──────────────────────────────────────

#[test]
fn test_full_signal_from_u8() {
    assert_eq!(FullSignal::from_u8(1), Some(FullSignal::Sighup));
    assert_eq!(FullSignal::from_u8(9), Some(FullSignal::Sigkill));
    assert_eq!(FullSignal::from_u8(15), Some(FullSignal::Sigterm));
    assert_eq!(FullSignal::from_u8(32), Some(FullSignal::SigrtMin));
    assert_eq!(FullSignal::from_u8(63), Some(FullSignal::SigrtMax));
    assert_eq!(FullSignal::from_u8(0), None);
    assert_eq!(FullSignal::from_u8(64), None);
}

#[test]
fn test_full_signal_number() {
    assert_eq!(FullSignal::Sighup.number(), 1);
    assert_eq!(FullSignal::Sigkill.number(), 9);
    assert_eq!(FullSignal::SigrtMax.number(), 63);
}

#[test]
fn test_full_signal_is_standard() {
    assert!(FullSignal::Sighup.is_standard());
    assert!(FullSignal::Sigterm.is_standard());
    assert!(!FullSignal::SigrtMin.is_standard());
}

#[test]
fn test_full_signal_is_realtime() {
    assert!(!FullSignal::Sighup.is_realtime());
    assert!(FullSignal::SigrtMin.is_realtime());
    assert!(FullSignal::SigrtMax.is_realtime());
}

#[test]
fn test_full_signal_is_unblockable() {
    assert!(FullSignal::Sigkill.is_unblockable());
    assert!(FullSignal::Sigstop.is_unblockable());
    assert!(!FullSignal::Sigterm.is_unblockable());
    assert!(!FullSignal::Sigrt1.is_unblockable());
}

#[test]
fn test_full_signal_is_fatal() {
    assert!(FullSignal::Sigkill.is_fatal());
    assert!(FullSignal::Sigterm.is_fatal());
    assert!(FullSignal::Sigsegv.is_fatal());
    assert!(!FullSignal::Sigchld.is_fatal());
    assert!(!FullSignal::Sigcont.is_fatal());
}

#[test]
fn test_full_signal_names() {
    assert_eq!(FullSignal::Sighup.name(), "SIGHUP");
    assert_eq!(FullSignal::Sigkill.name(), "SIGKILL");
    assert_eq!(FullSignal::Sigterm.name(), "SIGTERM");
    assert_eq!(FullSignal::SigrtMin.name(), "SIGRTMIN");
    assert_eq!(FullSignal::SigrtMax.name(), "SIGRTMAX");
}

#[test]
fn test_full_signal_default_action() {
    assert_eq!(FullSignal::Sigkill.default_action(), SignalAction::Terminate);
    assert_eq!(FullSignal::Sigterm.default_action(), SignalAction::Terminate);
    assert_eq!(FullSignal::Sigsegv.default_action(), SignalAction::TerminateCore);
    assert_eq!(FullSignal::Sigstop.default_action(), SignalAction::Stop);
    assert_eq!(FullSignal::Sigcont.default_action(), SignalAction::Continue);
    assert_eq!(FullSignal::Sigchld.default_action(), SignalAction::Ignore);
    assert_eq!(FullSignal::SigrtMin.default_action(), SignalAction::Terminate);
}

#[test]
fn test_full_signal_delivery_priority() {
    // SIGKILL has highest priority (lowest number)
    assert!(FullSignal::Sigkill.delivery_priority() < FullSignal::Sigterm.delivery_priority());
    assert!(FullSignal::Sigstop.delivery_priority() < FullSignal::Sigchld.delivery_priority());
    assert!(FullSignal::Sigsegv.delivery_priority() < FullSignal::Sigusr1.delivery_priority());
}

#[test]
fn test_all_signals_have_names() {
    for n in 1..=63u8 {
        let sig = FullSignal::from_u8(n).unwrap();
        let name = sig.name();
        assert!(!name.is_empty());
    }
}

// ── SignalMask Tests ─────────────────────────────────────

#[test]
fn test_signal_mask_empty() {
    let mask = SignalMask::empty();
    assert!(mask.is_empty());
    assert_eq!(mask.count(), 0);
}

#[test]
fn test_signal_mask_full() {
    let mask = SignalMask::full();
    assert!(!mask.is_empty());
    assert_eq!(mask.count(), 64);
}

#[test]
fn test_signal_mask_add_twice_counts_once() {
    let mut mask = SignalMask::empty();
    mask.add(FullSignal::Sigusr1);
    mask.add(FullSignal::Sigusr1);
    assert_eq!(mask.count(), 1);
    mask.add(FullSignal::SigrtMin);
    assert_eq!(mask.count(), 2);
    assert!(!mask.contains(FullSignal::Sigusr2));
}

#[test]
fn test_standard_signal_queued_once() {
    let mut mgr = AdvancedSignalManager::new();
    mgr.register(7);
    let info = SignalInfo::default();
    assert_eq!(mgr.send_to_process(7, FullSignal::Sigusr2, info), SignalSendResult::Queued);
    assert_eq!(mgr.send_to_process(7, FullSignal::Sigusr2, info), SignalSendResult::Coalesced);
    assert_eq!(mgr.pending_count(7), 1);
    let _ = mgr.deliver(7);
    assert_eq!(mgr.send_to_process(7, FullSignal::Sigusr2, info), SignalSendResult::Queued);
}

#[test]
fn test_signal_mask_add_remove() {
    let mut mask = SignalMask::empty();
    mask.add(FullSignal::Sigterm);
    mask.add(FullSignal::Sigkill);
    assert_eq!(mask.count(), 2);
    assert!(mask.contains(FullSignal::Sigterm));
    assert!(mask.contains(FullSignal::Sigkill));
    assert!(!mask.contains(FullSignal::Sighup));

    mask.remove(FullSignal::Sigterm);
    assert!(!mask.contains(FullSignal::Sigterm));
    assert!(mask.contains(FullSignal::Sigkill));
    assert_eq!(mask.count(), 1);
}

#[test]
fn test_signal_mask_union() {
    let mut a = SignalMask::empty();
    a.add(FullSignal::Sigterm);
    let mut b = SignalMask::empty();
    b.add(FullSignal::Sigkill);
    let c = a.union(&b);
    assert!(c.contains(FullSignal::Sigterm));
    assert!(c.contains(FullSignal::Sigkill));
}

#[test]
fn test_signal_mask_intersection() {
    let mut a = SignalMask::empty();
    a.add(FullSignal::Sigterm);
    a.add(FullSignal::Sigkill);
    let mut b = SignalMask::empty();
    b.add(FullSignal::Sigkill);
    let c = a.intersection(&b);
    assert!(c.contains(FullSignal::Sigkill));
    assert!(!c.contains(FullSignal::Sigterm));
}

#[test]
fn test_signal_mask_difference() {
    let mut a = SignalMask::empty();
    a.add(FullSignal::Sigterm);
    a.add(FullSignal::Sigkill);
    let mut b = SignalMask::empty();
    b.add(FullSignal::Sigkill);
    let c = a.difference(&b);
    assert!(c.contains(FullSignal::Sigterm));
    assert!(!c.contains(FullSignal::Sigkill));
}

// ── SignalInfo Tests ─────────────────────────────────────

#[test]
fn test_signal_info_default() {
    let info = SignalInfo::default();
    assert_eq!(info.signo, 0);
    assert_eq!(info.code, SignalCode::User);
    assert_eq!(info.sender_pid, None);
}

#[test]
fn test_signal_code_names() {
    assert_eq!(SignalCode::User.name(), "SI_USER");
    assert_eq!(SignalCode::Kernel.name(), "SI_KERNEL");
    assert_eq!(SignalCode::Timer.name(), "SI_TIMER");
    assert_eq!(SignalCode::Fault.name(), "SI_FAULT");
}

// ── AltStack Tests ───────────────────────────────────────

#[test]
fn test_altstack_creation() {
    let stack = AltStack::new(0x100000, 64 * 1024).unwrap();
    assert_eq!(stack.base_addr, 0x100000);
    assert_eq!(stack.size, 64 * 1024);
    assert!(stack.is_valid());
    assert_eq!(stack.top(), 0x100000 + 64 * 1024);
}

#[test]
fn test_altstack_too_small() {
    assert!(AltStack::new(0x100000, 100).is_none());  // Below MIN
}

#[test]
fn test_altstack_too_large() {
    assert!(AltStack::new(0x100000, 2 * 1024 * 1024).is_none());  // Above MAX
}

#[test]
fn test_altstack_disabled() {
    let mut stack = AltStack::new(0x100000, 64 * 1024).unwrap();
    stack.flags.disabled = true;
    assert!(!stack.is_valid());
}

// ── TimeVal Tests ────────────────────────────────────────

#[test]
fn test_timeval_zero() {
    let tv = TimeVal::zero();
    assert!(tv.is_zero());
    assert_eq!(tv.to_us(), 0);
}

#[test]
fn test_timeval_from_ms() {
    let tv = TimeVal::from_ms(1500);
    assert_eq!(tv.seconds, 1);
    assert_eq!(tv.microseconds, 500_000);
    assert_eq!(tv.to_us(), 1_500_000);
}

#[test]
fn test_timeval_to_us() {
    let tv = TimeVal { seconds: 2, microseconds: 500_000 };
    assert_eq!(tv.to_us(), 2_500_000);
}

// ── IntervalTimer Tests ──────────────────────────────────

#[test]
fn test_interval_timer_new() {
    let timer = IntervalTimer::new(TimerType::Real);
    assert!(!timer.active);
    assert!(timer.interval.is_zero());
}

#[test]
fn test_interval_timer_set() {
    let mut timer = IntervalTimer::new(TimerType::Real);
    timer.set(TimeVal::from_ms(100), TimeVal::from_ms(50));
    assert!(timer.active);
    assert_eq!(timer.initial.to_us(), 100_000);
    assert_eq!(timer.interval.to_us(), 50_000);
}

#[test]
fn test_interval_timer_cancel() {
    let mut timer = IntervalTimer::new(TimerType::Real);
    timer.set(TimeVal::from_ms(100), TimeVal::from_ms(50));
    timer.cancel();
    assert!(!timer.active);
    assert!(timer.remaining.is_zero());
}

#[test]
fn test_interval_timer_tick_fires() {
    let mut timer = IntervalTimer::new(TimerType::Real);
    timer.set(TimeVal::from_ms(100), TimeVal::from_ms(50));
    assert_eq!(timer.remaining.to_us(), 100_000);

    let fired = timer.tick(100_000);
    assert!(fired);
    assert_eq!(timer.overrun, 1);
    // Repeating timer — interval resets
    assert_eq!(timer.remaining.to_us(), 50_000);
    assert!(timer.active);
}

#[test]
fn test_interval_timer_tick_no_fire() {
    let mut timer = IntervalTimer::new(TimerType::Real);
    timer.set(TimeVal::from_ms(100), TimeVal::zero());
    let fired = timer.tick(50_000);
    assert!(!fired);
    assert_eq!(timer.remaining.to_us(), 50_000);
}

#[test]
fn test_interval_timer_oneshot() {
    let mut timer = IntervalTimer::new(TimerType::Real);
    timer.set(TimeVal::from_ms(100), TimeVal::zero());
    let fired = timer.tick(100_000);
    assert!(fired);
    assert!(!timer.active);  // No interval — one-shot
}

#[test]
fn test_timer_type_signal() {
    assert_eq!(TimerType::Real.signal(), FullSignal::Sigalrm);
    assert_eq!(TimerType::Virtual.signal(), FullSignal::Sigvtalrm);
    assert_eq!(TimerType::Prof.signal(), FullSignal::Sigprof);
}

#[test]
fn test_timer_type_names() {
    assert_eq!(TimerType::Real.name(), "ITIMER_REAL");
    assert_eq!(TimerType::Virtual.name(), "ITIMER_VIRTUAL");
    assert_eq!(TimerType::Prof.name(), "ITIMER_PROF");
}

// ── ProcessSignalState Tests ─────────────────────────────

#[test]
fn test_process_signal_state_new() {
    let state = ProcessSignalState::new(100);
    assert_eq!(state.pid, 100);
    assert!(state.pending.is_empty());
    assert!(state.blocked_mask.is_empty());
    assert!(!state.in_handler);
}

#[test]
fn test_process_signal_state_disposition() {
    let mut state = ProcessSignalState::new(100);
    let disp = SignalDisposition::Ignore;
    assert!(state.set_disposition(FullSignal::Sigterm, disp));
    assert_eq!(state.get_disposition(FullSignal::Sigterm), SignalDisposition::Ignore);

    // Cannot set disposition for SIGKILL
    assert!(!state.set_disposition(FullSignal::Sigkill, SignalDisposition::Ignore));
}

#[test]
fn test_process_signal_state_block_unblock() {
    let mut state = ProcessSignalState::new(100);
    state.block_signal(FullSignal::Sigterm);
    assert!(state.is_blocked(FullSignal::Sigterm));
    assert!(!state.is_blocked(FullSignal::Sighup));

    // SIGKILL cannot be blocked
    state.block_signal(FullSignal::Sigkill);
    assert!(!state.is_blocked(FullSignal::Sigkill));

    state.unblock_signal(FullSignal::Sigterm);
    assert!(!state.is_blocked(FullSignal::Sigterm));
}

#[test]
fn test_process_signal_state_standard_coalescing() {
    let mut state = ProcessSignalState::new(100);
    assert!(state.mark_pending_standard(FullSignal::Sigterm));
    assert!(state.has_pending_standard(FullSignal::Sigterm));
    // Second mark — coalesced
    assert!(!state.mark_pending_standard(FullSignal::Sigterm));
    state.clear_pending_standard(FullSignal::Sigterm);
    assert!(!state.has_pending_standard(FullSignal::Sigterm));
}

#[test]
fn test_process_signal_state_altstack() {
    let mut state = ProcessSignalState::new(100);
    let stack = AltStack::new(0x200000, 128 * 1024).unwrap();
    state.set_altstack(stack);
    assert!(state.altstack.is_some());
    assert_eq!(state.get_altstack().unwrap().base_addr, 0x200000);
}

#[test]
fn test_process_signal_state_timers() {
    let mut state = ProcessSignalState::new(100);
    let timer = state.get_timer_mut(TimerType::Real);
    timer.set(TimeVal::from_ms(500), TimeVal::zero());
    assert!(timer.active);
    assert_eq!(timer.remaining.to_us(), 500_000);
}

#[test]
fn test_process_signal_state_pending_full() {
    let mut state = ProcessSignalState::new(100);
    assert!(!state.is_full());
    // Simulate filling pending queue
    for i in 0..MAX_PENDING_PER_PROCESS {
        state.pending.push(PendingEntry {
            signal: FullSignal::SigrtMin,
            info: SignalInfo::default(),
        });
    }
    assert!(state.is_full());
}

// ── AdvancedSignalManager: Registration Tests ───────────

#[test]
fn test_manager_register() {
    let mut mgr = AdvancedSignalManager::new();
    mgr.register(100);
    assert!(mgr.is_registered(100));
    assert!(!mgr.is_registered(200));
}

#[test]
fn test_manager_unregister() {
    let mut mgr = AdvancedSignalManager::new();
    mgr.register(100);
    mgr.unregister(100);
    assert!(!mgr.is_registered(100));
}

// ── AdvancedSignalManager: Signal Sending Tests ─────────

#[test]
fn test_manager_send_to_process() {
    let mut mgr = AdvancedSignalManager::new();
    mgr.register(100);
    let info = SignalInfo::default();
    let result = mgr.send_to_process(100, FullSignal::Sigterm, info);
    assert_eq!(result, SignalSendResult::Queued);
    assert!(mgr.has_pending(100));
    assert_eq!(mgr.pending_count(100), 1);
}

#[test]
fn test_manager_send_no_target() {
    let mut mgr = AdvancedSignalManager::new();
    let info = SignalInfo::default();
    let result = mgr.send_to_process(999, FullSignal::Sigterm, info);
    assert_eq!(result, SignalSendResult::NoTarget);
}

#[test]
fn test_manager_send_standard_coalescing() {
    let mut mgr = AdvancedSignalManager::new();
    mgr.register(100);

    let info1 = SignalInfo { signo: 15, code: SignalCode::User, ..SignalInfo::default() };
    let info2 = SignalInfo { signo: 15, code: SignalCode::User, ..SignalInfo::default() };

    let r1 = mgr.send_to_process(100, FullSignal::Sigterm, info1);
    let r2 = mgr.send_to_process(100, FullSignal::Sigterm, info2);

    assert_eq!(r1, SignalSendResult::Queued);
    assert_eq!(r2, SignalSendResult::Coalesced);
    assert_eq!(mgr.pending_count(100), 1);  // Only one entry
}

#[test]
fn test_manager_send_realtime_no_coalescing() {
    let mut mgr = AdvancedSignalManager::new();
    mgr.register(100);

    let info1 = SignalInfo { signo: 32, code: SignalCode::Queue, ..SignalInfo::default() };
    let info2 = SignalInfo { signo: 32, code: SignalCode::Queue, ..SignalInfo::default() };

    let r1 = mgr.send_to_process(100, FullSignal::SigrtMin, info1);
    let r2 = mgr.send_to_process(100, FullSignal::SigrtMin, info2);

    assert_eq!(r1, SignalSendResult::Queued);
    assert_eq!(r2, SignalSendResult::Queued);
    assert_eq!(mgr.pending_count(100), 2);  // Both queued (no coalescing for RT)
}

// ── AdvancedSignalManager: Delivery Tests ────────────────

#[test]
fn test_manager_deliver_default_terminate() {
    let mut mgr = AdvancedSignalManager::new();
    mgr.register(100);
    mgr.send_to_process(100, FullSignal::Sigterm, SignalInfo::default());

    let result = mgr.deliver(100);
    assert!(result.is_some());
    let (sig, _info, resolution) = result.unwrap();
    assert_eq!(sig, FullSignal::Sigterm);
    assert_eq!(resolution, SignalResolution::Terminate(0));
    assert!(!mgr.has_pending(100));
}

#[test]
fn test_manager_deliver_sigstop() {
    let mut mgr = AdvancedSignalManager::new();
    mgr.register(100);
    mgr.send_to_process(100, FullSignal::Sigstop, SignalInfo::default());

    let result = mgr.deliver(100);
    let (_sig, _info, resolution) = result.unwrap();
    assert_eq!(resolution, SignalResolution::Stop);
}

#[test]
fn test_manager_deliver_sigcont() {
    let mut mgr = AdvancedSignalManager::new();
    mgr.register(100);
    mgr.send_to_process(100, FullSignal::Sigcont, SignalInfo::default());

    let result = mgr.deliver(100);
    let (_sig, _info, resolution) = result.unwrap();
    assert_eq!(resolution, SignalResolution::Continue);
}

#[test]
fn test_manager_deliver_ignore() {
    let mut mgr = AdvancedSignalManager::new();
    mgr.register(100);
    // SIGCHLD default is Ignore
    mgr.send_to_process(100, FullSignal::Sigchld, SignalInfo::default());

    let result = mgr.deliver(100);
    let (_sig, _info, resolution) = result.unwrap();
    assert_eq!(resolution, SignalResolution::Ignore);
}

#[test]
fn test_manager_deliver_catch_handler() {
    let mut mgr = AdvancedSignalManager::new();
    mgr.register(100);
    mgr.set_handler(100, FullSignal::Sigusr1, SignalDisposition::Catch {
        handler_addr: 0xDEADBEEF,
        flags: SignalHandlerFlags::none(),
        mask: 0,
    });

    mgr.send_to_process(100, FullSignal::Sigusr1, SignalInfo::default());
    let result = mgr.deliver(100);
    let (_sig, _info, resolution) = result.unwrap();
    match resolution {
        SignalResolution::CallHandler { addr, .. } => assert_eq!(addr, 0xDEADBEEF),
        _ => panic!("Expected CallHandler"),
    }
}

#[test]
fn test_manager_deliver_priority_order() {
    let mut mgr = AdvancedSignalManager::new();
    mgr.register(100);

    // Send SIGUSR1 (priority 10) first, then SIGKILL (priority 0)
    mgr.send_to_process(100, FullSignal::Sigusr1, SignalInfo::default());
    mgr.send_to_process(100, FullSignal::Sigkill, SignalInfo::default());

    // SIGKILL should be delivered first (higher priority)
    let result = mgr.deliver(100);
    let (sig, _, _) = result.unwrap();
    assert_eq!(sig, FullSignal::Sigkill);

    // Then SIGUSR1
    let result2 = mgr.deliver(100);
    let (sig2, _, _) = result2.unwrap();
    assert_eq!(sig2, FullSignal::Sigusr1);
}

#[test]
fn test_manager_deliver_blocked_signal() {
    let mut mgr = AdvancedSignalManager::new();
    mgr.register(100);
    mgr.block(100, FullSignal::Sigterm);
    mgr.send_to_process(100, FullSignal::Sigterm, SignalInfo::default());

    // Should not deliver blocked signal
    let result = mgr.deliver(100);
    assert!(result.is_none());  // Blocked, no delivery
    assert!(mgr.has_pending(100));  // Still pending
}

#[test]
fn test_manager_deliver_unblockable_bypass() {
    let mut mgr = AdvancedSignalManager::new();
    mgr.register(100);
    // SIGKILL is unblockable — try to block it
    mgr.block(100, FullSignal::Sigkill);
    assert!(!mgr.is_blocked(100, FullSignal::Sigkill));

    mgr.send_to_process(100, FullSignal::Sigkill, SignalInfo::default());
    let result = mgr.deliver(100);
    assert!(result.is_some());
}

#[test]
fn test_manager_return_from_handler() {
    let mut mgr = AdvancedSignalManager::new();
    mgr.register(100);
    mgr.set_handler(100, FullSignal::Sigusr1, SignalDisposition::Catch {
        handler_addr: 0x4000,
        flags: SignalHandlerFlags::none(),
        mask: 0,
    });
    mgr.send_to_process(100, FullSignal::Sigusr1, SignalInfo::default());
    let _ = mgr.deliver(100);

    // In handler — SIGUSR1 should be blocked
    assert!(mgr.is_blocked(100, FullSignal::Sigusr1));

    // Return from handler
    assert!(mgr.return_from_handler(100));
    assert!(!mgr.is_blocked(100, FullSignal::Sigusr1));
}

// ── AdvancedSignalManager: Process Group Tests ──────────

#[test]
fn test_manager_process_group() {
    let mut mgr = AdvancedSignalManager::new();
    mgr.register(100);
    mgr.register(101);
    mgr.register(102);

    mgr.create_process_group(500, 100);
    mgr.add_to_group(500, 101);
    mgr.add_to_group(500, 102);

    let members = mgr.get_group_members(500).unwrap();
    assert_eq!(members.len(), 3);
    assert!(members.contains(&100));
    assert!(members.contains(&101));
}

#[test]
fn test_manager_send_to_group() {
    let mut mgr = AdvancedSignalManager::new();
    mgr.register(100);
    mgr.register(101);
    mgr.create_process_group(500, 100);
    mgr.add_to_group(500, 101);

    let results = mgr.send_to_group(500, FullSignal::Sigterm, Some(999));
    assert_eq!(results.len(), 2);
    for (_, result) in &results {
        assert_eq!(*result, SignalSendResult::Queued);
    }
}

#[test]
fn test_manager_remove_from_group() {
    let mut mgr = AdvancedSignalManager::new();
    mgr.register(100);
    mgr.register(101);
    mgr.create_process_group(500, 100);
    mgr.add_to_group(500, 101);

    assert!(mgr.remove_from_group(500, 101));
    let members = mgr.get_group_members(500).unwrap();
    assert_eq!(members.len(), 1);
    assert!(!members.contains(&101));
}

#[test]
fn test_manager_send_to_nonexistent_group() {
    let mut mgr = AdvancedSignalManager::new();
    let results = mgr.send_to_group(999, FullSignal::Sigterm, None);
    assert!(results.is_empty());
}

// ── AdvancedSignalManager: Container Tests ──────────────

#[test]
fn test_manager_container_signals() {
    let mut mgr = AdvancedSignalManager::new();
    mgr.register(100);
    mgr.register(101);
    mgr.register_container_pid(1, 100);
    mgr.register_container_pid(1, 101);

    let results = mgr.send_to_container(1, FullSignal::Sigterm, None);
    assert_eq!(results.len(), 2);
}

#[test]
fn test_manager_unregister_removes_from_container() {
    let mut mgr = AdvancedSignalManager::new();
    mgr.register(100);
    mgr.register_container_pid(1, 100);
    mgr.unregister(100);

    let results = mgr.send_to_container(1, FullSignal::Sigterm, None);
    assert!(results.is_empty());
}

// ── AdvancedSignalManager: Broadcast Tests ───────────────

#[test]
fn test_manager_broadcast() {
    let mut mgr = AdvancedSignalManager::new();
    mgr.register(100);
    mgr.register(101);
    mgr.register(102);

    let results = mgr.broadcast(FullSignal::Sighup, Some(100));
    // Should not send to sender
    assert_eq!(results.len(), 2);
    assert!(!results.iter().any(|(pid, _)| *pid == 100));
}

// ── AdvancedSignalManager: Handler Tests ─────────────────

#[test]
fn test_manager_set_handler_unblockable_fails() {
    let mut mgr = AdvancedSignalManager::new();
    mgr.register(100);
    assert!(!mgr.set_handler(100, FullSignal::Sigkill, SignalDisposition::Ignore));
    assert!(!mgr.set_handler(100, FullSignal::Sigstop, SignalDisposition::Ignore));
}

#[test]
fn test_manager_set_handler_success() {
    let mut mgr = AdvancedSignalManager::new();
    mgr.register(100);
    assert!(mgr.set_handler(100, FullSignal::Sigterm, SignalDisposition::Ignore));
    let handler = mgr.get_handler(100, FullSignal::Sigterm).unwrap();
    assert_eq!(handler, SignalDisposition::Ignore);
}

// ── AdvancedSignalManager: Mask Tests ───────────────────

#[test]
fn test_manager_set_get_mask() {
    let mut mgr = AdvancedSignalManager::new();
    mgr.register(100);
    let mut mask = SignalMask::empty();
    mask.add(FullSignal::Sigterm);
    mgr.set_mask(100, mask);
    let retrieved = mgr.get_mask(100).unwrap();
    assert!(retrieved.contains(FullSignal::Sigterm));
    assert!(!retrieved.contains(FullSignal::Sighup));
}

#[test]
fn test_manager_block_unblock() {
    let mut mgr = AdvancedSignalManager::new();
    mgr.register(100);
    mgr.block(100, FullSignal::Sigterm);
    assert!(mgr.is_blocked(100, FullSignal::Sigterm));
    mgr.unblock(100, FullSignal::Sigterm);
    assert!(!mgr.is_blocked(100, FullSignal::Sigterm));
}

// ── AdvancedSignalManager: AltStack Tests ───────────────

#[test]
fn test_manager_set_altstack() {
    let mut mgr = AdvancedSignalManager::new();
    mgr.register(100);
    assert!(mgr.set_altstack(100, 0x100000, 64 * 1024));
    assert!(mgr.get_altstack(100).is_some());
    assert_eq!(mgr.get_altstack(100).unwrap().base_addr, 0x100000);
}

#[test]
fn test_manager_set_altstack_invalid_size() {
    let mut mgr = AdvancedSignalManager::new();
    mgr.register(100);
    assert!(!mgr.set_altstack(100, 0x100000, 100));  // Too small
}

// ── AdvancedSignalManager: Timer Tests ──────────────────

#[test]
fn test_manager_set_timer() {
    let mut mgr = AdvancedSignalManager::new();
    mgr.register(100);
    assert!(mgr.set_timer(100, TimerType::Real, TimeVal::from_ms(500), TimeVal::from_ms(100)));
    let timer = mgr.get_timer(100, TimerType::Real).unwrap();
    assert!(timer.active);
    assert_eq!(timer.initial.to_us(), 500_000);
}

#[test]
fn test_manager_cancel_timer() {
    let mut mgr = AdvancedSignalManager::new();
    mgr.register(100);
    mgr.set_timer(100, TimerType::Real, TimeVal::from_ms(500), TimeVal::from_ms(100));
    assert!(mgr.cancel_timer(100, TimerType::Real));
    let timer = mgr.get_timer(100, TimerType::Real).unwrap();
    assert!(!timer.active);
}

#[test]
fn test_manager_tick_timers() {
    let mut mgr = AdvancedSignalManager::new();
    mgr.register(100);
    mgr.set_timer(100, TimerType::Real, TimeVal::from_ms(100), TimeVal::from_ms(50));
    mgr.set_timer(100, TimerType::Virtual, TimeVal::from_ms(200), TimeVal::zero());

    // Tick 100ms real, 200ms virtual
    let fired = mgr.tick_timers(100, 100_000, 200_000, 0);
    assert!(fired.contains(&FullSignal::Sigalrm));
    assert!(fired.contains(&FullSignal::Sigvtalrm));
}

// ── AdvancedSignalManager: Clear Pending Tests ──────────

#[test]
fn test_manager_clear_pending() {
    let mut mgr = AdvancedSignalManager::new();
    mgr.register(100);
    mgr.send_to_process(100, FullSignal::Sigterm, SignalInfo::default());
    mgr.send_to_process(100, FullSignal::Sigusr1, SignalInfo::default());
    assert_eq!(mgr.pending_count(100), 2);

    assert!(mgr.clear_pending(100));
    assert_eq!(mgr.pending_count(100), 0);
    assert!(!mgr.has_pending(100));
}

// ── AdvancedSignalManager: Audit Tests ──────────────────

#[test]
fn test_manager_audit() {
    let mut mgr = AdvancedSignalManager::new();
    mgr.register(100);
    mgr.send_to_process(100, FullSignal::Sigterm, SignalInfo::default());
    assert!(mgr.audit_count() > 0);
}

#[test]
fn test_manager_audit_log() {
    let mut mgr = AdvancedSignalManager::new();
    mgr.register(100);
    mgr.send_to_process(100, FullSignal::Sigterm, SignalInfo::default());
    let log = mgr.audit_log();
    assert!(!log.is_empty());
    assert_eq!(log[0].signal, FullSignal::Sigterm);
    assert_eq!(log[0].target_type, SignalTargetType::Process);
}

// ── AdvancedSignalManager: Stats Tests ──────────────────

#[test]
fn test_manager_stats() {
    let mut mgr = AdvancedSignalManager::new();
    mgr.register(100);
    mgr.register(101);
    mgr.create_process_group(500, 100);
    mgr.register_container_pid(1, 100);

    mgr.send_to_process(100, FullSignal::Sigterm, SignalInfo::default());
    mgr.send_to_process(101, FullSignal::Sigkill, SignalInfo::default());

    let stats = mgr.stats();
    assert_eq!(stats.registered_processes, 2);
    assert_eq!(stats.process_groups, 1);
    assert_eq!(stats.containers, 1);
    assert_eq!(stats.total_sent, 2);
}

// ── Integration Tests ────────────────────────────────────

#[test]
fn test_integration_full_signal_lifecycle() {
    let mut mgr = AdvancedSignalManager::new();

    // 1. Register processes
    mgr.register(100);
    mgr.register(101);
    mgr.register(102);

    // 2. Create process group
    mgr.create_process_group(500, 100);
    mgr.add_to_group(500, 101);
    mgr.add_to_group(500, 102);

    // 3. Register container
    mgr.register_container_pid(1, 100);
    mgr.register_container_pid(1, 101);

    // 4. Set handler on process 100
    assert!(mgr.set_handler(100, FullSignal::Sigusr1, SignalDisposition::Catch {
        handler_addr: 0x4000,
        flags: SignalHandlerFlags::restart(),
        mask: 0,
    }));

    // 5. Set altstack on process 100
    assert!(mgr.set_altstack(100, 0x200000, 256 * 1024));

    // 6. Set timer on process 100
    assert!(mgr.set_timer(100, TimerType::Real, TimeVal::from_ms(1000), TimeVal::from_ms(500)));

    // 7. Block SIGTERM on process 101
    mgr.block(101, FullSignal::Sigterm);

    // 8. Send signals
    mgr.send_to_process(100, FullSignal::Sigusr1, SignalInfo::default());
    mgr.send_to_group(500, FullSignal::Sighup, Some(999));
    mgr.send_to_container(1, FullSignal::Sigchld, None);

    // 9. Deliver to process 100 — should get SIGUSR1 (only pending)
    let result = mgr.deliver(100);
    assert!(result.is_some());
    let (sig, _, resolution) = result.unwrap();
    assert_eq!(sig, FullSignal::Sigusr1);
    match resolution {
        SignalResolution::CallHandler { addr, flags, .. } => {
            assert_eq!(addr, 0x4000);
            assert!(flags.restart_syscall);
        }
        _ => panic!("Expected CallHandler"),
    }

    // 10. Return from handler
    assert!(mgr.return_from_handler(100));

    // 11. Process 101 has SIGTERM blocked — deliver should skip it
    let result101 = mgr.deliver(101);
    // SIGHUP was also sent to group — should deliver that
    assert!(result101.is_some());
    let (sig101, _, _) = result101.unwrap();
    assert_eq!(sig101, FullSignal::Sighup);

    // 12. Check stats
    let stats = mgr.stats();
    assert!(stats.total_sent > 0);
    assert!(stats.audit_entries > 0);
}

#[test]
fn test_integration_rt_signal_queueing() {
    let mut mgr = AdvancedSignalManager::new();
    mgr.register(100);

    // Send 5 RT signals — all should queue (no coalescing)
    for i in 0..5 {
        let info = SignalInfo {
            signo: 32,
            code: SignalCode::Queue,
            value: i,
            ..SignalInfo::default()
        };
        let result = mgr.send_to_process(100, FullSignal::SigrtMin, info);
        assert_eq!(result, SignalSendResult::Queued);
    }

    assert_eq!(mgr.pending_count(100), 5);

    // Deliver all 5
    let mut count = 0;
    while let Some((sig, info, _)) = mgr.deliver(100) {
        assert_eq!(sig, FullSignal::SigrtMin);
        count += 1;
    }
    assert_eq!(count, 5);
}

#[test]
fn test_integration_standard_signal_coalescing() {
    let mut mgr = AdvancedSignalManager::new();
    mgr.register(100);

    // Send 5 SIGTERM signals — only 1 should be pending (coalescing)
    for _ in 0..5 {
        mgr.send_to_process(100, FullSignal::Sigterm, SignalInfo::default());
    }

    assert_eq!(mgr.pending_count(100), 1);

    // Deliver — only 1 delivery
    let result = mgr.deliver(100);
    assert!(result.is_some());
    assert!(!mgr.has_pending(100));
}

#[test]
fn test_integration_timer_fires_signal() {
    let mut mgr = AdvancedSignalManager::new();
    mgr.register(100);

    // Set a 100ms one-shot timer
    mgr.set_timer(100, TimerType::Real, TimeVal::from_ms(100), TimeVal::zero());

    // Tick 100ms of real time
    let fired = mgr.tick_timers(100, 100_000, 0, 0);
    assert!(fired.contains(&FullSignal::Sigalrm));

    // Timer is one-shot — should not fire again
    let fired2 = mgr.tick_timers(100, 100_000, 0, 0);
    assert!(!fired2.contains(&FullSignal::Sigalrm));
}

#[test]
fn test_integration_blocked_then_unblocked_delivery() {
    let mut mgr = AdvancedSignalManager::new();
    mgr.register(100);

    // Block SIGTERM
    mgr.block(100, FullSignal::Sigterm);

    // Send SIGTERM — queued but not deliverable
    mgr.send_to_process(100, FullSignal::Sigterm, SignalInfo::default());
    assert!(mgr.has_pending(100));

    // Delivery should fail (blocked)
    assert!(mgr.deliver(100).is_none());
    assert!(mgr.has_pending(100));  // Still pending

    // Unblock SIGTERM
    mgr.unblock(100, FullSignal::Sigterm);

    // Now should deliver
    let result = mgr.deliver(100);
    assert!(result.is_some());
    let (sig, _, resolution) = result.unwrap();
    assert_eq!(sig, FullSignal::Sigterm);
    assert_eq!(resolution, SignalResolution::Terminate(0));
}

#[test]
fn test_integration_container_signal_forwarding() {
    let mut mgr = AdvancedSignalManager::new();

    // Two containers, each with 2 processes
    mgr.register(100);
    mgr.register(101);
    mgr.register(200);
    mgr.register(201);

    mgr.register_container_pid(1, 100);
    mgr.register_container_pid(1, 101);
    mgr.register_container_pid(2, 200);
    mgr.register_container_pid(2, 201);

    // Send SIGTERM to container 1 only
    let results = mgr.send_to_container(1, FullSignal::Sigterm, Some(999));
    assert_eq!(results.len(), 2);
    assert!(results.iter().all(|(_, r)| *r == SignalSendResult::Queued));

    // Container 2 should not have pending signals
    assert!(!mgr.has_pending(200));
    assert!(!mgr.has_pending(201));

    // Container 1 processes should have pending
    assert!(mgr.has_pending(100));
    assert!(mgr.has_pending(101));
}

#[test]
fn test_integration_handler_with_altstack() {
    let mut mgr = AdvancedSignalManager::new();
    mgr.register(100);

    // Set altstack
    assert!(mgr.set_altstack(100, 0x100000, 128 * 1024));

    // Set handler with SA_ONSTACK flag
    mgr.set_handler(100, FullSignal::Sigsegv, SignalDisposition::Catch {
        handler_addr: 0x5000,
        flags: SignalHandlerFlags { onstack: true, ..SignalHandlerFlags::default() },
        mask: 0,
    });

    // Send SIGSEGV
    mgr.send_to_process(100, FullSignal::Sigsegv, SignalInfo {
        code: SignalCode::Fault,
        addr: 0xBAD_ADD0,
        ..SignalInfo::default()
    });

    // Deliver — should use altstack
    let result = mgr.deliver(100);
    assert!(result.is_some());
    let (_, _, resolution) = result.unwrap();
    match resolution {
        SignalResolution::CallHandler { addr, use_altstack, .. } => {
            assert_eq!(addr, 0x5000);
            assert!(use_altstack);
        }
        _ => panic!("Expected CallHandler with altstack"),
    }
}
