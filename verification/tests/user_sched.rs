use shivacore::system::Pid;
use shivacore::user_sched::{
    BlockReason, IretFrame, Quantum, SavedContext, SavedRegisters, SchedEntry, SchedState,
    UserContext, UserScheduler,
};


/// The register state a freshly loaded ring-3 program starts with.
fn make_context(pid: u32) -> UserContext {
    UserContext {
        rip: 0x40_0000 + pid as u64,
        cs: 0x1B,
        rflags: 0x202,
        rsp: 0x7FFF_F000,
        ss: 0x23,
        rax: 0,
        rbp: 0,
    }
}

// --- IretFrame tests ---

#[test]
fn test_iret_frame_from_context() {
    let ctx = make_context(1000);
    let frame = IretFrame::from_user_context(&ctx);
    assert_eq!(frame.rip, ctx.rip);
    assert_eq!(frame.cs, 0x1B);
    assert_eq!(frame.ss, 0x23);
    assert_eq!(frame.rsp, ctx.rsp);
}

#[test]
fn test_iret_frame_is_ring3() {
    let ctx = make_context(1000);
    let frame = IretFrame::from_user_context(&ctx);
    assert!(frame.is_ring3());
}

#[test]
fn test_iret_frame_valid() {
    let ctx = make_context(1000);
    let frame = IretFrame::from_user_context(&ctx);
    assert!(frame.is_valid());
}

#[test]
fn test_iret_frame_invalid_ring0() {
    let frame = IretFrame { rip: 0x1000, cs: 0x08, rflags: 0x202, rsp: 0x8000, ss: 0x10 };
    assert!(!frame.is_ring3());
    assert!(!frame.is_valid());
}

#[test]
fn test_iret_frame_invalid_no_if() {
    let frame = IretFrame { rip: 0x1000, cs: 0x1B, rflags: 0x000, rsp: 0x8000, ss: 0x23 };
    assert!(!frame.is_valid()); // IF not set
}

// --- SavedRegisters tests ---

#[test]
fn test_saved_registers_from_context() {
    let mut ctx = make_context(1000);
    ctx.rax = 0x1234;
    let regs = SavedRegisters::from_user_context(&ctx);
    assert_eq!(regs.rax, 0x1234);
    assert_eq!(regs.rsp, ctx.rsp);
}

#[test]
fn test_saved_registers_apply() {
    let mut ctx = make_context(1000);
    let regs = SavedRegisters { rax: 0xDEAD, rbp: 0x5000, rsp: 0x7000, ..Default::default() };
    regs.apply_to(&mut ctx);
    assert_eq!(ctx.rax, 0xDEAD);
    assert_eq!(ctx.rbp, 0x5000);
    assert_eq!(ctx.rsp, 0x7000);
}

// --- SavedContext tests ---

#[test]
fn test_saved_context_roundtrip() {
    let mut ctx = make_context(1000);
    ctx.rax = 0xBEEF;
    let saved = SavedContext::from_user_context(&ctx);

    // Modify ctx
    ctx.rax = 0;
    ctx.rip = 0;

    // Restore
    saved.apply_to(&mut ctx);
    assert_eq!(ctx.rax, 0xBEEF);
    assert_eq!(ctx.rip, saved.iret.rip);
}

#[test]
fn test_saved_context_is_ring3() {
    let ctx = make_context(1000);
    let saved = SavedContext::from_user_context(&ctx);
    assert!(saved.is_ring3());
    assert!(saved.is_valid());
}

// --- Quantum tests ---

#[test]
fn test_quantum_new() {
    let q = Quantum::new(10);
    assert_eq!(q.ticks_remaining, 10);
    assert_eq!(q.ticks_total, 10);
    assert!(!q.is_expired());
}

#[test]
fn test_quantum_tick() {
    let mut q = Quantum::new(3);
    assert!(!q.tick()); // 2 remaining
    assert!(!q.tick()); // 1 remaining
    assert!(q.tick());  // 0 → expired
}

#[test]
fn test_quantum_reset() {
    let mut q = Quantum::new(5);
    q.tick(); q.tick(); q.tick();
    assert_eq!(q.remaining(), 2);
    q.reset();
    assert_eq!(q.remaining(), 5);
}

#[test]
fn test_quantum_default() {
    let q = Quantum::default_quantum();
    assert_eq!(q.ticks_total, 10);
}

#[test]
fn test_quantum_expired_tick_stays_zero() {
    let mut q = Quantum::new(1);
    assert!(q.tick()); // expired
    assert!(q.tick()); // still expired (stays at 0)
}

// --- SchedState tests ---

#[test]
fn test_sched_state_runnable() {
    assert!(SchedState::Ready.is_runnable());
    assert!(SchedState::Running.is_runnable());
    assert!(!SchedState::Blocked(BlockReason::IoWait).is_runnable());
    assert!(!SchedState::Zombie(0).is_runnable());
}

#[test]
fn test_sched_state_is_running() {
    assert!(SchedState::Running.is_running());
    assert!(!SchedState::Ready.is_running());
}

#[test]
fn test_sched_state_is_blocked() {
    assert!(SchedState::Blocked(BlockReason::IoWait).is_blocked());
    assert!(!SchedState::Ready.is_blocked());
}

#[test]
fn test_sched_state_is_zombie() {
    assert!(SchedState::Zombie(42).is_zombie());
    assert!(!SchedState::Ready.is_zombie());
}

#[test]
fn test_block_reason_variants() {
    let io = BlockReason::IoWait;
    let sleep = BlockReason::Sleep(100);
    let stopped = BlockReason::Stopped;
    assert_ne!(io, stopped);
    assert_eq!(sleep, BlockReason::Sleep(100));
}

// --- SchedEntry tests ---

#[test]
fn test_sched_entry_new() {
    let ctx = make_context(1000);
    let entry = SchedEntry::new(Pid(1000), &ctx, 5);
    assert_eq!(entry.pid, Pid(1000));
    assert!(entry.is_runnable());
    assert_eq!(entry.priority, 5);
    assert_eq!(entry.total_cpu_ticks, 0);
}

#[test]
fn test_sched_entry_save_restore() {
    let mut ctx = make_context(1000);
    let mut entry = SchedEntry::new(Pid(1000), &ctx, 0);

    ctx.rax = 0xCAFE;
    entry.save_context(&ctx);
    assert_eq!(entry.context_switches, 1);

    let saved = entry.restore_context();
    assert_eq!(saved.regs.rax, 0xCAFE);
}

#[test]
fn test_sched_entry_quantum_tick() {
    let ctx = make_context(1000);
    let mut entry = SchedEntry::new(Pid(1000), &ctx, 0);
    entry.quantum = Quantum::new(2);
    assert!(!entry.tick_quantum());
    assert_eq!(entry.total_cpu_ticks, 1);
    assert!(entry.tick_quantum()); // expired
    assert_eq!(entry.total_cpu_ticks, 2);
}

#[test]
fn test_sched_entry_reset_quantum() {
    let ctx = make_context(1000);
    let mut entry = SchedEntry::new(Pid(1000), &ctx, 0);
    entry.quantum = Quantum::new(3);
    entry.tick_quantum();
    entry.tick_quantum();
    entry.reset_quantum();
    assert_eq!(entry.quantum.remaining(), 3);
}

// --- UserScheduler tests ---

#[test]
fn test_scheduler_new() {
    let sched = UserScheduler::new();
    assert_eq!(sched.entry_count(), 0);
    assert_eq!(sched.current_pid(), None);
    assert_eq!(sched.timer_ticks(), 0);
}

#[test]
fn test_add_process() {
    let mut sched = UserScheduler::new();
    let ctx = make_context(1000);
    sched.add_process(Pid(1000), &ctx, 0);
    assert_eq!(sched.entry_count(), 1);
    assert!(sched.has_runnable());
}

#[test]
fn test_remove_process() {
    let mut sched = UserScheduler::new();
    let ctx = make_context(1000);
    sched.add_process(Pid(1000), &ctx, 0);
    assert!(sched.remove_process(Pid(1000)));
    assert_eq!(sched.entry_count(), 0);
}

#[test]
fn test_schedule_first_process() {
    let mut sched = UserScheduler::new();
    let ctx = make_context(1000);
    sched.add_process(Pid(1000), &ctx, 0);

    let result = sched.schedule(None);
    assert!(result.is_some());
    let (pid, _) = result.unwrap();
    assert_eq!(pid, Pid(1000));
    assert_eq!(sched.current_pid(), Some(Pid(1000)));
}

#[test]
fn test_schedule_round_robin() {
    let mut sched = UserScheduler::new();
    let ctx1 = make_context(1000);
    let ctx2 = make_context(1001);
    sched.add_process(Pid(1000), &ctx1, 0);
    sched.add_process(Pid(1001), &ctx2, 0);

    // First schedule: P1000
    let (pid, _) = sched.schedule(None).unwrap();
    assert_eq!(pid, Pid(1000));

    // Second schedule: P1001 (round-robin, skip current)
    let (pid, _) = sched.schedule(Some(&ctx1)).unwrap();
    assert_eq!(pid, Pid(1001));

    // Third schedule: P1000 again
    let (pid, _) = sched.schedule(Some(&ctx2)).unwrap();
    assert_eq!(pid, Pid(1000));
}

#[test]
fn test_schedule_priority() {
    let mut sched = UserScheduler::new();
    let ctx1 = make_context(1000);
    let ctx2 = make_context(1001);
    sched.add_process(Pid(1000), &ctx1, 5);  // Lower priority
    sched.add_process(Pid(1001), &ctx2, 1);  // Higher priority

    let (pid, _) = sched.schedule(None).unwrap();
    assert_eq!(pid, Pid(1001)); // Higher priority (lower number) first
}

#[test]
fn test_schedule_no_runnable() {
    let mut sched = UserScheduler::new();
    assert_eq!(sched.schedule(None), None);
}

#[test]
fn test_timer_tick_no_preemption() {
    let mut sched = UserScheduler::new();
    let ctx = make_context(1000);
    sched.add_process(Pid(1000), &ctx, 0);
    sched.schedule(None); // Start P1000

    // Tick within quantum → no switch
    let result = sched.timer_tick(&ctx);
    assert!(result.is_none()); // No preemption yet
    assert_eq!(sched.timer_ticks(), 1);
}

#[test]
fn test_timer_tick_preemption() {
    let mut sched = UserScheduler::new();
    let ctx1 = make_context(1000);
    let ctx2 = make_context(1001);
    sched.add_process(Pid(1000), &ctx1, 0);
    sched.add_process(Pid(1001), &ctx2, 0);
    sched.schedule(None); // Start P1000

    // Set quantum to 1 tick
    if let Some(e) = sched.get_entry_mut(Pid(1000)) {
        e.quantum = Quantum::new(1);
    }

    // First tick: quantum expires → preempt
    let result = sched.timer_tick(&ctx1);
    assert!(result.is_some());
    let (pid, _) = result.unwrap();
    assert_eq!(pid, Pid(1001)); // Switched to P1001
    assert_eq!(sched.preemptions(), 1);
}

#[test]
fn test_voluntary_yield() {
    let mut sched = UserScheduler::new();
    let ctx1 = make_context(1000);
    let ctx2 = make_context(1001);
    sched.add_process(Pid(1000), &ctx1, 0);
    sched.add_process(Pid(1001), &ctx2, 0);
    sched.schedule(None); // Start P1000

    let result = sched.yield_now(&ctx1);
    assert!(result.is_some());
    let (pid, _) = result.unwrap();
    assert_eq!(pid, Pid(1001)); // Yielded to P1001
    assert_eq!(sched.voluntary_yields(), 1);
}

#[test]
fn test_block_and_unblock() {
    let mut sched = UserScheduler::new();
    let ctx1 = make_context(1000);
    let ctx2 = make_context(1001);
    sched.add_process(Pid(1000), &ctx1, 0);
    sched.add_process(Pid(1001), &ctx2, 0);
    sched.schedule(None); // Start P1000

    // Block P1000
    let result = sched.block_current(BlockReason::IoWait, &ctx1);
    assert!(result.is_some());
    let (pid, _) = result.unwrap();
    assert_eq!(pid, Pid(1001)); // Switched to P1001

    // P1000 should be blocked
    let entry = sched.get_entry(Pid(1000)).unwrap();
    assert!(entry.state.is_blocked());

    // Unblock P1000
    sched.unblock(Pid(1000));
    let entry = sched.get_entry(Pid(1000)).unwrap();
    assert!(entry.is_runnable());
}

#[test]
fn test_exit_process() {
    let mut sched = UserScheduler::new();
    let ctx1 = make_context(1000);
    let ctx2 = make_context(1001);
    sched.add_process(Pid(1000), &ctx1, 0);
    sched.add_process(Pid(1001), &ctx2, 0);
    sched.schedule(None); // Start P1000

    let result = sched.exit_process(Pid(1000), 42, Some(&ctx1));
    assert!(result.is_some()); // Should schedule P1001
    let (pid, _) = result.unwrap();
    assert_eq!(pid, Pid(1001));

    let entry = sched.get_entry(Pid(1000)).unwrap();
    assert!(entry.state.is_zombie());
    if let SchedState::Zombie(code) = entry.state {
        assert_eq!(code, 42);
    }
}

#[test]
fn test_reap_zombies() {
    let mut sched = UserScheduler::new();
    let ctx1 = make_context(1000);
    let ctx2 = make_context(1001);
    sched.add_process(Pid(1000), &ctx1, 0);
    sched.add_process(Pid(1001), &ctx2, 0);

    sched.exit_process(Pid(1000), 0, None);
    assert_eq!(sched.entry_count(), 2); // Still there as zombie

    let zombies = sched.reap_zombies();
    assert_eq!(zombies.len(), 1);
    assert_eq!(zombies[0], (Pid(1000), 0));
    assert_eq!(sched.entry_count(), 1); // Reaped
}

#[test]
fn test_sleep_and_wake() {
    let mut sched = UserScheduler::new();
    let ctx1 = make_context(1000);
    let ctx2 = make_context(1001);
    sched.add_process(Pid(1000), &ctx1, 0);
    sched.add_process(Pid(1001), &ctx2, 0);
    sched.schedule(None); // Start P1000

    // Sleep P1000 for 5 ticks
    let result = sched.sleep(Pid(1000), 5, &ctx1);
    assert_eq!(result.unwrap().0, Pid(1001)); // Switched to P1001

    let entry = sched.get_entry(Pid(1000)).unwrap();
    assert!(entry.state.is_blocked());

    // Tick 5 times → P1000 should wake up
    for _ in 0..5 {
        sched.timer_tick(&ctx2);
    }

    let entry = sched.get_entry(Pid(1000)).unwrap();
    assert!(entry.is_runnable()); // Woke up
}

#[test]
fn test_stop_and_continue() {
    let mut sched = UserScheduler::new();
    let ctx1 = make_context(1000);
    let ctx2 = make_context(1001);
    sched.add_process(Pid(1000), &ctx1, 0);
    sched.add_process(Pid(1001), &ctx2, 0);
    sched.schedule(None); // Start P1000

    // Stop P1000
    sched.stop_process(Pid(1000), Some(&ctx1));
    let entry = sched.get_entry(Pid(1000)).unwrap();
    assert_eq!(entry.state, SchedState::Blocked(BlockReason::Stopped));

    // Continue P1000
    sched.continue_process(Pid(1000));
    let entry = sched.get_entry(Pid(1000)).unwrap();
    assert!(entry.is_runnable());
}

#[test]
fn test_stats_tracking() {
    let mut sched = UserScheduler::new();
    let ctx1 = make_context(1000);
    let ctx2 = make_context(1001);
    sched.add_process(Pid(1000), &ctx1, 0);
    sched.add_process(Pid(1001), &ctx2, 0);

    sched.schedule(None); // 1 context switch
    sched.yield_now(&ctx1); // 1 yield + 1 context switch
    assert_eq!(sched.context_switches(), 2);
    assert_eq!(sched.voluntary_yields(), 1);
}

#[test]
fn test_scheduler_with_three_processes() {
    let mut sched = UserScheduler::new();
    let ctxs = [make_context(1000), make_context(1001), make_context(1002)];
    for (i, ctx) in ctxs.iter().enumerate() {
        sched.add_process(Pid(1000 + i as u32), ctx, 0);
    }

    // Schedule round-robin through all three
    let p1 = sched.schedule(None).unwrap().0;
    let p2 = sched.schedule(Some(&ctxs[0])).unwrap().0;
    let p3 = sched.schedule(Some(&ctxs[1])).unwrap().0;
    let p4 = sched.schedule(Some(&ctxs[2])).unwrap().0;

    assert_ne!(p1, p2);
    assert_ne!(p2, p3);
    assert_ne!(p3, p4);
    // After 3 schedules, should cycle back
}

#[test]
fn test_runnable_count() {
    let mut sched = UserScheduler::new();
    let ctx1 = make_context(1000);
    let ctx2 = make_context(1001);
    sched.add_process(Pid(1000), &ctx1, 0);
    sched.add_process(Pid(1001), &ctx2, 0);
    assert_eq!(sched.runnable_count(), 2);

    sched.block_current(BlockReason::IoWait, &ctx1);
    // After blocking current (P1000), only P1001 is runnable
    // But P1001 is now running, so runnable = running + ready
    assert_eq!(sched.runnable_count(), 1); // Only P1001 (running)
}

// --- Further cases ---

#[test]
fn test_reap_returns_codes_in_order() {
    let mut sched = UserScheduler::new();
    for pid in [1u32, 2, 3] {
        sched.add_process(Pid(pid), &make_context(pid), 0);
    }
    sched.exit_process(Pid(3), 7, None);
    sched.exit_process(Pid(1), -1, None);
    let zombies = sched.reap_zombies();
    assert_eq!(zombies, vec![(Pid(1), -1), (Pid(3), 7)]);
    assert_eq!(sched.entry_count(), 1);
    assert!(sched.reap_zombies().is_empty());
}

#[test]
fn test_block_only_process_leaves_nothing_running() {
    let mut sched = UserScheduler::new();
    let ctx = make_context(1);
    sched.add_process(Pid(1), &ctx, 0);
    sched.schedule(None);
    assert_eq!(sched.block_current(BlockReason::IoWait, &ctx), None);
    assert_eq!(sched.current_pid(), None);
    assert_eq!(sched.runnable_count(), 0);
    assert!(!sched.has_runnable());
    sched.unblock(Pid(1));
    assert_eq!(sched.schedule(None).unwrap().0, Pid(1));
}

#[test]
fn test_remove_running_process() {
    let mut sched = UserScheduler::new();
    sched.add_process(Pid(5), &make_context(5), 0);
    sched.schedule(None);
    assert!(sched.remove_process(Pid(5)));
    assert_eq!(sched.current_pid(), None);
    assert!(!sched.remove_process(Pid(5)));
}

#[test]
fn test_higher_priority_waits_for_current_to_yield() {
    let mut sched = UserScheduler::new();
    let ctx = make_context(1);
    sched.add_process(Pid(1), &ctx, 3);
    sched.add_process(Pid(2), &ctx, 1);
    sched.add_process(Pid(3), &ctx, 1);
    // Lowest number first, the earlier of equals.
    assert_eq!(sched.schedule(None).unwrap().0, Pid(2));
    // The running one is passed over while another is runnable.
    assert_eq!(sched.yield_now(&ctx).unwrap().0, Pid(3));
    assert_eq!(sched.yield_now(&ctx).unwrap().0, Pid(2));
    assert_eq!(sched.voluntary_yields(), 2);
    assert_eq!(sched.context_switches(), 3);
}

#[test]
fn test_continue_only_stopped() {
    let mut sched = UserScheduler::new();
    let ctx = make_context(1);
    sched.add_process(Pid(1), &ctx, 0);
    sched.block_current(BlockReason::IoWait, &ctx);
    sched.get_entry_mut(Pid(1)).unwrap().state = SchedState::Blocked(BlockReason::IpcWait);
    sched.continue_process(Pid(1));
    assert_eq!(sched.get_entry(Pid(1)).unwrap().state, SchedState::Blocked(BlockReason::IpcWait));
    sched.stop_process(Pid(1), None);
    sched.continue_process(Pid(1));
    assert_eq!(sched.get_entry(Pid(1)).unwrap().state, SchedState::Ready);
}
