use shivacore::threads::{
    BarrierResult, BlockReason, CloneFlags, ExitCode, FutexBarrier, FutexCondvar, FutexMutex,
    FutexRwLock, FutexTable, SavedRegs, SignalType, Thread, ThreadError, ThreadGroup,
    ThreadManager, ThreadState, Tid, TlsBlock,
};


// ── TID Tests ──
#[test]
fn test_tid_basic() {
    let t = Tid::new(42);
    assert_eq!(t.as_u64(), 42);
    assert!(!t.is_zero());
    assert!(Tid::new(0).is_zero());
}

#[test]
fn test_tid_eq() {
    assert_eq!(Tid::new(1), Tid::new(1));
    assert_ne!(Tid::new(1), Tid::new(2));
}

// ── Thread State Tests ──
#[test]
fn test_thread_state_transitions() {
    let mut t = Thread::new(Tid(1), 100, 0x8000_0000, 8 * 1024 * 1024);
    assert_eq!(t.state, ThreadState::Created);
    t.set_ready();
    assert_eq!(t.state, ThreadState::Ready);
    t.set_running();
    assert_eq!(t.state, ThreadState::Running);
    t.set_blocked(BlockReason::Futex);
    assert_eq!(t.state, ThreadState::Blocked(BlockReason::Futex));
    t.set_ready();
    assert_eq!(t.state, ThreadState::Ready);
}

#[test]
fn test_thread_exit() {
    let mut t = Thread::new(Tid(1), 100, 0x8000_0000, 4096);
    t.exit(ExitCode::Success);
    assert!(t.is_exited());
    assert!(!t.is_alive());
    assert!(t.exit_code.unwrap().is_success());
}

#[test]
fn test_thread_exit_error() {
    let mut t = Thread::new(Tid(2), 100, 0x8000_0000, 4096);
    t.exit(ExitCode::Error(42));
    assert!(t.is_exited());
    assert_eq!(t.exit_code.unwrap().code(), 42);
}

#[test]
fn test_thread_exit_killed() {
    let mut t = Thread::new(Tid(3), 100, 0x8000_0000, 4096);
    t.exit(ExitCode::Killed(SignalType::Kill));
    assert!(t.is_exited());
    assert_eq!(t.exit_code.unwrap().code(), -1);
}

#[test]
fn test_thread_main() {
    let t = Thread::new_main(1, 0x7fff_0000, 0x401000);
    assert_eq!(t.tid, Tid(1));
    assert_eq!(t.pid, 1);
    assert_eq!(t.state, ThreadState::Running);
    assert_eq!(t.regs.rsp, 0x7fff_0000);
    assert_eq!(t.regs.rip, 0x401000);
    assert_eq!(t.regs.rflags, 0x202);
}

#[test]
fn test_thread_cpu_time() {
    let mut t = Thread::new(Tid(1), 100, 0x8000_0000, 4096);
    t.tick_cpu(1_000_000);
    t.tick_cpu(500_000);
    assert_eq!(t.cpu_time_ns, 1_500_000);
}

// ── TLS Tests ──
#[test]
fn test_tls_basic() {
    let mut tls = TlsBlock::new(256);
    assert_eq!(tls.size, 256);
    tls.write_at(0, &[1, 2, 3, 4]).unwrap();
    assert_eq!(tls.read_at(0, 4).unwrap(), vec![1, 2, 3, 4]);
}

#[test]
fn test_tls_oob() {
    let mut tls = TlsBlock::new(16);
    assert!(tls.write_at(14, &[1, 2, 3]).is_err());
    assert!(tls.read_at(20, 4).is_err());
}

#[test]
fn test_tls_init() {
    let tls = TlsBlock::new_init(0x1000, &[0xFF; 32]);
    assert_eq!(tls.addr, 0x1000);
    assert_eq!(tls.size, 32);
    assert_eq!(tls.data, vec![0xFF; 32]);
}

// ── ThreadGroup Tests ──
#[test]
fn test_thread_group_basic() {
    let main = Thread::new_main(1, 0x7fff_0000, 0x401000);
    let mut g = ThreadGroup::new(1, main);
    assert_eq!(g.pid, 1);
    assert_eq!(g.thread_count(), 1);
    assert_eq!(g.main_tid, Tid(1));
}

#[test]
fn test_thread_group_add_remove() {
    let main = Thread::new_main(1, 0x7fff_0000, 0x401000);
    let mut g = ThreadGroup::new(1, main);
    let tid = g.alloc_tid();
    let t = Thread::new(tid, 1, 0x8000_0000, 4096);
    let added = g.add_thread(t);
    assert_eq!(added, tid);
    assert_eq!(g.thread_count(), 2);
    let removed = g.remove_thread(tid);
    assert!(removed.is_some());
    assert_eq!(g.thread_count(), 1);
}

#[test]
fn test_thread_group_no_remove_main() {
    let main = Thread::new_main(1, 0x7fff_0000, 0x401000);
    let mut g = ThreadGroup::new(1, main);
    assert!(g.remove_thread(Tid(1)).is_none());
}

#[test]
fn test_thread_group_alive_exited() {
    let main = Thread::new_main(1, 0x7fff_0000, 0x401000);
    let mut g = ThreadGroup::new(1, main);
    let t1 = g.alloc_tid();
    g.add_thread(Thread::new(t1, 1, 0x8000_0000, 4096));
    assert_eq!(g.alive_threads(), 2);
    g.get_thread_mut(t1).unwrap().exit(ExitCode::Success);
    assert_eq!(g.alive_threads(), 1);
    assert_eq!(g.exited_threads(), vec![t1]);
}

#[test]
fn test_thread_group_reap() {
    let main = Thread::new_main(1, 0x7fff_0000, 0x401000);
    let mut g = ThreadGroup::new(1, main);
    let t1 = g.alloc_tid();
    let t2 = g.alloc_tid();
    g.add_thread(Thread::new(t1, 1, 0x8000_0000, 4096));
    g.add_thread(Thread::new(t2, 1, 0x8000_0000, 4096));
    g.get_thread_mut(t1).unwrap().exit(ExitCode::Success);
    g.get_thread_mut(t2).unwrap().exit(ExitCode::Error(1));
    let reaped = g.reap_exited();
    assert_eq!(reaped.len(), 2);
    assert_eq!(g.thread_count(), 1); // main only
}

#[test]
fn test_thread_group_ready_count() {
    let main = Thread::new_main(1, 0x7fff_0000, 0x401000);
    let mut g = ThreadGroup::new(1, main);
    let t1 = g.alloc_tid();
    let mut t = Thread::new(t1, 1, 0x8000_0000, 4096);
    t.set_ready();
    g.add_thread(t);
    assert_eq!(g.ready_count(), 2); // main (Running) + t1 (Ready)
}

// ── CloneFlags Tests ──
#[test]
fn test_clone_flags_default_thread() {
    let f = CloneFlags::default_thread();
    assert!(f.is_thread());
    assert!(f.shares_vm());
    assert!(f.shares_files());
    assert!(!f.sets_tls());
}

#[test]
fn test_clone_flags_default_process() {
    let f = CloneFlags::default_process();
    assert!(!f.is_thread());
    assert!(!f.shares_vm());
}

#[test]
fn test_clone_flags_sets_tls() {
    let f = CloneFlags::default_thread().union(CloneFlags::settls());
    assert!(f.sets_tls());
}

// ── Futex Tests ──
#[test]
fn test_futex_wait_wake() {
    let mut ft = FutexTable::new();
    let r = ft.wait(Tid(1), 1, 0x1000, 0, 0);
    assert!(r.unwrap());
    assert_eq!(ft.waiting_count(), 1);
    assert_eq!(ft.waiting_at(0x1000), 1);
    let woken = ft.wake(0x1000, 1);
    assert_eq!(woken, 1);
    assert_eq!(ft.waiting_count(), 0);
}

#[test]
fn test_futex_value_mismatch() {
    let mut ft = FutexTable::new();
    let r = ft.wait(Tid(1), 1, 0x1000, 0, 1); // val=0, current=1
    assert_eq!(r.unwrap(), false);
    assert_eq!(ft.waiting_count(), 0);
}

#[test]
fn test_futex_multiple_waiters() {
    let mut ft = FutexTable::new();
    ft.wait(Tid(1), 1, 0x1000, 0, 0).unwrap();
    ft.wait(Tid(2), 1, 0x1000, 0, 0).unwrap();
    ft.wait(Tid(3), 1, 0x1000, 0, 0).unwrap();
    assert_eq!(ft.waiting_count(), 3);
    let woken = ft.wake(0x1000, 2);
    assert_eq!(woken, 2);
    assert_eq!(ft.waiting_count(), 1);
}

#[test]
fn test_futex_wake_all() {
    let mut ft = FutexTable::new();
    ft.wait(Tid(1), 1, 0x2000, 0, 0).unwrap();
    ft.wait(Tid(2), 1, 0x2000, 0, 0).unwrap();
    ft.wait(Tid(3), 1, 0x2000, 0, 0).unwrap();
    let woken = ft.wake(0x2000, usize::MAX);
    assert_eq!(woken, 3);
}

#[test]
fn test_futex_wake_no_match() {
    let mut ft = FutexTable::new();
    ft.wait(Tid(1), 1, 0x1000, 0, 0).unwrap();
    let woken = ft.wake(0x2000, 1);
    assert_eq!(woken, 0);
}

#[test]
fn test_futex_bitset() {
    let mut ft = FutexTable::new();
    ft.wait_bitset(Tid(1), 1, 0x1000, 0, 0x01, 0).unwrap();
    ft.wait_bitset(Tid(2), 1, 0x1000, 0, 0x02, 0).unwrap();
    let woken = ft.wake_bitset(0x1000, 1, 0x02);
    assert_eq!(woken, 1);
    assert_eq!(ft.waiting_count(), 1);
}

#[test]
fn test_futex_requeue() {
    let mut ft = FutexTable::new();
    ft.wait(Tid(1), 1, 0x1000, 0, 0).unwrap();
    ft.wait(Tid(2), 1, 0x1000, 0, 0).unwrap();
    ft.wait(Tid(3), 1, 0x1000, 0, 0).unwrap();
    let (w, r) = ft.requeue(0x1000, 0x2000, 1, 2);
    assert_eq!(w, 1);
    assert_eq!(r, 2);
}

#[test]
fn test_futex_remove_waiter() {
    let mut ft = FutexTable::new();
    ft.wait(Tid(1), 1, 0x1000, 0, 0).unwrap();
    assert!(ft.remove_waiter(Tid(1)));
    assert!(!ft.waiting_for(Tid(1)));
}

#[test]
fn test_futex_clear_pid() {
    let mut ft = FutexTable::new();
    ft.wait(Tid(1), 1, 0x1000, 0, 0).unwrap();
    ft.wait(Tid(2), 1, 0x1000, 0, 0).unwrap();
    ft.wait(Tid(3), 2, 0x1000, 0, 0).unwrap();
    let removed = ft.clear_pid(1);
    assert_eq!(removed, 2);
    assert_eq!(ft.waiting_count(), 1);
}

// ── ThreadManager Tests ──
#[test]
fn test_tm_create_process() {
    let mut tm = ThreadManager::new();
    let pid = tm.create_process(0x7fff_0000, 0x401000);
    assert_eq!(pid, 1);
    assert_eq!(tm.process_count(), 1);
    assert_eq!(tm.total_threads(), 1);
    assert_eq!(tm.alive_threads(), 1);
}

#[test]
fn test_tm_create_thread() {
    let mut tm = ThreadManager::new();
    let pid = tm.create_process(0x7fff_0000, 0x401000);
    let tid = tm.create_thread(pid, 0x8000_0000, 4096, 0x402000, 0xAB, CloneFlags::default_thread()).unwrap();
    assert_ne!(tid, Tid(pid));
    assert_eq!(tm.total_threads(), 2);
}

#[test]
fn test_tm_create_thread_with_tls() {
    let mut tm = ThreadManager::new();
    let pid = tm.create_process(0x7fff_0000, 0x401000);
    let flags = CloneFlags::default_thread().union(CloneFlags::settls());
    let tid = tm.create_thread(pid, 0x8000_0000, 4096, 0x402000, 0, flags).unwrap();
    let t = tm.get_thread(pid, tid).unwrap();
    assert!(t.tls.is_some());
}

#[test]
fn test_tm_exit_thread() {
    let mut tm = ThreadManager::new();
    let pid = tm.create_process(0x7fff_0000, 0x401000);
    let tid = tm.create_thread(pid, 0x8000_0000, 4096, 0x402000, 0, CloneFlags::default_thread()).unwrap();
    tm.exit_thread(pid, tid, ExitCode::Success).unwrap();
    let t = tm.get_thread(pid, tid).unwrap();
    assert!(t.is_exited());
}

#[test]
fn test_tm_join_thread() {
    let mut tm = ThreadManager::new();
    let pid = tm.create_process(0x7fff_0000, 0x401000);
    let tid = tm.create_thread(pid, 0x8000_0000, 4096, 0x402000, 0, CloneFlags::default_thread()).unwrap();
    tm.exit_thread(pid, tid, ExitCode::Success).unwrap();
    let code = tm.join_thread(pid, tid).unwrap();
    assert!(code.is_success());
}

#[test]
fn test_tm_join_not_exited() {
    let mut tm = ThreadManager::new();
    let pid = tm.create_process(0x7fff_0000, 0x401000);
    let tid = tm.create_thread(pid, 0x8000_0000, 4096, 0x402000, 0, CloneFlags::default_thread()).unwrap();
    assert_eq!(tm.join_thread(pid, tid), Err(ThreadError::ThreadNotExited));
}

#[test]
fn test_tm_kill_thread() {
    let mut tm = ThreadManager::new();
    let pid = tm.create_process(0x7fff_0000, 0x401000);
    let tid = tm.create_thread(pid, 0x8000_0000, 4096, 0x402000, 0, CloneFlags::default_thread()).unwrap();
    tm.kill_thread(pid, tid, SignalType::Kill).unwrap();
    let t = tm.get_thread(pid, tid).unwrap();
    assert!(t.is_exited());
}

#[test]
fn test_tm_block_unblock() {
    let mut tm = ThreadManager::new();
    let pid = tm.create_process(0x7fff_0000, 0x401000);
    let tid = tm.create_thread(pid, 0x8000_0000, 4096, 0x402000, 0, CloneFlags::default_thread()).unwrap();
    tm.block_thread(pid, tid, BlockReason::IoWait).unwrap();
    let t = tm.get_thread(pid, tid).unwrap();
    assert_eq!(t.state, ThreadState::Blocked(BlockReason::IoWait));
    tm.unblock_thread(pid, tid).unwrap();
    let t = tm.get_thread(pid, tid).unwrap();
    assert_eq!(t.state, ThreadState::Ready);
}

#[test]
fn test_tm_futex_wait_wake() {
    let mut tm = ThreadManager::new();
    let pid = tm.create_process(0x7fff_0000, 0x401000);
    let tid = tm.create_thread(pid, 0x8000_0000, 4096, 0x402000, 0, CloneFlags::default_thread()).unwrap();
    let waited = tm.futex_wait(pid, tid, 0x1000, 0, 0).unwrap();
    assert!(waited);
    let t = tm.get_thread(pid, tid).unwrap();
    assert_eq!(t.state, ThreadState::Blocked(BlockReason::Futex));
    let woken = tm.futex_wake(0x1000, 1).unwrap();
    assert_eq!(woken, 1);
}

#[test]
fn test_tm_reap_exited() {
    let mut tm = ThreadManager::new();
    let pid = tm.create_process(0x7fff_0000, 0x401000);
    let tid = tm.create_thread(pid, 0x8000_0000, 4096, 0x402000, 0, CloneFlags::default_thread()).unwrap();
    tm.exit_thread(pid, tid, ExitCode::Success).unwrap();
    let reaped = tm.reap_exited(pid);
    assert_eq!(reaped.len(), 1);
}

#[test]
fn test_tm_tick() {
    let mut tm = ThreadManager::new();
    let pid = tm.create_process(0x7fff_0000, 0x401000);
    tm.tick(1_000_000);
    let t = tm.get_thread(pid, Tid(pid)).unwrap();
    assert_eq!(t.cpu_time_ns, 1_000_000);
}

#[test]
fn test_tm_stats() {
    let mut tm = ThreadManager::new();
    let p1 = tm.create_process(0x7fff_0000, 0x401000);
    let p2 = tm.create_process(0x7fff_0000, 0x401000);
    tm.create_thread(p1, 0x8000_0000, 4096, 0x402000, 0, CloneFlags::default_thread()).unwrap();
    let stats = tm.stats();
    assert_eq!(stats.processes, 2);
    assert_eq!(stats.threads, 3);
    assert_eq!(stats.alive, 3);
}

#[test]
fn test_tm_destroy_process() {
    let mut tm = ThreadManager::new();
    let pid = tm.create_process(0x7fff_0000, 0x401000);
    tm.create_thread(pid, 0x8000_0000, 4096, 0x402000, 0, CloneFlags::default_thread()).unwrap();
    tm.destroy_process(pid).unwrap();
    assert_eq!(tm.process_count(), 0);
}

#[test]
fn test_tm_not_found() {
    let mut tm = ThreadManager::new();
    assert_eq!(tm.create_thread(999, 0, 0, 0, 0, CloneFlags::default_thread()), Err(ThreadError::ProcessNotFound));
}

// ── FutexMutex Tests ──
#[test]
fn test_futex_mutex_lock_unlock() {
    let mut m = FutexMutex::new(0x1000);
    assert!(m.try_lock());
    assert!(m.is_locked());
    assert!(!m.try_lock());
    let was_contested = m.unlock();
    assert!(!was_contested);
    assert!(!m.is_locked());
}

#[test]
fn test_futex_mutex_contested() {
    let mut m = FutexMutex::new(0x1000);
    m.try_lock();
    let needs_wait = m.lock();
    assert!(!needs_wait);
    assert_eq!(m.state, FutexMutex::CONTESTED);
    let was_contested = m.unlock();
    assert!(was_contested);
}

// ── Condvar Tests ──
#[test]
fn test_condvar_signal() {
    let mut cv = FutexCondvar::new(0x2000);
    let s1 = cv.signal();
    let s2 = cv.signal();
    assert_eq!(s1, 1);
    assert_eq!(s2, 2);
    assert_eq!(cv.current_seq(), 2);
}

#[test]
fn test_condvar_broadcast() {
    let mut cv = FutexCondvar::new(0x2000);
    cv.broadcast();
    assert_eq!(cv.current_seq(), 1);
}

// ── Barrier Tests ──
#[test]
fn test_barrier_waiting() {
    let mut b = FutexBarrier::new(0x3000, 3);
    let r1 = b.arrive();
    assert!(matches!(r1, BarrierResult::Waiting(0)));
    let r2 = b.arrive();
    assert!(matches!(r2, BarrierResult::Waiting(0)));
    let r3 = b.arrive();
    assert!(matches!(r3, BarrierResult::Released(1)));
    assert!(b.is_complete());
}

#[test]
fn test_barrier_generation() {
    let mut b = FutexBarrier::new(0x3000, 2);
    b.arrive();
    b.arrive();
    assert_eq!(b.generation, 1);
    b.arrive();
    b.arrive();
    assert_eq!(b.generation, 2);
}

// ── RwLock Tests ──
#[test]
fn test_rwlock_read_lock() {
    let mut l = FutexRwLock::new();
    assert!(l.try_read_lock());
    assert!(l.try_read_lock());
    assert_eq!(l.reader_count(), 2);
    l.read_unlock();
    assert_eq!(l.reader_count(), 1);
}

#[test]
fn test_rwlock_write_lock() {
    let mut l = FutexRwLock::new();
    assert!(l.try_write_lock());
    assert!(l.is_write_locked());
    assert!(!l.try_read_lock());
    assert!(!l.try_write_lock());
    l.write_unlock();
    assert!(!l.is_write_locked());
}

#[test]
fn test_rwlock_no_write_with_readers() {
    let mut l = FutexRwLock::new();
    l.try_read_lock();
    assert!(!l.try_write_lock());
}

#[test]
fn test_rwlock_no_read_with_writer() {
    let mut l = FutexRwLock::new();
    l.try_write_lock();
    assert!(!l.try_read_lock());
}

// ── SavedRegs Tests ──
#[test]
fn test_saved_regs_default() {
    let r = SavedRegs::new();
    assert_eq!(r.rsp, 0);
    assert_eq!(r.rip, 0);
    assert_eq!(r.rflags, 0);
}

#[test]
fn test_saved_regs_with_rsp_rip() {
    let r = SavedRegs::new_with_rsp_rip(0x7fff_0000, 0x401000);
    assert_eq!(r.rsp, 0x7fff_0000);
    assert_eq!(r.rip, 0x401000);
    assert_eq!(r.rflags, 0x202);
}

// ── ExitCode Tests ──
#[test]
fn test_exit_code_success() {
    assert!(ExitCode::Success.is_success());
    assert_eq!(ExitCode::Success.code(), 0);
}

#[test]
fn test_exit_code_error() {
    let e = ExitCode::Error(99);
    assert!(!e.is_success());
    assert_eq!(e.code(), 99);
}

#[test]
fn test_exit_code_killed() {
    let e = ExitCode::Killed(SignalType::Term);
    assert!(!e.is_success());
    assert_eq!(e.code(), -1);
}

// ── Integration Tests ──
#[test]
fn test_full_thread_lifecycle() {
    let mut tm = ThreadManager::new();
    let pid = tm.create_process(0x7fff_0000, 0x401000);
    let tid = tm.create_thread(pid, 0x8000_0000, 4096, 0x402000, 42, CloneFlags::default_thread()).unwrap();
    
    // Thread is ready
    assert!(tm.get_thread(pid, tid).unwrap().is_alive());
    
    // Thread blocks on futex
    tm.futex_wait(pid, tid, 0x5000, 0, 0).unwrap();
    assert_eq!(tm.get_thread(pid, tid).unwrap().state, ThreadState::Blocked(BlockReason::Futex));
    
    // Wake the thread
    tm.futex_wake(0x5000, 1).unwrap();
    
    // Thread exits
    tm.exit_thread(pid, tid, ExitCode::Success).unwrap();
    assert!(tm.get_thread(pid, tid).unwrap().is_exited());
    
    // Join
    let code = tm.join_thread(pid, tid).unwrap();
    assert!(code.is_success());
    
    // Reap
    let reaped = tm.reap_exited(pid);
    assert_eq!(reaped.len(), 1);
}

#[test]
fn test_multi_process_multi_thread() {
    let mut tm = ThreadManager::new();
    let p1 = tm.create_process(0x7fff_0000, 0x401000);
    let p2 = tm.create_process(0x7fff_0000, 0x401000);
    
    tm.create_thread(p1, 0x8000_0000, 4096, 0x402000, 0, CloneFlags::default_thread()).unwrap();
    tm.create_thread(p1, 0x8000_0000, 4096, 0x403000, 0, CloneFlags::default_thread()).unwrap();
    tm.create_thread(p2, 0x8000_0000, 4096, 0x402000, 0, CloneFlags::default_thread()).unwrap();
    
    let stats = tm.stats();
    assert_eq!(stats.processes, 2);
    assert_eq!(stats.threads, 5); // 2 main + 3 created
    assert_eq!(stats.alive, 5);
}

#[test]
fn test_futex_cross_process() {
    let mut tm = ThreadManager::new();
    let p1 = tm.create_process(0x7fff_0000, 0x401000);
    let p2 = tm.create_process(0x7fff_0000, 0x401000);
    
    let t1 = tm.create_thread(p1, 0x8000_0000, 4096, 0x402000, 0, CloneFlags::default_thread()).unwrap();
    let t2 = tm.create_thread(p2, 0x8000_0000, 4096, 0x402000, 0, CloneFlags::default_thread()).unwrap();
    
    // Both wait on same shared futex addr
    tm.futex_wait(p1, t1, 0x5_A4ED, 0, 0).unwrap();
    tm.futex_wait(p2, t2, 0x5_A4ED, 0, 0).unwrap();
    
    assert_eq!(tm.futex.waiting_count(), 2);
    
    // Wake all
    let woken = tm.futex_wake(0x5_A4ED, 10).unwrap();
    assert_eq!(woken, 2);
}

#[test]
fn test_destroy_clears_futex() {
    let mut tm = ThreadManager::new();
    let pid = tm.create_process(0x7fff_0000, 0x401000);
    let tid = tm.create_thread(pid, 0x8000_0000, 4096, 0x402000, 0, CloneFlags::default_thread()).unwrap();
    tm.futex_wait(pid, tid, 0x6000, 0, 0).unwrap();
    assert_eq!(tm.futex.waiting_count(), 1);
    tm.destroy_process(pid).unwrap();
    assert_eq!(tm.futex.waiting_count(), 0);
}

