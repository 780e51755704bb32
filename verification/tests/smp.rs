use shivacore::smp::{
    CpuAffinity, CpuId, CpuState, CpuStats, CpuTopology, IpiType, PerCpuData, RunQueue,
    SchedDomain, SmpBarrier, SmpError, SmpManager, TaskSmpInfo, DEFAULT_QUANTUM_TICKS,
};

// ── CpuState Tests ────────────────────────────────────────

#[test]
fn test_cpu_state_names() {
    assert_eq!(CpuState::Offline.name(), "offline");
    assert_eq!(CpuState::Booting.name(), "booting");
    assert_eq!(CpuState::Online.name(), "online");
    assert_eq!(CpuState::Paused.name(), "paused");
    assert_eq!(CpuState::Stopping.name(), "stopping");
}

#[test]
fn test_cpu_state_is_active() {
    assert!(CpuState::Online.is_active());
    assert!(!CpuState::Offline.is_active());
    assert!(!CpuState::Paused.is_active());
}

#[test]
fn test_cpu_state_is_available() {
    assert!(CpuState::Online.is_available());
    assert!(CpuState::Paused.is_available());
    assert!(!CpuState::Offline.is_available());
}

// ── CpuId Tests ──────────────────────────────────────────

#[test]
fn test_cpu_id_bsp() {
    assert!(CpuId(0).is_bsp());
    assert!(!CpuId(1).is_bsp());
}

#[test]
fn test_cpu_id_ap() {
    assert!(!CpuId(0).is_ap());
    assert!(CpuId(1).is_ap());
}

#[test]
fn test_cpu_id_raw() {
    assert_eq!(CpuId(5).raw(), 5);
}

// ── CpuAffinity Tests ─────────────────────────────────────

#[test]
fn test_affinity_all_cpus() {
    let aff = CpuAffinity::all_cpus(64);
    assert!(!aff.is_empty());
    assert!(aff.contains(CpuId(0)));
    assert!(aff.contains(CpuId(63)));
    assert!(!aff.hard);
}

#[test]
fn test_affinity_single() {
    let aff = CpuAffinity::single(CpuId(3));
    assert!(aff.contains(CpuId(3)));
    assert!(!aff.contains(CpuId(0)));
    assert!(!aff.contains(CpuId(4)));
    assert_eq!(aff.count(), 1);
    assert!(aff.hard);
}

#[test]
fn test_affinity_range() {
    let aff = CpuAffinity::range(2, 5);
    assert!(aff.contains(CpuId(2)));
    assert!(aff.contains(CpuId(3)));
    assert!(aff.contains(CpuId(4)));
    assert!(aff.contains(CpuId(5)));
    assert!(!aff.contains(CpuId(1)));
    assert!(!aff.contains(CpuId(6)));
    assert_eq!(aff.count(), 4);
}

#[test]
fn test_affinity_add_remove() {
    let mut aff = CpuAffinity::none();
    assert!(aff.is_empty());
    aff.add(CpuId(2));
    aff.add(CpuId(4));
    assert_eq!(aff.count(), 2);
    aff.remove(CpuId(2));
    assert_eq!(aff.count(), 1);
    assert!(!aff.contains(CpuId(2)));
}

#[test]
fn test_affinity_first_cpu() {
    let mut aff = CpuAffinity::none();
    assert_eq!(aff.first_cpu(), None);
    aff.add(CpuId(5));
    aff.add(CpuId(2));
    assert_eq!(aff.first_cpu(), Some(CpuId(2)));
}

#[test]
fn test_affinity_cpus_list() {
    let mut aff = CpuAffinity::none();
    aff.add(CpuId(1));
    aff.add(CpuId(3));
    aff.add(CpuId(5));
    let cpus = aff.cpus();
    assert_eq!(cpus.len(), 3);
    assert!(cpus.contains(&CpuId(1)));
    assert!(cpus.contains(&CpuId(3)));
    assert!(cpus.contains(&CpuId(5)));
}

#[test]
fn test_affinity_cpus_len_is_count() {
    let mut aff = CpuAffinity::none();
    aff.add(CpuId(0));
    aff.add(CpuId(63));
    aff.add(CpuId(64));
    aff.add(CpuId(100));
    let cpus = aff.cpus();
    assert_eq!(cpus.len() as u32, aff.count());
    assert_eq!(cpus, vec![CpuId(0), CpuId(63), CpuId(64), CpuId(100)]);
    assert_eq!(cpus.first().copied(), aff.first_cpu());
}

#[test]
fn test_affinity_intersect() {
    let a = CpuAffinity::range(0, 5);
    let b = CpuAffinity::range(3, 8);
    let c = a.intersect(&b);
    assert!(c.contains(CpuId(3)));
    assert!(c.contains(CpuId(5)));
    assert!(!c.contains(CpuId(0)));
    assert!(!c.contains(CpuId(6)));
}

#[test]
fn test_affinity_intersect_across_words() {
    let mut a = CpuAffinity::none();
    a.add(CpuId(2));
    a.add(CpuId(70));
    let mut b = CpuAffinity::none();
    b.add(CpuId(70));
    let c = a.intersect(&b);
    let d = b.intersect(&a);
    assert_eq!(c.cpus(), vec![CpuId(70)]);
    assert_eq!(d.cpus(), vec![CpuId(70)]);
    assert!(a.contains(CpuId(2)));
}

#[test]
fn test_affinity_union() {
    let mut a = CpuAffinity::none();
    a.add(CpuId(1));
    let mut b = CpuAffinity::none();
    b.add(CpuId(3));
    let c = a.union(&b);
    assert!(c.contains(CpuId(1)));
    assert!(c.contains(CpuId(3)));
}

#[test]
fn test_affinity_set_hard() {
    let mut aff = CpuAffinity::all_cpus(64);
    assert!(!aff.hard);
    aff.set_hard(true);
    assert!(aff.hard);
}

// ── RunQueue Tests ────────────────────────────────────────

#[test]
fn test_run_queue_enqueue_dequeue() {
    let mut rq = RunQueue::new(CpuId(0));
    rq.enqueue(100, 1024);
    rq.enqueue(101, 1024);
    rq.enqueue(102, 512);
    assert_eq!(rq.len(), 3);
    assert_eq!(rq.load(), 3);

    assert!(rq.dequeue(101));
    assert_eq!(rq.len(), 2);
    assert!(!rq.dequeue(999));
}

#[test]
fn test_run_queue_next_task() {
    let mut rq = RunQueue::new(CpuId(0));
    rq.enqueue(100, 1024);
    rq.enqueue(101, 1024);

    let next = rq.next_task();
    assert_eq!(next, Some(100));
    assert_eq!(rq.current_pid, Some(100));
    assert_eq!(rq.quantum_remaining, DEFAULT_QUANTUM_TICKS);
}

#[test]
fn test_run_queue_next_task_empty() {
    let mut rq = RunQueue::new(CpuId(0));
    assert_eq!(rq.next_task(), None);
}

#[test]
fn test_run_queue_tick() {
    let mut rq = RunQueue::new(CpuId(0));
    rq.enqueue(100, 1024);
    rq.next_task();

    // Tick down quantum
    for _ in 0..DEFAULT_QUANTUM_TICKS {
        assert!(!rq.tick());
    }
    // Next tick should signal quantum expired
    assert!(rq.tick());
}

#[test]
fn test_run_queue_peek_next() {
    let mut rq = RunQueue::new(CpuId(0));
    rq.enqueue(100, 1024);
    rq.enqueue(101, 1024);
    assert_eq!(rq.peek_next(), Some(100));
    rq.next_task();
    assert_eq!(rq.peek_next(), Some(101));
}

#[test]
fn test_run_queue_is_empty() {
    let mut rq = RunQueue::new(CpuId(0));
    assert!(rq.is_empty());
    rq.enqueue(100, 1024);
    assert!(!rq.is_empty());
}

// ── PerCpuData Tests ──────────────────────────────────────

#[test]
fn test_per_cpu_data_new() {
    let data = PerCpuData::new(CpuId(0));
    assert_eq!(data.cpu_id, CpuId(0));
    assert_eq!(data.state, CpuState::Offline);
    assert!(!data.is_online());
    assert!(data.is_bsp());
}

#[test]
fn test_per_cpu_data_record_switch() {
    let mut data = PerCpuData::new(CpuId(0));
    data.record_switch();
    data.record_switch();
    assert_eq!(data.context_switches, 2);
}

#[test]
fn test_per_cpu_data_migration_stats() {
    let mut data = PerCpuData::new(CpuId(0));
    data.record_migration_in();
    data.record_migration_in();
    data.record_migration_out();
    assert_eq!(data.migrations_in, 2);
    assert_eq!(data.migrations_out, 1);
}

#[test]
fn test_per_cpu_data_ipi() {
    let mut data = PerCpuData::new(CpuId(0));
    data.record_ipi(IpiType::Reschedule);
    assert_eq!(data.ipi_count, 1);
    assert_eq!(data.last_ipi, Some(IpiType::Reschedule));
}

// ── CpuStats Tests ────────────────────────────────────────

#[test]
fn test_cpu_stats_total_ticks() {
    let mut stats = CpuStats::new(CpuId(0));
    stats.record_user(100);
    stats.record_system(50);
    stats.record_idle(200);
    assert_eq!(stats.total_ticks(), 350);
}

#[test]
fn test_cpu_stats_busy_ticks() {
    let mut stats = CpuStats::new(CpuId(0));
    stats.record_user(100);
    stats.record_system(50);
    stats.record_idle(200);
    assert_eq!(stats.busy_ticks(), 150);
}

// ── IpiType Tests ─────────────────────────────────────────

#[test]
fn test_ipi_type_names() {
    assert_eq!(IpiType::Reschedule.name(), "RESCHEDULE");
    assert_eq!(IpiType::TlbShootdown.name(), "TLB_SHOOTDOWN");
    assert_eq!(IpiType::CallFunction.name(), "CALL_FUNCTION");
    assert_eq!(IpiType::Stop.name(), "STOP");
}

#[test]
fn test_ipi_type_priority() {
    assert!(IpiType::Crash.priority() < IpiType::Stop.priority());
    assert!(IpiType::Stop.priority() < IpiType::Reschedule.priority());
    assert!(IpiType::TlbShootdown.priority() < IpiType::Reschedule.priority());
}

// ── CpuTopology Tests ─────────────────────────────────────

#[test]
fn test_topology_single_node() {
    let topo = CpuTopology::single_node(8);
    assert_eq!(topo.num_cpus, 8);
    assert_eq!(topo.numa_nodes.len(), 1);
    assert_eq!(topo.get_node(0), Some(0));
    assert_eq!(topo.get_node(7), Some(0));
}

#[test]
fn test_topology_with_hyperthreads() {
    let topo = CpuTopology::with_hyperthreads(8, 2);
    assert_eq!(topo.num_cpus, 8);
    // CPU 0 and 1 are siblings
    assert_eq!(topo.get_sibling(0), Some(1));
    assert_eq!(topo.get_sibling(1), Some(0));
    // CPU 0 and 1 share core 0
    assert_eq!(topo.get_core(0), Some(0));
    assert_eq!(topo.get_core(1), Some(0));
}

#[test]
fn test_topology_is_sibling() {
    let topo = CpuTopology::with_hyperthreads(8, 2);
    assert!(topo.is_sibling(0, 1));
    assert!(topo.is_sibling(1, 0));
    assert!(!topo.is_sibling(0, 2));
}

#[test]
fn test_topology_cpus_in_node() {
    let topo = CpuTopology::single_node(4);
    let cpus = topo.cpus_in_node(0);
    assert_eq!(cpus.len(), 4);
}

#[test]
fn test_topology_cpus_on_core() {
    let topo = CpuTopology::with_hyperthreads(8, 2);
    let cpus = topo.cpus_on_core(0);
    assert_eq!(cpus.len(), 2);
    assert!(cpus.contains(&0));
    assert!(cpus.contains(&1));
}

#[test]
fn test_topology_distance() {
    let topo = CpuTopology::single_node(8);
    assert_eq!(topo.distance(0, 1), 10); // Same node
}

// ── TaskSmpInfo Tests ─────────────────────────────────────

#[test]
fn test_task_smp_info_new() {
    let task = TaskSmpInfo::new(100, 64);
    assert_eq!(task.pid, 100);
    assert!(task.affinity.contains(CpuId(0)));
    assert!(task.affinity.contains(CpuId(63)));
    assert_eq!(task.weight, 1024);
}

#[test]
fn test_task_smp_info_pinned() {
    let task = TaskSmpInfo::pinned(100, CpuId(2));
    assert!(task.can_run_on(CpuId(2)));
    assert!(!task.can_run_on(CpuId(0)));
    assert_eq!(task.current_cpu, Some(CpuId(2)));
    assert!(task.affinity.hard);
}

#[test]
fn test_task_smp_info_set_affinity() {
    let mut task = TaskSmpInfo::new(100, 64);
    task.set_affinity(CpuAffinity::single(CpuId(1)));
    assert!(task.can_run_on(CpuId(1)));
    assert!(!task.can_run_on(CpuId(0)));
}

#[test]
fn test_task_smp_info_record_migration() {
    let mut task = TaskSmpInfo::new(100, 64);
    task.current_cpu = Some(CpuId(0));
    task.record_migration(CpuId(0), CpuId(3));
    assert_eq!(task.last_cpu, Some(CpuId(0)));
    assert_eq!(task.current_cpu, Some(CpuId(3)));
    assert_eq!(task.migrations, 1);
}

// ── SmpBarrier Tests ──────────────────────────────────────

#[test]
fn test_barrier_creation() {
    let barrier = SmpBarrier::new(1, vec![CpuId(0), CpuId(1), CpuId(2)]);
    assert_eq!(barrier.expected, 3);
    assert_eq!(barrier.arrived, 0);
    assert_eq!(barrier.generation, 0);
}

#[test]
fn test_barrier_arrive() {
    let mut barrier = SmpBarrier::new(1, vec![CpuId(0), CpuId(1), CpuId(2)]);
    assert!(!barrier.arrive(CpuId(0)));
    assert_eq!(barrier.arrived, 1);
    assert!(!barrier.arrive(CpuId(1)));
    assert_eq!(barrier.arrived, 2);
    assert!(barrier.arrive(CpuId(2)));  // Last one releases
    assert_eq!(barrier.arrived, 0);
    assert_eq!(barrier.generation, 1);
}

#[test]
fn test_barrier_non_participant() {
    let mut barrier = SmpBarrier::new(1, vec![CpuId(0), CpuId(1)]);
    assert!(!barrier.arrive(CpuId(5)));  // Not a participant
    assert_eq!(barrier.arrived, 0);
}

#[test]
fn test_barrier_reset() {
    let mut barrier = SmpBarrier::new(1, vec![CpuId(0), CpuId(1)]);
    barrier.arrive(CpuId(0));
    barrier.reset();
    assert_eq!(barrier.arrived, 0);
    assert_eq!(barrier.generation, 1);
}

// ── SchedDomain Tests ─────────────────────────────────────

#[test]
fn test_sched_domain_new() {
    let domain = SchedDomain::new(1, 0, vec![CpuId(0), CpuId(1)]);
    assert_eq!(domain.domain_id, 1);
    assert_eq!(domain.level, 0);
    assert_eq!(domain.cpus.len(), 2);
    assert!(domain.contains(CpuId(0)));
    assert!(domain.contains(CpuId(1)));
    assert!(!domain.contains(CpuId(2)));
}

#[test]
fn test_sched_domain_should_balance() {
    let mut domain = SchedDomain::new(1, 0, vec![CpuId(0)]);
    domain.last_balance = 100;
    assert!(!domain.should_balance(150));
    assert!(domain.should_balance(250));
}

// ── SmpManager: Basic Tests ───────────────────────────────

#[test]
fn test_smp_manager_new() {
    let mgr = SmpManager::new(4);
    assert_eq!(mgr.cpu_count(), 4);
    assert_eq!(mgr.online_count(), 1);  // Only BSP
    assert_eq!(mgr.online_cpus(), vec![CpuId(0)]);
}

#[test]
fn test_smp_manager_with_topology() {
    let topo = CpuTopology::with_hyperthreads(8, 2);
    let mgr = SmpManager::with_topology(8, topo);
    assert_eq!(mgr.cpu_count(), 8);
    assert!(mgr.is_sibling(CpuId(0), CpuId(1)));
}

#[test]
fn test_smp_manager_get_cpu() {
    let mgr = SmpManager::new(4);
    let cpu = mgr.get_cpu(CpuId(0));
    assert!(cpu.is_some());
    assert_eq!(cpu.unwrap().cpu_id, CpuId(0));
}

// ── SmpManager: Hotplug Tests ─────────────────────────────

#[test]
fn test_smp_bring_cpu_online() {
    let mut mgr = SmpManager::new(4);
    assert_eq!(mgr.online_count(), 1);

    mgr.bring_cpu_online(CpuId(1)).unwrap();
    assert_eq!(mgr.online_count(), 2);
    assert!(mgr.get_cpu(CpuId(1)).unwrap().is_online());
}

#[test]
fn test_smp_bring_cpu_already_online() {
    let mut mgr = SmpManager::new(4);
    let result = mgr.bring_cpu_online(CpuId(0));
    assert_eq!(result, Err(SmpError::AlreadyOnline));
}

#[test]
fn test_smp_take_cpu_offline() {
    let mut mgr = SmpManager::new(4);
    mgr.bring_cpu_online(CpuId(1)).unwrap();
    mgr.take_cpu_offline(CpuId(1)).unwrap();
    assert!(!mgr.get_cpu(CpuId(1)).unwrap().is_online());
    assert_eq!(mgr.online_count(), 1);
}

#[test]
fn test_smp_cannot_offline_bsp() {
    let mut mgr = SmpManager::new(4);
    let result = mgr.take_cpu_offline(CpuId(0));
    assert_eq!(result, Err(SmpError::CannotOfflineBsp));
}

#[test]
fn test_smp_pause_resume_cpu() {
    let mut mgr = SmpManager::new(4);
    mgr.bring_cpu_online(CpuId(1)).unwrap();
    mgr.pause_cpu(CpuId(1)).unwrap();
    assert_eq!(mgr.get_cpu(CpuId(1)).unwrap().state, CpuState::Paused);
    mgr.resume_cpu(CpuId(1)).unwrap();
    assert_eq!(mgr.get_cpu(CpuId(1)).unwrap().state, CpuState::Online);
}

#[test]
fn test_smp_pause_not_online() {
    let mut mgr = SmpManager::new(4);
    let result = mgr.pause_cpu(CpuId(2));
    assert_eq!(result, Err(SmpError::NotOnline));
}

// ── SmpManager: Task Tests ────────────────────────────────

#[test]
fn test_smp_register_task() {
    let mut mgr = SmpManager::new(4);
    mgr.register_task(100, 64);
    assert!(mgr.get_task_affinity(100).is_some());
}

#[test]
fn test_smp_register_pinned_task() {
    let mut mgr = SmpManager::new(4);
    mgr.register_task_pinned(100, CpuId(2));
    let aff = mgr.get_task_affinity(100).unwrap();
    assert!(aff.contains(CpuId(2)));
    assert!(!aff.contains(CpuId(0)));
    assert!(aff.hard);
}

#[test]
fn test_smp_set_task_affinity() {
    let mut mgr = SmpManager::new(4);
    mgr.register_task(100, 64);
    mgr.set_task_affinity(100, CpuAffinity::single(CpuId(1))).unwrap();
    let aff = mgr.get_task_affinity(100).unwrap();
    assert!(aff.contains(CpuId(1)));
    assert!(!aff.contains(CpuId(0)));
}

#[test]
fn test_smp_pin_unpin_task() {
    let mut mgr = SmpManager::new(4);
    mgr.register_task(100, 64);
    mgr.pin_task(100, CpuId(2)).unwrap();
    assert!(mgr.get_task_affinity(100).unwrap().contains(CpuId(2)));
    assert!(!mgr.get_task_affinity(100).unwrap().contains(CpuId(0)));
    mgr.unpin_task(100, 64).unwrap();
    assert!(mgr.get_task_affinity(100).unwrap().contains(CpuId(0)));
}

#[test]
fn test_smp_unregister_task() {
    let mut mgr = SmpManager::new(4);
    mgr.register_task(100, 64);
    mgr.bring_cpu_online(CpuId(1)).unwrap();
    mgr.enqueue_task(100, CpuId(1)).unwrap();
    mgr.unregister_task(100);
    assert!(mgr.get_task_affinity(100).is_none());
}

#[test]
fn test_smp_set_task_weight() {
    let mut mgr = SmpManager::new(4);
    mgr.register_task(100, 64);
    mgr.set_task_weight(100, 2048).unwrap();
    assert!(mgr.get_task(100).unwrap().weight == 2048);
}

// ── SmpManager: Scheduling Tests ──────────────────────────

#[test]
fn test_smp_enqueue_task() {
    let mut mgr = SmpManager::new(4);
    mgr.register_task(100, 64);
    mgr.bring_cpu_online(CpuId(1)).unwrap();
    mgr.enqueue_task(100, CpuId(1)).unwrap();
    assert_eq!(mgr.get_cpu(CpuId(1)).unwrap().load(), 1);
}

#[test]
fn test_smp_enqueue_offline_cpu() {
    let mut mgr = SmpManager::new(4);
    mgr.register_task(100, 64);
    let result = mgr.enqueue_task(100, CpuId(3));  // CPU 3 is offline
    assert_eq!(result, Err(SmpError::CpuOffline));
}

#[test]
fn test_smp_dequeue_task() {
    let mut mgr = SmpManager::new(4);
    mgr.register_task(100, 64);
    mgr.bring_cpu_online(CpuId(1)).unwrap();
    mgr.enqueue_task(100, CpuId(1)).unwrap();
    mgr.dequeue_task(100).unwrap();
    assert_eq!(mgr.get_cpu(CpuId(1)).unwrap().load(), 0);
}

#[test]
fn test_smp_schedule_next() {
    let mut mgr = SmpManager::new(4);
    mgr.register_task(100, 64);
    mgr.register_task(101, 64);
    mgr.bring_cpu_online(CpuId(1)).unwrap();
    mgr.enqueue_task(100, CpuId(1)).unwrap();
    mgr.enqueue_task(101, CpuId(1)).unwrap();

    let next = mgr.schedule_next(CpuId(1));
    assert_eq!(next, Some(100));
}

#[test]
fn test_smp_tick() {
    let mut mgr = SmpManager::new(4);
    mgr.register_task(100, 64);
    mgr.bring_cpu_online(CpuId(0)).unwrap();  // BSP already online
    mgr.enqueue_task(100, CpuId(0)).unwrap();

    for _ in 0..DEFAULT_QUANTUM_TICKS {
        assert!(!mgr.tick(CpuId(0)));
    }
    assert!(mgr.tick(CpuId(0)));
}

// ── SmpManager: Migration Tests ───────────────────────────

#[test]
fn test_smp_migrate_task() {
    let mut mgr = SmpManager::new(4);
    mgr.register_task(100, 64);
    mgr.bring_cpu_online(CpuId(1)).unwrap();
    mgr.bring_cpu_online(CpuId(2)).unwrap();
    mgr.enqueue_task(100, CpuId(1)).unwrap();

    mgr.migrate_task(100, CpuId(1), CpuId(2)).unwrap();
    assert_eq!(mgr.get_cpu(CpuId(1)).unwrap().load(), 0);
    assert_eq!(mgr.get_cpu(CpuId(2)).unwrap().load(), 1);
    assert_eq!(mgr.get_task(100).unwrap().current_cpu, Some(CpuId(2)));
    assert_eq!(mgr.get_task(100).unwrap().migrations, 1);
}

#[test]
fn test_smp_migrate_affinity_violation() {
    let mut mgr = SmpManager::new(4);
    mgr.register_task_pinned(100, CpuId(1));
    mgr.bring_cpu_online(CpuId(1)).unwrap();
    mgr.bring_cpu_online(CpuId(2)).unwrap();
    mgr.enqueue_task(100, CpuId(1)).unwrap();

    let result = mgr.migrate_task(100, CpuId(1), CpuId(2));
    assert_eq!(result, Err(SmpError::AffinityViolation));
}

#[test]
fn test_smp_migrate_to_offline() {
    let mut mgr = SmpManager::new(4);
    mgr.register_task(100, 64);
    mgr.bring_cpu_online(CpuId(1)).unwrap();
    mgr.enqueue_task(100, CpuId(1)).unwrap();

    let result = mgr.migrate_task(100, CpuId(1), CpuId(3));  // CPU 3 offline
    assert_eq!(result, Err(SmpError::CpuOffline));
}

#[test]
fn test_smp_migrate_same_cpu() {
    let mut mgr = SmpManager::new(4);
    mgr.register_task(100, 64);
    mgr.bring_cpu_online(CpuId(1)).unwrap();
    mgr.enqueue_task(100, CpuId(1)).unwrap();

    mgr.migrate_task(100, CpuId(1), CpuId(1)).unwrap();  // No-op
    assert_eq!(mgr.get_cpu(CpuId(1)).unwrap().load(), 1);
}

// ── SmpManager: Load Balancing Tests ──────────────────────

#[test]
fn test_smp_find_idle_cpu() {
    let mut mgr = SmpManager::new(4);
    mgr.bring_cpu_online(CpuId(1)).unwrap();
    mgr.bring_cpu_online(CpuId(2)).unwrap();
    // CPU 0 has BSP running, CPU 1 and 2 are idle
    let idle = mgr.find_idle_cpu();
    assert!(idle.is_some());
}

#[test]
fn test_smp_find_cpu_for_task() {
    let mut mgr = SmpManager::new(4);
    mgr.register_task(100, 64);
    mgr.bring_cpu_online(CpuId(1)).unwrap();
    mgr.bring_cpu_online(CpuId(2)).unwrap();
    let cpu = mgr.find_cpu_for_task(100);
    assert!(cpu.is_some());
}

#[test]
fn test_smp_find_cpu_for_pinned_task() {
    let mut mgr = SmpManager::new(4);
    mgr.register_task_pinned(100, CpuId(2));
    mgr.bring_cpu_online(CpuId(1)).unwrap();
    mgr.bring_cpu_online(CpuId(2)).unwrap();
    let cpu = mgr.find_cpu_for_task(100);
    assert_eq!(cpu, Some(CpuId(2)));
}

#[test]
fn test_smp_balance_load() {
    let mut mgr = SmpManager::new(4);
    for i in 1..4 { mgr.bring_cpu_online(CpuId(i)).unwrap(); }

    mgr.register_task(100, 64);
    mgr.register_task(101, 64);
    mgr.register_task(102, 64);
    mgr.register_task(103, 64);

    // All tasks on CPU 0
    mgr.enqueue_task(100, CpuId(0)).unwrap();
    mgr.enqueue_task(101, CpuId(0)).unwrap();
    mgr.enqueue_task(102, CpuId(0)).unwrap();
    mgr.enqueue_task(103, CpuId(0)).unwrap();

    // Balance should move tasks to idle CPUs
    let migrations = mgr.balance_load();
    assert!(!migrations.is_empty());

    // CPU 0 should have fewer tasks
    let cpu0_load = mgr.get_cpu(CpuId(0)).unwrap().load();
    assert!(cpu0_load < 4);
}

#[test]
fn test_smp_balance_no_imbalance() {
    let mut mgr = SmpManager::new(4);
    mgr.bring_cpu_online(CpuId(1)).unwrap();
    mgr.bring_cpu_online(CpuId(2)).unwrap();

    mgr.register_task(100, 64);
    mgr.register_task(101, 64);
    mgr.enqueue_task(100, CpuId(0)).unwrap();
    mgr.enqueue_task(101, CpuId(1)).unwrap();

    let migrations = mgr.balance_load();
    // Load is balanced (1 vs 1) — no migrations
    assert!(migrations.is_empty());
}

// ── SmpManager: IPI Tests ─────────────────────────────────

#[test]
fn test_smp_send_ipi() {
    let mut mgr = SmpManager::new(4);
    mgr.bring_cpu_online(CpuId(1)).unwrap();
    mgr.send_ipi(CpuId(0), CpuId(1), IpiType::Reschedule).unwrap();
    assert_eq!(mgr.ipi_count(), 1);
    assert_eq!(mgr.get_cpu(CpuId(1)).unwrap().ipi_count, 1);
    assert_eq!(mgr.get_cpu(CpuId(1)).unwrap().last_ipi, Some(IpiType::Reschedule));
}

#[test]
fn test_smp_send_ipi_offline() {
    let mut mgr = SmpManager::new(4);
    let result = mgr.send_ipi(CpuId(0), CpuId(3), IpiType::Reschedule);
    assert_eq!(result, Err(SmpError::CpuOffline));
}

#[test]
fn test_smp_send_ipi_all() {
    let mut mgr = SmpManager::new(4);
    mgr.bring_cpu_online(CpuId(1)).unwrap();
    mgr.bring_cpu_online(CpuId(2)).unwrap();
    let results = mgr.send_ipi_all(CpuId(0), IpiType::WakeUp);
    // Sent to all online except self
    assert_eq!(results.len(), 2);
    assert!(results.iter().all(|(_, r)| r.is_ok()));
    assert_eq!(mgr.ipi_count(), 2);
}

#[test]
fn test_smp_send_ipi_mask() {
    let mut mgr = SmpManager::new(4);
    mgr.bring_cpu_online(CpuId(1)).unwrap();
    mgr.bring_cpu_online(CpuId(2)).unwrap();
    let mut mask = CpuAffinity::none();
    mask.add(CpuId(1));
    mask.add(CpuId(2));
    mask.add(CpuId(3)); // Offline — will fail
    let results = mgr.send_ipi_mask(CpuId(0), &mask, IpiType::Reschedule);
    assert_eq!(results.len(), 2);
    let successes = results.iter().filter(|(_, r)| r.is_ok()).count();
    let _failures = results.iter().filter(|(_, r)| r.is_err()).count();
    assert_eq!(successes, 1);
    assert!(results.len() >= 2);
}

#[test]
fn test_smp_send_ipi_mask_lowest_reachable_gets_it() {
    let mut mgr = SmpManager::new(4);
    mgr.bring_cpu_online(CpuId(2)).unwrap();
    mgr.bring_cpu_online(CpuId(3)).unwrap();
    let mut mask = CpuAffinity::none();
    mask.add(CpuId(0));
    mask.add(CpuId(1));
    mask.add(CpuId(2));
    mask.add(CpuId(3));
    let results = mgr.send_ipi_mask(CpuId(0), &mask, IpiType::Reschedule);
    assert_eq!(results, vec![(CpuId(1), Err(SmpError::CpuOffline)), (CpuId(2), Ok(()))]);
    assert_eq!(mgr.ipi_count(), 1);
    assert_eq!(mgr.consume_ipis(CpuId(2)).len(), 1);
}

#[test]
fn test_smp_consume_ipis() {
    let mut mgr = SmpManager::new(4);
    mgr.bring_cpu_online(CpuId(1)).unwrap();
    mgr.send_ipi(CpuId(0), CpuId(1), IpiType::Reschedule).unwrap();
    mgr.send_ipi(CpuId(0), CpuId(1), IpiType::TlbShootdown).unwrap();

    let ipis = mgr.consume_ipis(CpuId(1));
    assert_eq!(ipis.len(), 2);
}

// ── SmpManager: Barrier Tests ─────────────────────────────

#[test]
fn test_smp_create_barrier() {
    let mut mgr = SmpManager::new(4);
    let id = mgr.create_barrier(vec![CpuId(0), CpuId(1), CpuId(2)]);
    assert!(id > 0);
}

#[test]
fn test_smp_arrive_barrier() {
    let mut mgr = SmpManager::new(4);
    let id = mgr.create_barrier(vec![CpuId(0), CpuId(1), CpuId(2)]);

    assert!(!mgr.arrive_barrier(id, CpuId(0)).unwrap());
    assert!(!mgr.arrive_barrier(id, CpuId(1)).unwrap());
    assert!(mgr.arrive_barrier(id, CpuId(2)).unwrap());  // Complete
}

#[test]
fn test_smp_barrier_not_found() {
    let mut mgr = SmpManager::new(4);
    let result = mgr.arrive_barrier(999, CpuId(0));
    assert_eq!(result, Err(SmpError::BarrierNotFound));
}

#[test]
fn test_smp_destroy_barrier() {
    let mut mgr = SmpManager::new(4);
    let id = mgr.create_barrier(vec![CpuId(0), CpuId(1)]);
    assert!(mgr.destroy_barrier(id));
    assert!(!mgr.destroy_barrier(id));
}

// ── SmpManager: Sched Domain Tests ────────────────────────

#[test]
fn test_smp_create_sched_domain() {
    let mut mgr = SmpManager::new(8);
    let id = mgr.create_sched_domain(0, vec![CpuId(0), CpuId(1)]);
    assert!(id > 0);
    assert!(mgr.get_sched_domain(id).is_some());
    assert!(mgr.get_sched_domain(id).unwrap().contains(CpuId(0)));
}

#[test]
fn test_smp_sched_domain_hierarchy() {
    let mut mgr = SmpManager::new(8);
    let parent = mgr.create_sched_domain(1, vec![CpuId(0), CpuId(1), CpuId(2), CpuId(3)]);
    let child = mgr.create_sched_domain(0, vec![CpuId(0), CpuId(1)]);

    assert!(mgr.set_domain_parent(child, parent));
    assert!(mgr.add_domain_child(parent, child));
}

// ── SmpManager: Topology Tests ─────────────────────────────

#[test]
fn test_smp_cpu_distance() {
    let mgr = SmpManager::new(4);
    assert_eq!(mgr.cpu_distance(CpuId(0), CpuId(1)), 10);  // Same NUMA
}

#[test]
fn test_smp_is_sibling() {
    let topo = CpuTopology::with_hyperthreads(8, 2);
    let mgr = SmpManager::with_topology(8, topo);
    assert!(mgr.is_sibling(CpuId(0), CpuId(1)));
    assert!(!mgr.is_sibling(CpuId(0), CpuId(2)));
}

#[test]
fn test_smp_same_numa_node() {
    let mgr = SmpManager::new(4);
    assert!(mgr.same_numa_node(CpuId(0), CpuId(1)));
}

// ── SmpManager: Stats Tests ───────────────────────────────

#[test]
fn test_smp_stats() {
    let mut mgr = SmpManager::new(8);
    mgr.bring_cpu_online(CpuId(1)).unwrap();
    mgr.bring_cpu_online(CpuId(2)).unwrap();

    let stats = mgr.stats();
    assert_eq!(stats.total_cpus, 8);
    assert_eq!(stats.online_cpus, 3);
    assert_eq!(stats.numa_nodes, 1);
}

#[test]
fn test_smp_max_min_load_cpu() {
    let mut mgr = SmpManager::new(4);
    mgr.bring_cpu_online(CpuId(1)).unwrap();
    mgr.register_task(100, 64);
    mgr.register_task(101, 64);
    mgr.enqueue_task(100, CpuId(0)).unwrap();
    mgr.enqueue_task(101, CpuId(0)).unwrap();

    assert_eq!(mgr.max_load_cpu(), Some(CpuId(0)));
    assert_eq!(mgr.min_load_cpu(), Some(CpuId(1)));
}

// ── SmpManager: Offline Migration Tests ───────────────────

#[test]
fn test_smp_offline_migrates_tasks() {
    let mut mgr = SmpManager::new(4);
    mgr.bring_cpu_online(CpuId(1)).unwrap();
    mgr.bring_cpu_online(CpuId(2)).unwrap();
    mgr.register_task(100, 64);
    mgr.enqueue_task(100, CpuId(1)).unwrap();

    mgr.take_cpu_offline(CpuId(1)).unwrap();
    // Task should have been migrated to another CPU
    assert!(mgr.get_task(100).unwrap().current_cpu != Some(CpuId(1)));
}

// ── Integration Tests ─────────────────────────────────────

#[test]
fn test_integration_full_smp_lifecycle() {
    let mut mgr = SmpManager::new(8);

    // 1. Bring CPUs online
    for i in 1..8 {
        mgr.bring_cpu_online(CpuId(i)).unwrap();
    }
    assert_eq!(mgr.online_count(), 8);

    // 2. Register tasks
    for pid in 100..108 {
        mgr.register_task(pid, 64);
    }

    // 3. Enqueue on CPU 0 (overload one)
    for pid in 100..108 {
        mgr.enqueue_task(pid, CpuId(0)).unwrap();
    }
    assert_eq!(mgr.get_cpu(CpuId(0)).unwrap().load(), 8);

    // 4. Load balance
    let migrations = mgr.balance_load();
    assert!(!migrations.is_empty());

    // 5. Check that load is more distributed
    let cpu0_load = mgr.get_cpu(CpuId(0)).unwrap().load();
    assert!(cpu0_load < 8);

    // 6. Pin a task
    mgr.pin_task(100, CpuId(3)).unwrap();
    let aff = mgr.get_task_affinity(100).unwrap();
    assert!(aff.contains(CpuId(3)));
    assert!(!aff.contains(CpuId(0)));

    // 7. Send IPIs
    mgr.send_ipi_all(CpuId(0), IpiType::Reschedule);
    assert!(mgr.ipi_count() > 0);

    // 8. Create and complete a barrier
    let barrier_id = mgr.create_barrier(vec![CpuId(0), CpuId(1), CpuId(2)]);
    mgr.arrive_barrier(barrier_id, CpuId(0)).unwrap();
    mgr.arrive_barrier(barrier_id, CpuId(1)).unwrap();
    assert!(mgr.arrive_barrier(barrier_id, CpuId(2)).unwrap());

    // 9. Take a CPU offline
    mgr.take_cpu_offline(CpuId(7)).unwrap();
    assert_eq!(mgr.online_count(), 7);

    // 10. Check stats
    let stats = mgr.stats();
    assert_eq!(stats.total_cpus, 8);
    assert_eq!(stats.online_cpus, 7);
    assert!(stats.total_migrations > 0);
    assert!(stats.total_balances > 0);
}

#[test]
fn test_integration_hyperthread_aware_scheduling() {
    let topo = CpuTopology::with_hyperthreads(8, 2); // 4 cores, 2 threads each
    let mut mgr = SmpManager::with_topology(8, topo);

    // Bring all CPUs online
    for i in 1..8 {
        mgr.bring_cpu_online(CpuId(i)).unwrap();
    }

    // Pin task to core 0's first thread
    mgr.register_task_pinned(100, CpuId(0));

    // Verify topology
    assert!(mgr.is_sibling(CpuId(0), CpuId(1)));
    assert_eq!(mgr.topology().get_core(0), Some(0));
    assert_eq!(mgr.topology().get_core(1), Some(0));

    // Task can only run on CPU 0
    let cpu = mgr.find_cpu_for_task(100);
    assert_eq!(cpu, Some(CpuId(0)));
}

#[test]
fn test_integration_concurrent_load_balancing() {
    let mut mgr = SmpManager::new(4);
    for i in 1..4 {
        mgr.bring_cpu_online(CpuId(i)).unwrap();
    }

    // Create 12 tasks
    for pid in 200..212 {
        mgr.register_task(pid, 64);
    }

    // Put all on CPU 0
    for pid in 200..212 {
        mgr.enqueue_task(pid, CpuId(0)).unwrap();
    }

    // Balance multiple times
    let mut total_migrations = 0;
    for _ in 0..5 {
        total_migrations += mgr.balance_load().len();
    }

    // Load should be well distributed
    let loads: Vec<u32> = (0..4).map(|i| mgr.get_cpu(CpuId(i)).map(|c| c.load()).unwrap_or(0)).collect();
    let max_load = *loads.iter().max().unwrap();
    let min_load = *loads.iter().min().unwrap();
    assert!(max_load - min_load <= 1);  // Fair distribution
    assert!(total_migrations > 0);
}

#[test]
fn test_integration_ipi_and_barriers() {
    let mut mgr = SmpManager::new(4);
    for i in 1..4 {
        mgr.bring_cpu_online(CpuId(i)).unwrap();
    }

    // IPI broadcast
    mgr.send_ipi_all(CpuId(0), IpiType::Reschedule);
    assert_eq!(mgr.ipi_count(), 3);

    // Create barrier with all online CPUs
    let online = mgr.online_cpus();
    let barrier_id = mgr.create_barrier(online.clone());

    // All CPUs arrive
    let mut complete = false;
    for cpu in &online {
        complete = mgr.arrive_barrier(barrier_id, *cpu).unwrap();
    }
    assert!(complete);

    // Verify stats
    let stats = mgr.stats();
    assert_eq!(stats.total_ipis, 3);
}

// ── Error Name Tests ──────────────────────────────────────

#[test]
fn test_smp_error_names() {
    assert_eq!(SmpError::CpuNotFound.name(), "cpu_not_found");
    assert_eq!(SmpError::TaskNotFound.name(), "task_not_found");
    assert_eq!(SmpError::CpuOffline.name(), "cpu_offline");
    assert_eq!(SmpError::CannotOfflineBsp.name(), "cannot_offline_bsp");
    assert_eq!(SmpError::AffinityViolation.name(), "affinity_violation");
    assert_eq!(SmpError::BarrierNotFound.name(), "barrier_not_found");
}
