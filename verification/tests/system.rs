use shivacore::system::{
    BootPhase, BootSequence, InitConfig, InitProcess, InitState, Pid, ProcessGroup,
    ProcessGroupManager, Session, SystemManager, UserGroup, INIT_PID, ROOT_GID, ROOT_UID,
};

// --- BootPhase tests ---

#[test]
fn test_boot_phase_order() {
    let phases = BootPhase::order();
    assert_eq!(phases.len(), 10);
    assert_eq!(phases[0], BootPhase::PreBoot);
    assert_eq!(phases[9], BootPhase::Running);
}

#[test]
fn test_boot_phase_is_post_init() {
    assert!(BootPhase::Init.is_post_init());
    assert!(BootPhase::Running.is_post_init());
    assert!(!BootPhase::Early.is_post_init());
    assert!(!BootPhase::Drivers.is_post_init());
}

#[test]
fn test_boot_phase_is_pre_userspace() {
    assert!(BootPhase::Early.is_pre_userspace());
    assert!(BootPhase::Drivers.is_pre_userspace());
    assert!(!BootPhase::Userspace.is_pre_userspace());
    assert!(!BootPhase::Running.is_pre_userspace());
}

#[test]
fn test_boot_phase_names() {
    assert_eq!(BootPhase::PreBoot.name(), "pre-boot");
    assert_eq!(BootPhase::Early.name(), "early");
    assert_eq!(BootPhase::Running.name(), "running");
    assert_eq!(BootPhase::Shutdown.name(), "shutdown");
}

// --- BootSequence tests ---

#[test]
fn test_boot_sequence_new() {
    let bs = BootSequence::new();
    assert_eq!(bs.current_phase(), BootPhase::PreBoot);
    assert_eq!(bs.completed_count(), 0);
    assert!(!bs.is_running());
    assert!(bs.is_booting());
}

#[test]
fn test_boot_sequence_advance() {
    let mut bs = BootSequence::new();
    let phase = bs.advance(1000);
    assert_eq!(phase, BootPhase::Early);
    assert_eq!(bs.completed_count(), 1);
}

#[test]
fn test_boot_sequence_full() {
    let mut bs = BootSequence::new();
    let mut ts = 0u64;
    for _ in 0..9 {
        ts += 1_000_000;
        bs.advance(ts);
    }
    assert_eq!(bs.current_phase(), BootPhase::Running);
    assert_eq!(bs.completed_count(), 9);
    assert!(bs.is_running());
}

#[test]
fn test_boot_sequence_progress() {
    let mut bs = BootSequence::new();
    assert_eq!(bs.boot_progress(), 0);
    bs.advance(1000);
    bs.advance(2000);
    assert!(bs.boot_progress() > 0);
}

#[test]
fn test_boot_sequence_log() {
    let mut bs = BootSequence::new();
    bs.log("test message");
    assert!(!bs.boot_log().is_empty());
    assert!(bs.boot_log().last().unwrap().contains("test message"));
}

#[test]
fn test_boot_sequence_phase_time() {
    let mut bs = BootSequence::new();
    bs.advance(5000);
    assert_eq!(bs.phase_time(BootPhase::PreBoot), Some(5000));
}

#[test]
fn test_boot_sequence_set_complete() {
    let mut bs = BootSequence::new();
    bs.set_boot_complete(42_000_000);
    assert!(bs.is_running());
    assert_eq!(bs.total_boot_time(), 42_000_000);
}

#[test]
fn test_boot_sequence_shutdown() {
    let mut bs = BootSequence::new();
    bs.set_boot_complete(1000);
    bs.shutdown();
    assert_eq!(bs.current_phase(), BootPhase::Shutdown);
}

// --- UserGroup tests ---

#[test]
fn test_user_group_root() {
    let ug = UserGroup::root();
    assert!(ug.is_root());
    assert_eq!(ug.uid, 0);
    assert_eq!(ug.gid, 0);
}

#[test]
fn test_user_group_new() {
    let ug = UserGroup::new(1000, 1000);
    assert!(!ug.is_root());
    assert_eq!(ug.uid, 1000);
    assert_eq!(ug.euid, 1000);
}

#[test]
fn test_user_group_setuid_root() {
    let mut ug = UserGroup::root();
    ug.setuid(1000);
    assert_eq!(ug.uid, 1000);
    assert_eq!(ug.euid, 1000);
}

#[test]
fn test_user_group_setuid_non_root() {
    let mut ug = UserGroup::new(1000, 1000);
    ug.setuid(500); // Should fail (non-root can't change UID)
    assert_eq!(ug.uid, 1000); // Unchanged
}

#[test]
fn test_user_group_seteuid() {
    let mut ug = UserGroup::new(1000, 1000);
    ug.seteuid(1000); // Can set to own UID
    assert_eq!(ug.euid, 1000);
    ug.seteuid(500); // Cannot set to other UID
    assert_eq!(ug.euid, 1000); // Unchanged
}

#[test]
fn test_user_group_setgid() {
    let mut ug = UserGroup::root();
    ug.setgid(100);
    assert_eq!(ug.gid, 100);
    assert_eq!(ug.egid, 100);
}

// --- ProcessGroup tests ---

#[test]
fn test_process_group_new() {
    let pg = ProcessGroup::new(1, Pid(100), 1);
    assert_eq!(pg.pgid, 1);
    assert_eq!(pg.leader, Pid(100));
    assert_eq!(pg.session, 1);
    assert_eq!(pg.member_count(), 1);
    assert!(pg.contains(Pid(100)));
}

#[test]
fn test_process_group_add_remove() {
    let mut pg = ProcessGroup::new(1, Pid(100), 1);
    pg.add_member(Pid(101));
    pg.add_member(Pid(102));
    assert_eq!(pg.member_count(), 3);
    assert!(pg.contains(Pid(101)));

    // Duplicate add is no-op
    pg.add_member(Pid(101));
    assert_eq!(pg.member_count(), 3);

    pg.remove_member(Pid(101));
    assert!(!pg.contains(Pid(101)));
    assert_eq!(pg.member_count(), 2);
}

#[test]
fn test_process_group_remove_leader() {
    let mut pg = ProcessGroup::new(1, Pid(100), 1);
    pg.add_member(Pid(101));
    pg.remove_member(Pid(100)); // Remove leader
    assert!(!pg.contains(Pid(100)));
    assert_eq!(pg.member_count(), 1);
}

#[test]
fn test_process_group_remove_last() {
    let mut pg = ProcessGroup::new(1, Pid(100), 1);
    pg.remove_member(Pid(100));
    assert_eq!(pg.member_count(), 0);
}

// --- Session tests ---

#[test]
fn test_session_new() {
    let s = Session::new(1, Pid(100));
    assert_eq!(s.sid, 1);
    assert_eq!(s.leader, Pid(100));
    assert_eq!(s.group_count(), 0);
    assert!(s.controlling_tty.is_none());
}

#[test]
fn test_session_add_group() {
    let mut s = Session::new(1, Pid(100));
    s.add_group(1);
    s.add_group(2);
    s.add_group(1); // Duplicate
    assert_eq!(s.group_count(), 2);
}

#[test]
fn test_session_controlling_tty() {
    let mut s = Session::new(1, Pid(100));
    s.set_controlling_tty(0);
    assert_eq!(s.controlling_tty, Some(0));
}

// --- ProcessGroupManager tests ---

#[test]
fn test_pgm_new() {
    let mgr = ProcessGroupManager::new();
    assert_eq!(mgr.group_count(), 0);
    assert_eq!(mgr.session_count(), 0);
}

#[test]
fn test_pgm_create_session() {
    let mut mgr = ProcessGroupManager::new();
    let sid = mgr.create_session(Pid(100));
    assert_eq!(sid, 1);
    assert_eq!(mgr.session_count(), 1);
    assert_eq!(mgr.group_count(), 1); // Leader gets own group
}

#[test]
fn test_pgm_create_group() {
    let mut mgr = ProcessGroupManager::new();
    let sid = mgr.create_session(Pid(100));
    let pgid = mgr.create_group(Pid(101), sid);
    assert!(pgid > 0);
    assert_eq!(mgr.group_count(), 2); // Session leader + new group
}

#[test]
fn test_pgm_join_group() {
    let mut mgr = ProcessGroupManager::new();
    let sid = mgr.create_session(Pid(100));
    let pgid = mgr.create_group(Pid(101), sid);

    // PID 102 joins the group
    assert!(mgr.join_group(Pid(102), pgid));
    let group = mgr.get_group(Pid(102)).unwrap();
    assert!(group.contains(Pid(102)));
}

#[test]
fn test_pgm_join_nonexistent_group() {
    let mut mgr = ProcessGroupManager::new();
    assert!(!mgr.join_group(Pid(100), 999));
}

#[test]
fn test_pgm_get_group() {
    let mut mgr = ProcessGroupManager::new();
    mgr.create_session(Pid(100));
    let group = mgr.get_group(Pid(100)).unwrap();
    assert_eq!(group.leader, Pid(100));
}

#[test]
fn test_pgm_get_session() {
    let mut mgr = ProcessGroupManager::new();
    let sid = mgr.create_session(Pid(100));
    let session = mgr.get_session(Pid(100)).unwrap();
    assert_eq!(session.sid, sid);
}

#[test]
fn test_pgm_remove_process() {
    let mut mgr = ProcessGroupManager::new();
    mgr.create_session(Pid(100));
    assert_eq!(mgr.group_count(), 1);

    mgr.remove_process(Pid(100));
    assert_eq!(mgr.group_count(), 0); // Group removed when empty
}

#[test]
fn test_pgm_group_members() {
    let mut mgr = ProcessGroupManager::new();
    let sid = mgr.create_session(Pid(100));
    let pgid = mgr.create_group(Pid(101), sid);
    mgr.join_group(Pid(102), pgid);
    mgr.join_group(Pid(103), pgid);

    let members = mgr.group_members(pgid);
    assert_eq!(members.len(), 3);
    assert!(members.contains(&Pid(101)));
    assert!(members.contains(&Pid(102)));
}

#[test]
fn test_pgm_session_processes() {
    let mut mgr = ProcessGroupManager::new();
    let sid = mgr.create_session(Pid(100));
    let pgid2 = mgr.create_group(Pid(101), sid);
    mgr.join_group(Pid(102), pgid2);

    let processes = mgr.session_processes(sid);
    assert!(processes.contains(&Pid(100)));
    assert!(processes.contains(&Pid(101)));
    assert!(processes.contains(&Pid(102)));
}

#[test]
fn test_pgm_multiple_sessions() {
    let mut mgr = ProcessGroupManager::new();
    let sid1 = mgr.create_session(Pid(100));
    let sid2 = mgr.create_session(Pid(200));
    assert_ne!(sid1, sid2);
    assert_eq!(mgr.session_count(), 2);
}

// --- InitProcess tests ---

#[test]
fn test_init_new() {
    let init = InitProcess::new();
    assert_eq!(init.pid, Pid(INIT_PID));
    assert_eq!(init.state, InitState::NotStarted);
    assert!(!init.is_running());
}

#[test]
fn test_init_start() {
    let mut init = InitProcess::new();
    init.start(1000);
    assert!(init.is_running());
    assert_eq!(init.start_time_ns, 1000);
}

#[test]
fn test_init_children() {
    let mut init = InitProcess::new();
    init.add_child(Pid(100));
    init.add_child(Pid(101));
    init.add_child(Pid(100)); // Duplicate
    assert_eq!(init.child_count(), 2);
    init.remove_child(Pid(100));
    assert_eq!(init.child_count(), 1);
}

#[test]
fn test_init_restart() {
    let mut init = InitProcess::new();
    init.start(1000);
    init.exit(1);
    assert!(init.should_restart());
    assert!(init.restart());
    assert_eq!(init.config.restart_count, 1);
    assert_ne!(init.state, InitState::Exited);
}

#[test]
fn test_init_max_restarts() {
    let mut init = InitProcess::new();
    init.config.max_restarts = 2;
    init.exit(1);
    assert!(init.restart()); // restart 1
    init.exit(1);
    assert!(init.restart()); // restart 2
    init.exit(1);
    assert!(!init.should_restart());
    assert!(!init.restart()); // Max reached
}

#[test]
fn test_init_shutdown() {
    let mut init = InitProcess::new();
    init.start(1000);
    init.shutdown();
    assert_eq!(init.state, InitState::ShuttingDown);
    assert!(!init.is_running());
}

#[test]
fn test_init_exit() {
    let mut init = InitProcess::new();
    init.start(1000);
    init.exit(0);
    assert!(init.is_exited());
    assert_eq!(init.exit_code, Some(0));
}

#[test]
fn test_init_uptime() {
    let mut init = InitProcess::new();
    init.start(5000);
    assert_eq!(init.uptime_ns(10000), 5000);
}

#[test]
fn test_init_config_default() {
    let config = InitConfig::default();
    assert_eq!(config.binary_path, "/bin/init");
    assert_eq!(config.uid, ROOT_UID);
    assert!(config.auto_reap);
    assert_eq!(config.env.len(), 3);
}

// --- SystemManager tests ---

#[test]
fn test_system_manager_new() {
    let mgr = SystemManager::new();
    assert!(!mgr.is_running());
    assert_eq!(mgr.current_phase(), BootPhase::PreBoot);
    assert_eq!(mgr.proc_groups.session_count(), 1); // Init session
}

#[test]
fn test_system_manager_boot() {
    let mut mgr = SystemManager::new();
    let phase = mgr.boot_system();
    assert_eq!(phase, BootPhase::Running);
    assert!(mgr.is_running());
    assert!(mgr.init.is_running());
    assert!(mgr.boot_progress() >= 100);
}

#[test]
fn test_system_manager_uptime() {
    let mut mgr = SystemManager::new();
    mgr.boot_system();
    mgr.tick(5_000_000_000); // 5 seconds
    assert!(mgr.uptime_secs() >= 5);
}

#[test]
fn test_system_manager_shutdown() {
    let mut mgr = SystemManager::new();
    mgr.boot_system();
    assert!(mgr.is_running());
    mgr.shutdown_system();
    assert!(!mgr.is_running());
    assert_eq!(mgr.current_phase(), BootPhase::Shutdown);
}

#[test]
fn test_system_manager_spawn() {
    let mut mgr = SystemManager::new();
    mgr.boot_system();
    assert!(mgr.spawn_user_process(Pid(INIT_PID), Pid(100)));
    assert_eq!(mgr.init.child_count(), 1);
}

#[test]
fn test_system_manager_spawn_not_running() {
    let mut mgr = SystemManager::new();
    assert!(!mgr.spawn_user_process(Pid(INIT_PID), Pid(100)));
}

#[test]
fn test_system_manager_reap_child() {
    let mut mgr = SystemManager::new();
    mgr.boot_system();
    mgr.spawn_user_process(Pid(INIT_PID), Pid(100));
    assert_eq!(mgr.init.child_count(), 1);
    mgr.reap_child(Pid(100));
    assert_eq!(mgr.init.child_count(), 0);
}

#[test]
fn test_system_manager_info() {
    let mut mgr = SystemManager::new();
    mgr.boot_system();
    let info = mgr.system_info();
    assert!(info.contains("ShivaCore System"));
    assert!(info.contains("running"));
    assert!(info.contains("Init PID: 1"));
}

#[test]
fn test_system_manager_boot_log() {
    let mut mgr = SystemManager::new();
    mgr.boot_system();
    let log = mgr.boot.boot_log();
    assert!(!log.is_empty());
    // Should have entries for each phase
    assert!(log.iter().any(|l| l.contains("GDT")));
    assert!(log.iter().any(|l| l.contains("PCI")));
    assert!(log.iter().any(|l| l.contains("init process")));
}

#[test]
fn test_system_manager_init_has_session() {
    let mgr = SystemManager::new();
    let session = mgr.proc_groups.get_session(Pid(INIT_PID));
    assert!(session.is_some());
    let group = mgr.proc_groups.get_group(Pid(INIT_PID));
    assert!(group.is_some());
}

#[test]
fn test_system_manager_child_inherits_group() {
    let mut mgr = SystemManager::new();
    mgr.boot_system();
    mgr.spawn_user_process(Pid(INIT_PID), Pid(100));
    // Child should be in init's process group
    let group = mgr.proc_groups.get_group(Pid(100));
    assert!(group.is_some());
}

#[test]
fn test_full_boot_lifecycle() {
    let mut mgr = SystemManager::new();

    // Boot
    assert!(!mgr.is_running());
    mgr.boot_system();
    assert!(mgr.is_running());
    assert!(mgr.init.is_running());

    // Spawn children
    mgr.spawn_user_process(Pid(INIT_PID), Pid(100));
    mgr.spawn_user_process(Pid(INIT_PID), Pid(101));
    assert_eq!(mgr.init.child_count(), 2);

    // Tick
    mgr.tick(1_000_000_000);
    assert!(mgr.uptime_secs() >= 1);

    // Reap one child
    mgr.reap_child(Pid(100));
    assert_eq!(mgr.init.child_count(), 1);

    // Shutdown
    mgr.shutdown_system();
    assert!(!mgr.is_running());
    assert_eq!(mgr.current_phase(), BootPhase::Shutdown);
}

#[test]
fn test_constants() {
    assert_eq!(ROOT_UID, 0);
    assert_eq!(ROOT_GID, 0);
    assert_eq!(INIT_PID, 1);
}
