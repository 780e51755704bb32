use shivacore::tracing::{
    FunctionTracer, Histogram, LatencyTracker, Profiler, RingBuffer, SyscallTracer, TraceCategory,
    TraceEvent, TraceEventType, TraceFilter, TraceManager,
};

// ── Ring Buffer Tests ──

#[test]
fn test_ring_buffer_basic() {
    let mut rb = RingBuffer::new(100);
    assert!(rb.is_empty());
    assert_eq!(rb.capacity(), 100);

    let event = TraceEvent::custom(0, 1, "test_event", 1, 2, 3);
    assert!(rb.push(event, 1000));
    assert_eq!(rb.len(), 1);
    assert!(!rb.is_empty());
    assert_eq!(rb.total_count(), 1);
    assert_eq!(rb.dropped_count(), 0);
}

#[test]
fn test_ring_buffer_overflow() {
    let mut rb = RingBuffer::new(5);
    for i in 0..10u64 {
        let event = TraceEvent::custom(0, 1, "evt", i, 0, 0);
        rb.push(event, i * 1000);
    }
    assert_eq!(rb.len(), 5);       // Capped at capacity
    assert_eq!(rb.total_count(), 10);
    assert_eq!(rb.dropped_count(), 5);
}

#[test]
fn test_ring_buffer_disable() {
    let mut rb = RingBuffer::new(100);
    rb.disable();
    assert!(!rb.is_enabled());
    let event = TraceEvent::custom(0, 1, "test", 0, 0, 0);
    assert!(!rb.push(event, 1000));
    assert_eq!(rb.len(), 0);
    assert_eq!(rb.total_count(), 0);

    rb.enable();
    assert!(rb.is_enabled());
    let event2 = TraceEvent::custom(0, 1, "test2", 0, 0, 0);
    assert!(rb.push(event2, 2000));
    assert_eq!(rb.len(), 1);
}

#[test]
fn test_ring_buffer_filter_by_category() {
    let mut rb = RingBuffer::new(100);
    rb.push(TraceEvent::custom(0, 1, "c1", 0, 0, 0), 100);
    rb.push(TraceEvent::syscall(0, 1, "read", 0), 200);
    rb.push(TraceEvent::sched_event(0, 1, "switch", 2), 300);
    rb.push(TraceEvent::custom(0, 2, "c2", 0, 0, 0), 400);

    assert_eq!(rb.events_by_category(TraceCategory::Custom).len(), 2);
    assert_eq!(rb.events_by_category(TraceCategory::Syscall).len(), 1);
    assert_eq!(rb.events_by_category(TraceCategory::Sched).len(), 1);
}

#[test]
fn test_ring_buffer_filter_by_pid() {
    let mut rb = RingBuffer::new(100);
    rb.push(TraceEvent::custom(0, 1, "a", 0, 0, 0), 100);
    rb.push(TraceEvent::custom(0, 2, "b", 0, 0, 0), 200);
    rb.push(TraceEvent::custom(0, 1, "c", 0, 0, 0), 300);

    assert_eq!(rb.events_by_pid(1).len(), 2);
    assert_eq!(rb.events_by_pid(2).len(), 1);
    assert_eq!(rb.events_by_pid(3).len(), 0);
}

#[test]
fn test_ring_buffer_filter_by_cpu() {
    let mut rb = RingBuffer::new(100);
    rb.push(TraceEvent::custom(0, 1, "a", 0, 0, 0), 100);
    rb.push(TraceEvent::custom(1, 1, "b", 0, 0, 0), 200);
    rb.push(TraceEvent::custom(2, 1, "c", 0, 0, 0), 300);

    assert_eq!(rb.events_by_cpu(0).len(), 1);
    assert_eq!(rb.events_by_cpu(1).len(), 1);
    assert_eq!(rb.events_by_cpu(2).len(), 1);
}

#[test]
fn test_ring_buffer_time_range() {
    let mut rb = RingBuffer::new(100);
    rb.push(TraceEvent::custom(0, 1, "a", 0, 0, 0), 1000);
    rb.push(TraceEvent::custom(0, 1, "b", 0, 0, 0), 2000);
    rb.push(TraceEvent::custom(0, 1, "c", 0, 0, 0), 3000);
    rb.push(TraceEvent::custom(0, 1, "d", 0, 0, 0), 4000);

    assert_eq!(rb.events_in_range(1500, 3500).len(), 2);
    assert_eq!(rb.events_in_range(0, 10000).len(), 4);
    assert_eq!(rb.events_in_range(5000, 6000).len(), 0);
}

#[test]
fn test_ring_buffer_clear() {
    let mut rb = RingBuffer::new(100);
    for i in 0..10u64 {
        rb.push(TraceEvent::custom(0, 1, "e", i, 0, 0), i * 100);
    }
    assert_eq!(rb.len(), 10);
    rb.clear();
    assert_eq!(rb.len(), 0);
    assert!(rb.is_empty());
}

// ── Trace Filter Tests ──

#[test]
fn test_trace_filter_empty_matches_all() {
    let filter = TraceFilter::new();
    let event = TraceEvent::custom(0, 1, "test", 0, 0, 0);
    assert!(filter.matches(&event));
}

#[test]
fn test_trace_filter_by_category() {
    let filter = TraceFilter::new().category(TraceCategory::Syscall);
    assert!(filter.matches(&TraceEvent::syscall(0, 1, "read", 0)));
    assert!(!filter.matches(&TraceEvent::custom(0, 1, "x", 0, 0, 0)));
}

#[test]
fn test_trace_filter_by_pid() {
    let filter = TraceFilter::new().pid(42);
    assert!(filter.matches(&TraceEvent::custom(0, 42, "x", 0, 0, 0)));
    assert!(!filter.matches(&TraceEvent::custom(0, 1, "x", 0, 0, 0)));
}

#[test]
fn test_trace_filter_by_cpu() {
    let filter = TraceFilter::new().cpu(2);
    assert!(filter.matches(&TraceEvent::custom(2, 1, "x", 0, 0, 0)));
    assert!(!filter.matches(&TraceEvent::custom(0, 1, "x", 0, 0, 0)));
}

#[test]
fn test_trace_filter_by_name() {
    let filter = TraceFilter::new().name_contains("sched");
    assert!(filter.matches(&TraceEvent::sched_event(0, 1, "sched_switch", 2)));
    assert!(!filter.matches(&TraceEvent::custom(0, 1, "other", 0, 0, 0)));
}

#[test]
fn test_trace_filter_by_min_duration() {
    let filter = TraceFilter::new().min_duration(1000);
    assert!(filter.matches(&TraceEvent::function_exit(0, 1, "fn", 5000)));
    assert!(!filter.matches(&TraceEvent::function_exit(0, 1, "fn", 500)));
    assert!(!filter.matches(&TraceEvent::function_entry(0, 1, "fn")));
}

#[test]
fn test_trace_filter_combined() {
    let filter = TraceFilter::new()
        .category(TraceCategory::Syscall)
        .pid(1)
        .name_contains("read");
    assert!(filter.matches(&TraceEvent::syscall(0, 1, "read", 0)));
    assert!(!filter.matches(&TraceEvent::syscall(0, 2, "read", 0)));
    assert!(!filter.matches(&TraceEvent::syscall(0, 1, "write", 0)));
}

// ── Histogram Tests ──

#[test]
fn test_histogram_basic() {
    let mut h = Histogram::new("test", vec![10, 100, 1000]);
    h.record(5);
    h.record(50);
    h.record(500);
    h.record(5000);

    assert_eq!(h.count, 4);
    assert_eq!(h.min_value, 5);
    assert_eq!(h.max_value, 5000);
    assert_eq!(h.sum, 5555);
}

#[test]
fn test_histogram_percentiles() {
    let mut h = Histogram::latency("lat");
    for i in 1..=100u64 {
        h.record(i * 1000);  // 1us to 100us
    }
    // P50 should be around 50us
    assert!(h.p50() >= 10_000);
    // P99 should be near max
    assert!(h.p99() >= 100_000);
}

#[test]
fn test_histogram_reset() {
    let mut h = Histogram::new("test", vec![10, 100]);
    h.record(5);
    h.record(50);
    assert_eq!(h.count, 2);
    h.reset();
    assert_eq!(h.count, 0);
    assert_eq!(h.sum, 0);
}

#[test]
fn test_histogram_buckets() {
    let mut h = Histogram::new("test", vec![10, 100, 1000, 10000]);
    h.record(5);     // -> bucket 10
    h.record(50);    // -> bucket 100
    h.record(500);   // -> bucket 1000
    h.record(5000);  // -> bucket 10000
    h.record(50000); // -> bucket MAX

    assert_eq!(h.buckets.len(), 5);
    assert_eq!(h.buckets[&10], 1);
    assert_eq!(h.buckets[&100], 1);
    assert_eq!(h.buckets[&1000], 1);
    assert_eq!(h.buckets[&10000], 1);
}

// ── Function Tracer Tests ──

#[test]
fn test_function_tracer_enter_exit() {
    let mut ft = FunctionTracer::new(32);
    ft.enable();

    assert!(ft.enter(0, 1, "func_a", 1000, [0; 3]));
    assert_eq!(ft.depth(0), 1);
    assert!(ft.enter(0, 1, "func_b", 2000, [0; 3]));
    assert_eq!(ft.depth(0), 2);

    let exit_result = ft.exit(0, 3000);
    assert!(exit_result.is_some());
    let (name, dur) = exit_result.unwrap();
    assert_eq!(name, "func_b");
    assert_eq!(dur, 1000);

    let exit_result2 = ft.exit(0, 4000);
    assert!(exit_result2.is_some());
    let (name2, dur2) = exit_result2.unwrap();
    assert_eq!(name2, "func_a");
    assert_eq!(dur2, 3000);

    assert_eq!(ft.depth(0), 0);
}

#[test]
fn test_function_tracer_disabled() {
    let mut ft = FunctionTracer::new(32);
    // Not enabled
    assert!(!ft.enter(0, 1, "func", 1000, [0; 3]));
    assert_eq!(ft.depth(0), 0);
    assert!(ft.exit(0, 2000).is_none());
}

#[test]
fn test_function_tracer_max_depth() {
    let mut ft = FunctionTracer::new(3);
    ft.enable();

    assert!(ft.enter(0, 1, "f1", 1000, [0; 3]));
    assert!(ft.enter(0, 1, "f2", 2000, [0; 3]));
    assert!(ft.enter(0, 1, "f3", 3000, [0; 3]));
    assert!(!ft.enter(0, 1, "f4", 4000, [0; 3])); // Max depth
    assert_eq!(ft.depth(0), 3);
}

#[test]
fn test_function_tracer_call_counts() {
    let mut ft = FunctionTracer::new(32);
    ft.enable();

    ft.enter(0, 1, "func_a", 100, [0; 3]);
    ft.exit(0, 200);
    ft.enter(0, 1, "func_a", 300, [0; 3]);
    ft.exit(0, 400);
    ft.enter(0, 1, "func_b", 500, [0; 3]);
    ft.exit(0, 600);

    assert_eq!(ft.call_count("func_a"), 2);
    assert_eq!(ft.call_count("func_b"), 1);
    assert_eq!(ft.call_count("func_c"), 0);
}

#[test]
fn test_function_tracer_top_by_time() {
    let mut ft = FunctionTracer::new(32);
    ft.enable();

    ft.enter(0, 1, "fast", 100, [0; 3]);
    ft.exit(0, 110);   // 10 ns
    ft.enter(0, 1, "slow", 200, [0; 3]);
    ft.exit(0, 5000);  // 4800 ns
    ft.enter(0, 1, "mid", 6000, [0; 3]);
    ft.exit(0, 7000);  // 1000 ns

    let top = ft.top_by_time(3);
    assert_eq!(top[0].0, "slow");
    assert_eq!(top[0].1, 4800);
    assert_eq!(top[1].0, "mid");
    assert_eq!(top[1].1, 1000);
    assert_eq!(top[2].0, "fast");
    assert_eq!(top[2].1, 10);
}

#[test]
fn test_function_tracer_top_by_count() {
    let mut ft = FunctionTracer::new(32);
    ft.enable();

    for _ in 0..5 { ft.enter(0, 1, "frequent", 100, [0; 3]); ft.exit(0, 110); }
    for _ in 0..2 { ft.enter(0, 1, "rare", 100, [0; 3]); ft.exit(0, 110); }

    let top = ft.top_by_count(2);
    assert_eq!(top[0].0, "frequent");
    assert_eq!(top[0].1, 5);
    assert_eq!(top[1].0, "rare");
    assert_eq!(top[1].1, 2);
}

#[test]
fn test_function_tracer_multi_cpu() {
    let mut ft = FunctionTracer::new(32);
    ft.enable();

    ft.enter(0, 1, "cpu0_func", 100, [0; 3]);
    ft.enter(1, 2, "cpu1_func", 200, [0; 3]);

    assert_eq!(ft.depth(0), 1);
    assert_eq!(ft.depth(1), 1);

    ft.exit(0, 300);
    ft.exit(1, 400);

    assert_eq!(ft.depth(0), 0);
    assert_eq!(ft.depth(1), 0);
}

#[test]
fn test_function_tracer_reset_stats() {
    let mut ft = FunctionTracer::new(32);
    ft.enable();

    ft.enter(0, 1, "f", 100, [0; 3]);
    ft.exit(0, 200);
    assert_eq!(ft.call_count("f"), 1);

    ft.reset_stats();
    assert_eq!(ft.call_count("f"), 0);
}

#[test]
fn test_function_tracer_max_depth_reached() {
    let mut ft = FunctionTracer::new(5);
    ft.enable();

    ft.enter(0, 1, "a", 100, [0; 3]);
    ft.enter(0, 1, "b", 200, [0; 3]);
    ft.enter(0, 1, "c", 300, [0; 3]);
    assert_eq!(ft.max_depth_reached(), 3);

    ft.exit(0, 400);
    ft.exit(0, 500);
    ft.exit(0, 600);
    // max_depth_reached stays at 3
    assert_eq!(ft.max_depth_reached(), 3);
}

// ── Syscall Tracer Tests ──

#[test]
fn test_syscall_tracer_disabled() {
    let mut st = SyscallTracer::new(100);
    let recorded = st.record(1, 0, "read", [0; 6], 0, 100, 1000, None);
    assert!(!recorded);
    assert_eq!(st.count("read"), 0);
}

#[test]
fn test_syscall_tracer_pid_filter() {
    let mut st = SyscallTracer::new(100);
    st.enable();
    st.trace_pid(42);

    assert!(st.record(42, 0, "read", [0; 6], 0, 100, 1000, None));
    assert!(!st.record(1, 0, "read", [0; 6], 0, 100, 1000, None));
    assert_eq!(st.count("read"), 1);
}

#[test]
fn test_syscall_tracer_syscall_filter() {
    let mut st = SyscallTracer::new(100);
    st.enable();
    st.trace_syscall("read");

    assert!(st.record(1, 0, "read", [0; 6], 0, 100, 1000, None));
    assert!(!st.record(1, 0, "write", [0; 6], 0, 100, 1000, None));
    assert_eq!(st.count("read"), 1);
    assert_eq!(st.count("write"), 0);
}

#[test]
fn test_syscall_tracer_overflow() {
    let mut st = SyscallTracer::new(5);
    st.enable();

    for i in 0..10u64 {
        st.record(1, 0, "read", [i, 0, 0, 0, 0, 0], 0, 100, i * 1000, None);
    }
    assert_eq!(st.records().len(), 5);
    assert_eq!(st.count("read"), 10);
}

#[test]
fn test_syscall_tracer_records_for_pid() {
    let mut st = SyscallTracer::new(100);
    st.enable();

    st.record(1, 0, "read", [0; 6], 0, 100, 1000, None);
    st.record(2, 0, "read", [0; 6], 0, 100, 2000, None);
    st.record(1, 0, "write", [0; 6], 0, 100, 3000, None);

    assert_eq!(st.records_for_pid(1).len(), 2);
    assert_eq!(st.records_for_pid(2).len(), 1);
}

#[test]
fn test_syscall_tracer_records_for_syscall() {
    let mut st = SyscallTracer::new(100);
    st.enable();

    st.record(1, 0, "read", [0; 6], 0, 100, 1000, None);
    st.record(1, 0, "write", [0; 6], 0, 100, 2000, None);
    st.record(1, 0, "read", [0; 6], 0, 100, 3000, None);

    assert_eq!(st.records_for_syscall("read").len(), 2);
    assert_eq!(st.records_for_syscall("write").len(), 1);
}

#[test]
fn test_syscall_tracer_clear() {
    let mut st = SyscallTracer::new(100);
    st.enable();

    st.record(1, 0, "read", [0; 6], 0, 100, 1000, None);
    assert_eq!(st.count("read"), 1);

    st.clear();
    assert_eq!(st.count("read"), 0);
    assert_eq!(st.records().len(), 0);
}

#[test]
fn test_syscall_tracer_trace_all() {
    let mut st = SyscallTracer::new(100);
    st.enable();
    st.trace_pid(1);
    st.trace_syscall("read");

    // Clear filters
    st.trace_all_pids();
    st.trace_all_syscalls();

    assert!(st.record(2, 0, "write", [0; 6], 0, 100, 1000, None));
    assert!(st.record(3, 0, "open", [0; 6], 0, 100, 2000, None));
}

// ── Profiler Tests ──

#[test]
fn test_profiler_basic() {
    let mut p = Profiler::new(100, 1000);  // 1us period
    p.enable();

    assert!(p.sample(0, 1, 0x1000, vec![0x1000], "main", true, 1000));
    assert_eq!(p.total_samples(), 1);
}

#[test]
fn test_profiler_disabled() {
    let mut p = Profiler::new(100, 1000);
    assert!(!p.sample(0, 1, 0x1000, vec![], "main", true, 1000));
    assert_eq!(p.total_samples(), 0);
}

#[test]
fn test_profiler_sample_period() {
    let mut p = Profiler::new(100, 1000);  // 1us period
    p.enable();

    assert!(p.sample(0, 1, 0x1000, vec![], "a", true, 1000));
    assert!(!p.sample(0, 1, 0x2000, vec![], "b", true, 1500));  // Too soon
    assert!(p.sample(0, 1, 0x2000, vec![], "b", true, 2000));    // 1us later
}

#[test]
fn test_profiler_pid_filter() {
    let mut p = Profiler::new(100, 1);
    p.enable();
    p.trace_pid(42);

    assert!(p.sample(0, 42, 0x1000, vec![], "a", true, 1000));
    assert!(!p.sample(0, 1, 0x2000, vec![], "b", true, 2000));
}

#[test]
fn test_profiler_kernel_only() {
    let mut p = Profiler::new(100, 1);
    p.enable();
    p.kernel_only();

    assert!(p.sample(0, 1, 0x1000, vec![], "k_func", true, 1000));
    assert!(!p.sample(0, 1, 0x2000, vec![], "u_func", false, 2000));
}

#[test]
fn test_profiler_hot_functions() {
    let mut p = Profiler::new(100, 1);
    p.enable();

    for _ in 0..10 { p.sample(0, 1, 0x1000, vec![], "hot_func", true, 0); p.last_sample = 0; }
    for _ in 0..2 { p.sample(0, 1, 0x2000, vec![], "cold_func", true, 0); p.last_sample = 0; }

    let hot = p.hot_functions(2);
    assert_eq!(hot[0].0, "hot_func");
    assert_eq!(hot[0].1, 10);
    assert_eq!(hot[1].0, "cold_func");
    assert_eq!(hot[1].1, 2);
}

#[test]
fn test_profiler_hot_pids() {
    let mut p = Profiler::new(100, 1);
    p.enable();

    p.sample(0, 1, 0x1000, vec![], "a", true, 0); p.last_sample = 0;
    p.sample(0, 2, 0x2000, vec![], "b", true, 0); p.last_sample = 0;
    p.sample(0, 1, 0x3000, vec![], "c", true, 0); p.last_sample = 0;

    let hot = p.hot_pids(2);
    assert_eq!(hot[0].0, 1);
    assert_eq!(hot[0].1, 2);
}

#[test]
fn test_profiler_per_cpu() {
    let mut p = Profiler::new(100, 1);
    p.enable();

    p.sample(0, 1, 0, vec![], "a", true, 0); p.last_sample = 0;
    p.sample(1, 1, 0, vec![], "b", true, 0); p.last_sample = 0;
    p.sample(0, 1, 0, vec![], "c", true, 0); p.last_sample = 0;

    assert_eq!(p.samples_per_cpu(0), 2);
    assert_eq!(p.samples_per_cpu(1), 1);
}

#[test]
fn test_profiler_clear() {
    let mut p = Profiler::new(100, 1);
    p.enable();

    p.sample(0, 1, 0, vec![], "a", true, 0);
    assert_eq!(p.total_samples(), 1);

    p.clear();
    assert_eq!(p.total_samples(), 0);
}

#[test]
fn test_profiler_overflow() {
    let mut p = Profiler::new(5, 1);
    p.enable();

    for i in 0..10u64 {
        p.sample(0, 1, i, vec![], "func", true, i);
    }
    assert_eq!(p.total_samples(), 10);
    // Buffer holds only 5, but count tracks all
}

// ── Latency Tracker Tests ──

#[test]
fn test_latency_tracker_basic() {
    let mut lt = LatencyTracker::new(1_000_000, 100);  // 1ms threshold
    lt.record("sched_switch", 500_000, 1000);
    lt.record("sched_switch", 1_500_000, 2000);

    let hist = lt.histogram("sched_switch").unwrap();
    assert_eq!(hist.count, 2);
    assert_eq!(lt.worst_case_ns("sched_switch"), 1_500_000);
}

#[test]
fn test_latency_tracker_alerts() {
    let mut lt = LatencyTracker::new(1_000_000, 100);
    lt.record("irq_handler", 500_000, 1000);   // Below threshold
    lt.record("irq_handler", 2_000_000, 2000); // Above threshold

    assert_eq!(lt.alerts().len(), 1);
    assert_eq!(lt.alerts()[0].name, "irq_handler");
    assert_eq!(lt.alerts()[0].latency_ns, 2_000_000);
}

#[test]
fn test_latency_tracker_alert_overflow() {
    let mut lt = LatencyTracker::new(0, 3);  // 0 threshold = all alert, max 3
    for i in 0..5u64 {
        lt.record("test", i * 1000, i * 1000);
    }
    assert_eq!(lt.alerts().len(), 3);  // Capped at max_alerts
}

#[test]
fn test_latency_tracker_tracked_names() {
    let mut lt = LatencyTracker::new(1_000_000, 100);
    lt.record("a", 100, 0);
    lt.record("b", 200, 0);
    lt.record("c", 300, 0);

    let names = lt.tracked_names();
    assert!(names.contains(&"a".to_string()));
    assert!(names.contains(&"b".to_string()));
    assert!(names.contains(&"c".to_string()));
}

#[test]
fn test_latency_tracker_set_threshold() {
    let mut lt = LatencyTracker::new(1_000_000, 100);
    lt.record("x", 500_000, 0);
    assert_eq!(lt.alerts().len(), 0);

    lt.set_threshold(100_000);  // Lower to 100us
    lt.record("x", 500_000, 0);
    assert_eq!(lt.alerts().len(), 1);
}

#[test]
fn test_latency_tracker_clear() {
    let mut lt = LatencyTracker::new(1_000_000, 100);
    lt.record("a", 100, 0);
    lt.record("a", 2_000_000, 0);
    assert!(!lt.alerts().is_empty());

    lt.clear();
    assert!(lt.alerts().is_empty());
    assert!(lt.tracked_names().is_empty());
}

// ── Trace Manager Tests ──

#[test]
fn test_trace_manager_enable_disable() {
    let mut tm = TraceManager::new(100, 32);
    assert!(!tm.enabled);
    assert!(!tm.ring_buffer.is_enabled());

    tm.enable();
    assert!(tm.enabled);
    assert!(tm.ring_buffer.is_enabled());
    assert!(tm.function_tracer.enabled);
    assert!(tm.syscall_tracer.enabled);
    assert!(tm.profiler.enabled);

    tm.disable();
    assert!(!tm.enabled);
    assert!(!tm.ring_buffer.is_enabled());
}

#[test]
fn test_trace_manager_trace_event() {
    let mut tm = TraceManager::new(100, 32);
    tm.enable();

    let event = TraceEvent::custom(0, 1, "test", 42, 0, 0);
    assert!(tm.trace(event, 1000));
    assert_eq!(tm.total_events, 1);
    assert_eq!(tm.events_in_category(TraceCategory::Custom), 1);
}

#[test]
fn test_trace_manager_trace_disabled() {
    let mut tm = TraceManager::new(100, 32);
    let event = TraceEvent::custom(0, 1, "test", 0, 0, 0);
    assert!(!tm.trace(event, 1000));
    assert_eq!(tm.total_events, 0);
}

#[test]
fn test_trace_manager_filter() {
    let mut tm = TraceManager::new(100, 32);
    tm.enable();

    let filter = TraceFilter::new().category(TraceCategory::Syscall);
    tm.set_filter(filter);

    // Syscall event passes
    assert!(tm.trace(TraceEvent::syscall(0, 1, "read", 0), 1000));
    // Custom event is filtered out
    assert!(!tm.trace(TraceEvent::custom(0, 1, "x", 0, 0, 0), 2000));

    assert_eq!(tm.total_events, 1);
    assert_eq!(tm.events_in_category(TraceCategory::Syscall), 1);
}

#[test]
fn test_trace_manager_function_enter_exit() {
    let mut tm = TraceManager::new(100, 32);
    tm.enable();

    assert!(tm.function_enter(0, 1, "func_a", 1000));
    let exit = tm.function_exit(0, 3000);
    assert!(exit.is_some());
    let (name, dur) = exit.unwrap();
    assert_eq!(name, "func_a");
    assert_eq!(dur, 2000);
}

#[test]
fn test_trace_manager_syscall_tracing() {
    let mut tm = TraceManager::new(100, 32);
    tm.enable();

    assert!(tm.syscall(1, 0, "read", [0; 6], 100, 500, 1000, None));
    assert_eq!(tm.syscall_tracer.count("read"), 1);
}

#[test]
fn test_trace_manager_profiling() {
    let mut tm = TraceManager::new(100, 32);
    tm.enable();

    assert!(tm.sample(0, 1, 0x1000, vec![0x1000], "main", true, 1000));
    assert_eq!(tm.profiler.total_samples(), 1);
}

#[test]
fn test_trace_manager_latency_tracking() {
    let mut tm = TraceManager::new(100, 32);
    tm.enable();

    tm.function_enter(0, 1, "slow_func", 1000);
    tm.function_exit(0, 5_000_000);  // 5ms

    let hist = tm.latency.histogram("slow_func");
    assert!(hist.is_some());
    assert_eq!(hist.unwrap().count, 1);
}

#[test]
fn test_trace_manager_clear_all() {
    let mut tm = TraceManager::new(100, 32);
    tm.enable();

    tm.trace(TraceEvent::custom(0, 1, "x", 0, 0, 0), 1000);
    tm.syscall(1, 0, "read", [0; 6], 0, 100, 2000, None);
    tm.sample(0, 1, 0, vec![], "f", true, 3000);

    assert!(tm.total_events > 0);

    tm.clear_all();
    assert_eq!(tm.total_events, 0);
    assert_eq!(tm.ring_buffer.len(), 0);
    assert_eq!(tm.syscall_tracer.count("read"), 0);
    assert_eq!(tm.profiler.total_samples(), 0);
}

#[test]
fn test_trace_manager_events_by_category() {
    let mut tm = TraceManager::new(200, 32);
    tm.enable();

    tm.trace(TraceEvent::custom(0, 1, "a", 0, 0, 0), 100);
    tm.trace(TraceEvent::syscall(0, 1, "read", 0), 200);
    tm.trace(TraceEvent::sched_event(0, 1, "switch", 2), 300);
    tm.trace(TraceEvent::mem_event(0, 1, "alloc", 0x1000, 4096), 400);
    tm.trace(TraceEvent::custom(0, 1, "b", 0, 0, 0), 500);

    assert_eq!(tm.events_in_category(TraceCategory::Custom), 2);
    assert_eq!(tm.events_in_category(TraceCategory::Syscall), 1);
    assert_eq!(tm.events_in_category(TraceCategory::Sched), 1);
    assert_eq!(tm.events_in_category(TraceCategory::Mem), 1);
    assert_eq!(tm.events_in_category(TraceCategory::Net), 0);
}

// ── TraceCategory Tests ──

#[test]
fn test_trace_category_roundtrip() {
    let categories = [
        TraceCategory::Function, TraceCategory::Syscall, TraceCategory::Irq,
        TraceCategory::Sched, TraceCategory::Mem, TraceCategory::Net,
        TraceCategory::Block, TraceCategory::Signal, TraceCategory::Container,
        TraceCategory::User, TraceCategory::Custom,
    ];
    for cat in &categories {
        let s = cat.as_str();
        let back = TraceCategory::from_str(s);
        assert_eq!(back, Some(*cat));
    }
    assert_eq!(TraceCategory::from_str("unknown"), None);
}

#[test]
fn test_trace_event_types() {
    let entry = TraceEvent::function_entry(0, 1, "func");
    assert_eq!(entry.event_type, TraceEventType::Entry);
    assert_eq!(entry.category, TraceCategory::Function);

    let exit = TraceEvent::function_exit(0, 1, "func", 1000);
    assert_eq!(exit.event_type, TraceEventType::Exit);
    assert_eq!(exit.duration_ns, Some(1000));

    let syscall = TraceEvent::syscall(0, 1, "read", 42);
    assert_eq!(syscall.category, TraceCategory::Syscall);
    assert_eq!(syscall.arg1, 42);

    let sched = TraceEvent::sched_event(0, 1, "switch", 5);
    assert_eq!(sched.category, TraceCategory::Sched);
    assert_eq!(sched.arg1, 5);

    let mem = TraceEvent::mem_event(0, 1, "alloc", 0x1000, 4096);
    assert_eq!(mem.category, TraceCategory::Mem);
    assert_eq!(mem.arg1, 0x1000);
    assert_eq!(mem.arg2, 4096);
}

