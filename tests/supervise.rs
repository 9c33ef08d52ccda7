use isolate::execute::{
    child_steps, cpu_time_of_run, on_wait, timer_interval, ChildStep, Decision, ExecutionResult, ResourceUsage, WaitOutcome,
    WaitStatus, NOBODY,
};
use isolate::resourcelimit::{Resource, Rlimit};
use isolate::{CGroup, Config, Hierarchy, Payload, ProcessKeeper, ResourceLimit, Space, Time};

fn limits(cpu: Option<Time>) -> ResourceLimit {
    ResourceLimit {
        stack_size: Space::from_mib(8),
        mem_limit: Some(Space::from_kib(100000)),
        cpu_limit: cpu,
        proc_limit: Some(10),
    }
}

#[test]
fn limits_in_order_with_cpu_slack() {
    let r = limits(Some(Time::from_millis(10500))).rlimits();
    assert_eq!(
        r,
        vec![
            Rlimit { resource: Resource::Stack, value: 8 * 1024 * 1024 },
            Rlimit { resource: Resource::Core, value: 0 },
            Rlimit { resource: Resource::Cpu, value: 11 },
            Rlimit { resource: Resource::Data, value: 102400000 },
            Rlimit { resource: Resource::NProc, value: 10 },
        ]
    );
    let bare = ResourceLimit { stack_size: Space::from_kib(8), mem_limit: None, cpu_limit: None, proc_limit: None };
    assert_eq!(bare.rlimits().len(), 2);
}

#[test]
fn child_starts_up_in_order() {
    let cg = CGroup::from_path("/sys/fs/cgroup/box1".to_string(), isolate::cgroup_v2::CGROUP2_SUPER_MAGIC).unwrap();
    let config = Config {
        cg: Hierarchy::Unified(cg),
        rlim: limits(Some(Time::from_secs(1))),
        payload: Payload::new("/bin/true".to_string(), vec!["true".to_string()], vec![]),
    };
    let steps = child_steps(&config, 321);
    assert_eq!(steps.len(), 1 + 1 + 5 + 3);
    assert!(matches!(steps[0], ChildStep::JoinProcessGroup));
    match &steps[1] {
        ChildStep::Write(w) => {
            assert_eq!(w.path, "/sys/fs/cgroup/box1/cgroup.procs");
            assert_eq!(w.data, b"321".to_vec());
        }
        other => panic!("unexpected step {:?}", other),
    }
    assert!(matches!(steps[2], ChildStep::SetLimit(Rlimit { resource: Resource::Stack, .. })));
    assert!(matches!(steps[4], ChildStep::SetLimit(Rlimit { resource: Resource::Cpu, value: 2 })));
    assert!(matches!(steps[7], ChildStep::SetGid(NOBODY)));
    assert!(matches!(steps[8], ChildStep::SetUid(NOBODY)));
    assert!(matches!(steps[9], ChildStep::Exec));
    assert_eq!(config.payload.path(), "/bin/true");
    assert_eq!(config.payload.argv(), &vec!["true".to_string()]);
    assert!(config.payload.envp().is_empty());
}

#[test]
fn timer_only_with_cpu_limit() {
    assert_eq!(timer_interval(&limits(Some(Time::from_secs(1)))).unwrap().as_millis(), 100);
    assert!(timer_interval(&limits(None)).is_none());
}

#[test]
fn spinning_payload_is_killed_after_budget() {
    // A payload with a one-second budget that never exits: the timer ticks
    // every 100 ms until the budget is passed, then the group is killed.
    let budget = Some(Time::from_secs(1));
    let mut elapsed_ms = 0u64;
    let mut killed_at = None;
    while killed_at.is_none() {
        elapsed_ms += 100;
        match on_wait(budget, WaitOutcome::Interrupted, Time::from_millis(elapsed_ms)) {
            Decision::KeepWaiting => assert!(elapsed_ms <= 1000),
            Decision::KillAndWait => killed_at = Some(elapsed_ms),
            other => panic!("unexpected decision {:?}", other),
        }
    }
    assert_eq!(killed_at, Some(1100));
    // The kernel then reports the process as ended by SIGKILL.
    let d = on_wait(budget, WaitOutcome::Exited(9), Time::from_millis(1105));
    assert_eq!(d, Decision::Finish(9));
    let usage = ResourceUsage::from_raw(1, 0, 0, 5000, 1024).unwrap();
    let result = ExecutionResult::new(9, usage, Time::from_millis(1105), None, None);
    assert!(result.killed_by_signal());
    assert_eq!(result.status, WaitStatus::Signaled(9));
    assert!(result.real_time.as_micros() >= 1_000_000 && result.real_time.as_micros() <= 1_300_000);
}

#[test]
fn normal_exit_is_reported() {
    let d = on_wait(None, WaitOutcome::Exited(0), Time::from_millis(20));
    assert_eq!(d, Decision::Finish(0));
    let usage = ResourceUsage::from_raw(0, 1200, 0, 800, 2000).unwrap();
    let result = ExecutionResult::new(0, usage, Time::from_millis(20), Some(Time::from_micros(2000)), Some(Space::from_byte(4096)));
    assert_eq!(result.status, WaitStatus::Exited(0));
    assert!(!result.killed_by_signal());
    assert_eq!(result.usage.user.as_micros(), 1200);
    assert_eq!(result.usage.max_rss.as_bytes(), 2048000);
}

#[test]
fn interrupts_without_budget_keep_waiting() {
    assert_eq!(on_wait(None, WaitOutcome::Interrupted, Time::from_secs(100)), Decision::KeepWaiting);
    assert_eq!(on_wait(Some(Time::from_secs(1)), WaitOutcome::Failed(10), Time::from_secs(0)), Decision::Abort(10));
}

#[test]
fn wait_status_decodes() {
    assert_eq!(WaitStatus::from_raw(0), WaitStatus::Exited(0));
    assert_eq!(WaitStatus::from_raw(3 << 8), WaitStatus::Exited(3));
    assert_eq!(WaitStatus::from_raw(9), WaitStatus::Signaled(9));
    assert_eq!(WaitStatus::from_raw(0x80 | 11), WaitStatus::Signaled(11));
    assert_eq!(WaitStatus::from_raw(0x137f), WaitStatus::Other(0x137f));
    assert!(ResourceUsage::from_raw(-1, 0, 0, 0, 0).is_none());
}

#[test]
fn kill_reaches_group_then_process() {
    let k = ProcessKeeper::new(1234);
    assert_eq!(k.pid(), 1234);
    assert_eq!(k.kill_targets(), vec![-1234, 1234]);
}

#[test]
fn cpu_time_counts_from_snapshot() {
    let before = Time::from_micros(9304127);
    assert_eq!(cpu_time_of_run(before, Some(Time::from_micros(9404127))), Some(Time::from_micros(100000)));
    assert_eq!(cpu_time_of_run(before, None), None);
    assert_eq!(cpu_time_of_run(before, Some(Time::from_micros(5))), None);
}
