use isolate::cgroup_v2::{encode_pid, join_path, CGROUP2_SUPER_MAGIC};
use isolate::{CGroup, CGroupErrorKind, Cgroup, DecodeError, Hierarchy, Space};

fn unified() -> CGroup {
    CGroup::from_path("/sys/fs/cgroup/box1".to_string(), CGROUP2_SUPER_MAGIC).unwrap()
}

#[test]
fn paths_join_with_slash() {
    assert_eq!(join_path("/sys/fs/cgroup", "box1"), "/sys/fs/cgroup/box1");
    assert_eq!(unified().attr_path("cpu.stat"), "/sys/fs/cgroup/box1/cpu.stat");
    assert_eq!(unified().cpu_stat_path(), "/sys/fs/cgroup/box1/cpu.stat");
    assert_eq!(unified().memory_current_path(), "/sys/fs/cgroup/box1/memory.current");
    assert_eq!(unified().hierarchy(), "/sys/fs/cgroup/box1");
}

#[test]
fn only_cgroup2_mounts_are_taken() {
    let e = CGroup::from_path("/tmp".to_string(), 0x01021994).unwrap_err();
    assert_eq!(e.inner, Some(CGroupErrorKind::CGroupErr));
    assert_eq!(e.description, "\"/tmp\" is not mounted as cgroup v2");
}

#[test]
fn unified_writes() {
    let w = unified().set_memory_limit(Space::from_mib(64));
    assert_eq!(w.path, "/sys/fs/cgroup/box1/memory.max");
    assert_eq!(w.data, b"67108864".to_vec());
    assert!(!w.append);
    let w = unified().add_proc(4242);
    assert_eq!(w.path, "/sys/fs/cgroup/box1/cgroup.procs");
    assert_eq!(w.data, b"4242".to_vec());
    assert!(w.append);
    assert_eq!(encode_pid(-17), b"-17".to_vec());
}

#[test]
fn unified_reads() {
    assert_eq!(CGroup::memory_current("1048576\n").unwrap().as_bytes(), 1048576);
    let c = CGroup::cpu_stat("usage_usec 10\nuser_usec 6\nsystem_usec 4\n").unwrap_err();
    assert_eq!(c.inner, Some(CGroupErrorKind::ParseErr(DecodeError::Eof)));
    let c = CGroup::cpu_stat("usage_usec 10\nuser_usec 6\nsystem_usec 4").unwrap();
    assert_eq!(c.usage.as_micros(), 10);
}

#[test]
fn legacy_paths_and_writes() {
    let g = Cgroup::new("/sys/fs/cgroup".to_string(), "box1".to_string());
    assert_eq!(g.path("memory", "tasks"), "/sys/fs/cgroup/memory/box1/tasks");
    assert_eq!(
        g.group_dirs(),
        vec!["/sys/fs/cgroup/cpuacct/box1".to_string(), "/sys/fs/cgroup/memory/box1".to_string()]
    );
    let w = g.reset_cpu_usage();
    assert_eq!(w.path, "/sys/fs/cgroup/cpuacct/box1/cpuacct.usage");
    assert_eq!(w.data, b"0".to_vec());
    let w = g.reset_mem_usage();
    assert_eq!(w.path, "/sys/fs/cgroup/memory/box1/memory.max_usage_in_bytes");
    let w = g.set_mem_limit(Space::from_kib(100));
    assert_eq!(w.path, "/sys/fs/cgroup/memory/box1/memory.limit_in_bytes");
    assert_eq!(w.data, b"102400".to_vec());
    assert_eq!(g.reset().len(), 2);
    let a = g.apply(77);
    assert_eq!(a[0].path, "/sys/fs/cgroup/cpuacct/box1/tasks");
    assert_eq!(a[1].path, "/sys/fs/cgroup/memory/box1/tasks");
    assert_eq!(a[1].data, b"77".to_vec());
    assert_eq!(g.cpu_usage_path(), "/sys/fs/cgroup/cpuacct/box1/cpuacct.usage");
    assert_eq!(g.mem_usage_path(), "/sys/fs/cgroup/memory/box1/memory.max_usage_in_bytes");
}

#[test]
fn legacy_reads() {
    assert_eq!(Cgroup::cpu_usage("1500999\n").unwrap().as_micros(), 1500);
    assert_eq!(Cgroup::mem_usage("2048\n").unwrap().as_bytes(), 2048);
    assert!(Cgroup::mem_usage("x").is_err());
    assert_eq!(Cgroup::cpu_usage("1000000 ").unwrap().as_micros(), 1000);
    assert_eq!(CGroup::memory_current("5 ").unwrap().as_bytes(), 5);
}

#[test]
fn hierarchy_dispatch() {
    let h = Hierarchy::Unified(unified());
    assert!(h.reset().is_empty());
    let w = h.add_process(9);
    assert_eq!(w.len(), 1);
    assert_eq!(w[0].path, "/sys/fs/cgroup/box1/cgroup.procs");
    assert_eq!(h.cpu_usage_path(), "/sys/fs/cgroup/box1/cpu.stat");
    assert_eq!(
        h.cpu_usage("usage_usec 9304127\nuser_usec 7523033\nsystem_usec 1781093").unwrap().as_micros(),
        9304127
    );
    assert_eq!(h.memory_usage("300\n").unwrap().as_bytes(), 300);

    let h = Hierarchy::Legacy(Cgroup::new("/r".to_string(), "g".to_string()));
    assert_eq!(h.reset().len(), 2);
    assert_eq!(h.add_process(9).len(), 2);
    assert_eq!(h.cpu_usage("2000\n").unwrap().as_micros(), 2);
    assert_eq!(h.memory_usage_path(), "/r/memory/g/memory.max_usage_in_bytes");
}

#[test]
fn process_list_decodes() {
    assert_eq!(unified().procs_path(), "/sys/fs/cgroup/box1/cgroup.procs");
    assert_eq!(CGroup::get_proc("12\n345\n").unwrap(), vec![12, 345]);
    assert_eq!(CGroup::get_proc("7").unwrap(), vec![7]);
    assert!(CGroup::get_proc("").unwrap().is_empty());
    let e = CGroup::get_proc("12\n\n").unwrap_err();
    assert_eq!(e.inner, Some(CGroupErrorKind::ParseErr(DecodeError::ExpectedInteger)));
    let e = CGroup::get_proc("12 13").unwrap_err();
    assert_eq!(e.inner, Some(CGroupErrorKind::ParseErr(DecodeError::ExpectedNewline)));
    let e = CGroup::get_proc("2147483648").unwrap_err();
    assert_eq!(e.inner, Some(CGroupErrorKind::ParseErr(DecodeError::Overflow)));
}
