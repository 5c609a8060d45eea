use std::time::Duration;

use htop_win::system::process::{
    arch_from_machine, efficiency_from_throttling, enrich_facts, format_cpu_time, merge_facts,
    native_row, plan_enrichment, CachedFacts, EnrichedFacts, HandleResults, NativeCounters,
    ProcessArch, ProcessFacts,
    QueryPlan,
};

#[test]
fn arch_labels_and_machine_codes() {
    assert_eq!(ProcessArch::Native.as_str(), "");
    assert_eq!(ProcessArch::X86.as_str(), "x86");
    assert_eq!(ProcessArch::X64.as_str(), "x64");
    assert_eq!(ProcessArch::ARM64.as_str(), "ARM");
    assert_eq!(ProcessArch::default(), ProcessArch::Native);
    assert_eq!(arch_from_machine(0), ProcessArch::Native);
    assert_eq!(arch_from_machine(0x014c), ProcessArch::X86);
    assert_eq!(arch_from_machine(0x8664), ProcessArch::X64);
    assert_eq!(arch_from_machine(0xAA64), ProcessArch::ARM64);
    assert_eq!(arch_from_machine(0x01c4), ProcessArch::Native);
}

#[test]
fn efficiency_mode_needs_both_masks() {
    assert!(efficiency_from_throttling(true, 1, 1));
    assert!(!efficiency_from_throttling(true, 1, 0));
    assert!(!efficiency_from_throttling(true, 0, 1));
    assert!(!efficiency_from_throttling(false, 1, 1));
    assert!(efficiency_from_throttling(true, 3, 5));
}

#[test]
fn cpu_time_switches_to_hours_from_the_first_hour() {
    assert_eq!(format_cpu_time(Duration::ZERO), "00:00.00");
    assert_eq!(format_cpu_time(Duration::from_millis(61_239)), "01:01.23");
    assert_eq!(format_cpu_time(Duration::from_millis(3_599_999)), "59:59.99");
    assert_eq!(format_cpu_time(Duration::from_secs(3_661)), "01:01:01");
    assert_eq!(format_cpu_time(Duration::from_secs(360_000)), "100:00:00");
}

fn nothing_cached() -> CachedFacts {
    CachedFacts { static_info: None, user: None, efficiency: None }
}

fn all_cached(path: &str, efficiency_age_ms: u128) -> CachedFacts {
    CachedFacts {
        static_info: Some((true, ProcessArch::X86, path.to_string())),
        user: Some("alice".to_string()),
        efficiency: Some((true, efficiency_age_ms)),
    }
}

fn results() -> HandleResults {
    HandleResults {
        times: (Duration::from_secs(7), 1_700_000_000, 4096),
        exe_path: "C:\\tools\\app.exe".to_string(),
        efficiency_mode: false,
        elevated: false,
        arch: ProcessArch::X64,
        user: Some("bob".to_string()),
    }
}

#[test]
fn plan_queries_only_what_the_caches_lack() {
    let plan = plan_enrichment(&nothing_cached(), false);
    assert_eq!(
        plan,
        QueryPlan { need_static: true, need_user: true, need_efficiency: true, need_exe_path: false }
    );
    assert!(plan.needs_handle());
    let plan = plan_enrichment(&all_cached("C:\\a.exe", 29_999), true);
    assert!(!plan.needs_handle());
    let plan = plan_enrichment(&all_cached("", 29_999), true);
    assert_eq!(
        plan,
        QueryPlan { need_static: false, need_user: false, need_efficiency: false, need_exe_path: true }
    );
    let plan = plan_enrichment(&all_cached("C:\\a.exe", 30_000), false);
    assert!(plan.need_efficiency && plan.needs_handle());
}

#[test]
fn kernel_processes_run_as_system() {
    for pid in [0, 4] {
        let f = enrich_facts(pid, nothing_cached(), true, Some(results()));
        assert_eq!(f.user.as_deref(), Some("SYSTEM"));
        assert_eq!(f.is_elevated, pid == 4);
        assert_eq!(f.cpu_time, Duration::ZERO);
        assert_eq!(f.exe_path, "");
    }
}

#[test]
fn unopenable_process_keeps_cached_facts() {
    let f = enrich_facts(100, all_cached("", 40_000), false, None);
    assert!(f.is_elevated && f.efficiency_mode);
    assert_eq!(f.arch, ProcessArch::X86);
    assert_eq!(f.user.as_deref(), Some("alice"));
    assert_eq!((f.cpu_time, f.start_time, f.shared_mem), (Duration::ZERO, 0, 0));
    let f = enrich_facts(100, nothing_cached(), true, None);
    assert!(!f.is_elevated && !f.efficiency_mode && f.user.is_none());
    assert_eq!(f.arch, ProcessArch::Native);
}

#[test]
fn opened_process_prefers_cache_and_queries_the_rest() {
    let f = enrich_facts(100, nothing_cached(), true, Some(results()));
    assert_eq!((f.cpu_time, f.start_time, f.shared_mem), (Duration::from_secs(7), 1_700_000_000, 4096));
    assert_eq!(f.arch, ProcessArch::X64);
    assert_eq!(f.user.as_deref(), Some("bob"));
    assert_eq!(f.exe_path, "C:\\tools\\app.exe");

    let f = enrich_facts(100, all_cached("", 1_000), true, Some(results()));
    assert!(f.is_elevated && f.efficiency_mode);
    assert_eq!(f.arch, ProcessArch::X86);
    assert_eq!(f.user.as_deref(), Some("alice"));
    assert_eq!(f.exe_path, "C:\\tools\\app.exe");

    let f = enrich_facts(100, all_cached("C:\\cached.exe", 1_000), false, Some(results()));
    assert_eq!(f.exe_path, "");
}

#[test]
fn merge_keeps_snapshot_values_where_enrichment_has_none() {
    let mut row = ProcessFacts {
        cpu_time: Duration::from_secs(3),
        start_time: 10,
        shared_mem: 20,
        efficiency_mode: true,
        is_elevated: true,
        arch: ProcessArch::X86,
        user: "old".to_string(),
        user_lower: "old".to_string(),
        exe_path: "old.exe".to_string(),
        command: "old.exe --flag".to_string(),
        command_lower: "old.exe --flag".to_string(),
    };
    let empty = EnrichedFacts {
        cpu_time: Duration::ZERO,
        start_time: 0,
        shared_mem: 0,
        efficiency_mode: false,
        is_elevated: false,
        arch: ProcessArch::Native,
        user: None,
        exe_path: String::new(),
    };
    merge_facts(&mut row, &empty);
    assert_eq!((row.cpu_time, row.start_time, row.shared_mem), (Duration::from_secs(3), 10, 20));
    assert!(!row.efficiency_mode && !row.is_elevated);
    assert_eq!(row.user, "old");
    assert_eq!(row.command, "old.exe --flag");

    let full = EnrichedFacts {
        cpu_time: Duration::from_secs(9),
        start_time: 11,
        shared_mem: 21,
        efficiency_mode: true,
        is_elevated: true,
        arch: ProcessArch::ARM64,
        user: Some("NT AUTHORITY\\Ärger".to_string()),
        exe_path: "C:\\New.EXE".to_string(),
    };
    merge_facts(&mut row, &full);
    assert_eq!((row.cpu_time, row.start_time, row.shared_mem), (Duration::from_secs(9), 11, 21));
    assert_eq!(row.user_lower, "nt authority\\ärger");
    assert_eq!(row.exe_path, "C:\\New.EXE");
    assert_eq!(row.command, "C:\\New.EXE");
    assert_eq!(row.command_lower, "c:\\new.exe");
}

fn counters(pid: u32, base_priority: i32) -> NativeCounters {
    NativeCounters {
        pid,
        parent_pid: 1,
        base_priority,
        thread_count: 6,
        handle_count: 120,
        working_set: 4096,
        private_bytes: 1024,
        virtual_size: 65536,
        kernel_time: 12_345_678,
        user_time: 20_000_001,
        create_time: 116_444_736_000_000_000 + 35_000_000,
        read_bytes: 77,
        write_bytes: 88,
    }
}

#[test]
fn native_row_maps_base_priority_to_bands() {
    let bands = [(0, 0), (4, 0), (5, 5), (8, 5), (9, 20), (12, 20), (13, 30), (15, 30), (16, 39), (24, 39), (-1, 39)];
    for (base, expected) in bands {
        let row = native_row(&counters(100, base), "a.exe", None, "");
        assert_eq!(row.priority, expected, "base priority {}", base);
    }
}

#[test]
fn native_row_fills_placeholders_and_converts_counters() {
    let row = native_row(&counters(4, 8), "System", None, "");
    assert_eq!(row.user, "SYSTEM");
    assert_eq!(row.user_lower, "system");
    assert_eq!(row.exe_path, "");
    assert_eq!(row.command, "System");
    assert_eq!(row.command_lower, "system");
    assert_eq!(row.name_lower, "system");
    assert_eq!(row.cpu_time, std::time::Duration::new(3, 234_567_900));
    assert_eq!(row.start_time, 3);
    assert_eq!(row.shared_mem, 3072);
    assert_eq!((row.virtual_mem, row.resident_mem), (65536, 4096));
    assert_eq!((row.thread_count, row.handle_count, row.io_read_bytes, row.io_write_bytes), (6, 120, 77, 88));
    let other = native_row(&counters(2200, 8), "Svc.exe", None, "");
    assert_eq!(other.user, "-");
}

#[test]
fn native_row_prefers_cached_owner_and_path() {
    let mut c = counters(2200, 10);
    c.private_bytes = 9000;
    let row = native_row(&c, "Code.exe", Some("Alice"), "C:\\Apps\\Code.exe");
    assert_eq!(row.user, "Alice");
    assert_eq!(row.user_lower, "alice");
    assert_eq!(row.exe_path, "C:\\Apps\\Code.exe");
    assert_eq!(row.command, "C:\\Apps\\Code.exe");
    assert_eq!(row.command_lower, "c:\\apps\\code.exe");
    assert_eq!(row.shared_mem, 0);
    assert_eq!(row.priority, 20);
}
