use htop_win::filter::{
    filtered_positions, is_kernel_process, parse_u32, passes_filters, ListFilter, ProcessText,
};

#[test]
fn pid_text_reads_like_str_parse() {
    for text in ["", "+", "-1", "12a", " 1", "4294967296", "99999999999"] {
        assert_eq!(parse_u32(text), text.parse::<u32>().ok(), "{text}");
    }
    assert_eq!(parse_u32("+12"), Some(12));
    assert_eq!(parse_u32("007"), Some(7));
    assert_eq!(parse_u32("4294967295"), Some(u32::MAX));
}

#[test]
fn kernel_tasks_are_the_system_accounts() {
    assert!(is_kernel_process(0, "anyone"));
    assert!(is_kernel_process(4, ""));
    assert!(is_kernel_process(800, "system"));
    assert!(is_kernel_process(900, "nt authority\\local service"));
    assert!(!is_kernel_process(900, "systemd"));
    assert!(!is_kernel_process(1000, "alice"));
}

fn row(pid: u32, name: &str, command: &str, user: &str) -> ProcessText {
    ProcessText {
        pid,
        name_lower: name.to_lowercase(),
        command_lower: command.to_lowercase(),
        user: user.to_string(),
        user_lower: user.to_lowercase(),
    }
}

fn no_filter() -> ListFilter {
    ListFilter {
        show_kernel_threads: true,
        show_user_threads: true,
        pid_filter: None,
        user_filter: None,
        text_lower: String::new(),
    }
}

fn rows() -> Vec<ProcessText> {
    vec![
        row(4, "System", "System", "SYSTEM"),
        row(1200, "svchost.exe", "C:\\Windows\\svchost.exe -k net", "NT AUTHORITY\\NETWORK SERVICE"),
        row(4321, "chrome.exe", "C:\\Apps\\chrome.exe", "Alice"),
        row(77, "code.exe", "C:\\Apps\\code.exe --new", "Bob"),
    ]
}

#[test]
fn kernel_and_user_switches_split_the_list() {
    let rows = rows();
    assert_eq!(filtered_positions(&rows, &no_filter()), vec![0, 1, 2, 3]);
    let users_only = ListFilter { show_kernel_threads: false, ..no_filter() };
    assert_eq!(filtered_positions(&rows, &users_only), vec![2, 3]);
    let kernel_only = ListFilter { show_user_threads: false, ..no_filter() };
    assert_eq!(filtered_positions(&rows, &kernel_only), vec![0, 1]);
}

#[test]
fn pid_and_user_filters_narrow_the_list() {
    let rows = rows();
    let pids = ListFilter { pid_filter: Some(vec![77, 4]), ..no_filter() };
    assert_eq!(filtered_positions(&rows, &pids), vec![0, 3]);
    let alice = ListFilter { user_filter: Some("Alice".to_string()), ..no_filter() };
    assert_eq!(filtered_positions(&rows, &alice), vec![2]);
    let lowercase = ListFilter { user_filter: Some("alice".to_string()), ..no_filter() };
    assert!(filtered_positions(&rows, &lowercase).is_empty());
}

#[test]
fn text_filter_matches_name_command_user_or_pid() {
    let rows = rows();
    let text = |t: &str| ListFilter { text_lower: t.to_string(), ..no_filter() };
    assert_eq!(filtered_positions(&rows, &text("chrome")), vec![2]);
    assert_eq!(filtered_positions(&rows, &text("--new")), vec![3]);
    assert_eq!(filtered_positions(&rows, &text("network")), vec![1]);
    assert_eq!(filtered_positions(&rows, &text("77")), vec![3]);
    assert_eq!(filtered_positions(&rows, &text("+4")), vec![0]);
    assert_eq!(filtered_positions(&rows, &text("zzz")), Vec::<usize>::new());
    assert!(passes_filters(&rows[2], &text("")));
}
