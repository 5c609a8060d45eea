use std::time::Duration;

use htop_win::search::{find_next_match, row_matches_search, text_contains, PidSearch};

fn type_digits(search: &mut PidSearch, digits: &str) {
    for d in digits.chars() {
        search.push_digit(d, false);
    }
}

#[test]
fn pid_prefix_search_ignores_display_sort_order() {
    let pids = [5000, 1299, 1234];
    let mut search = PidSearch::new();
    type_digits(&mut search, "1234");
    assert_eq!(search.pick(&pids).map(|k| pids[k]), Some(1234));

    search.clear();
    search.push_digit('1', false);
    assert_eq!(search.pick(&pids).map(|k| pids[k]), Some(1234));
}

#[test]
fn exact_pid_wins_over_smaller_prefix_matches() {
    let pids = [12, 120, 1];
    let mut search = PidSearch::new();
    type_digits(&mut search, "12");
    assert_eq!(search.pick(&pids), Some(0));
    search.push_digit('0', false);
    assert_eq!(search.pick(&pids), Some(1));
    search.clear();
    type_digits(&mut search, "01");
    assert_eq!(search.pick(&pids), Some(2));
}

#[test]
fn pid_search_without_match_or_past_u32_selects_nothing() {
    let pids = [4, 8];
    let mut search = PidSearch::new();
    assert_eq!(search.pick(&pids), None);
    type_digits(&mut search, "5");
    assert_eq!(search.pick(&pids), None);
    search.clear();
    type_digits(&mut search, "4294967296");
    assert_eq!(search.pick(&[4_294_967_295]), None);
    search.clear();
    type_digits(&mut search, "4294967295");
    assert_eq!(search.pick(&[4_294_967_295]), Some(0));
}

#[test]
fn pid_typing_starts_over_after_ten_digits_or_an_idle_second() {
    let mut search = PidSearch::new();
    type_digits(&mut search, "1234567890");
    search.push_digit('7', false);
    assert_eq!(search.typed(), &vec!['7']);
    search.push_digit_after('3', Some(Duration::from_millis(1000)));
    assert_eq!(search.typed(), &vec!['7', '3']);
    search.push_digit_after('5', Some(Duration::from_millis(1001)));
    assert_eq!(search.typed(), &vec!['5']);
    search.push_digit_after('6', None);
    assert_eq!(search.typed(), &vec!['5', '6']);
}

#[test]
fn repeated_search_next_visits_all_matches() {
    let rows = [("p1", "p1"), ("p2", "p2"), ("p3", "p3")];
    let matches: Vec<bool> = rows
        .iter()
        .map(|(name, command)| row_matches_search(name, command, "p"))
        .collect();
    let mut selected = 0;
    for expected in [1, 2, 0] {
        selected = find_next_match(&matches, selected).unwrap();
        assert_eq!(selected, expected);
    }
}

#[test]
fn search_next_wraps_to_the_selected_row_last() {
    assert_eq!(find_next_match(&[false, true, false], 1), Some(1));
    assert_eq!(find_next_match(&[true, false, true], 2), Some(0));
    assert_eq!(find_next_match(&[false, false], 0), None);
    assert_eq!(find_next_match(&[], 0), None);
}

#[test]
fn search_text_matches_name_or_command() {
    assert!(text_contains("svchost.exe", "host"));
    assert!(text_contains("anything", ""));
    assert!(!text_contains("ab", "abc"));
    assert!(text_contains("größe", "öß"));
    assert!(!row_matches_search("explorer.exe", "c:\\windows\\explorer.exe", "chrome"));
    assert!(row_matches_search("svchost.exe", "c:\\windows\\system32\\svchost.exe -k", "system32"));
}
