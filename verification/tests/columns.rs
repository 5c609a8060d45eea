use htop_win::columns::{
    find_column, move_column_down, move_column_up, next_tab_index, prev_tab_index, toggle_column,
    ColumnToggle,
};

fn cols(names: &[&str]) -> Vec<String> {
    names.iter().map(|s| s.to_string()).collect()
}

#[test]
fn hiding_and_showing_a_column_keeps_display_order() {
    let mut c = cols(&["PID", "USER", "CPU%", "Command"]);
    assert_eq!(toggle_column(&mut c, "USER"), ColumnToggle::Removed);
    assert_eq!(c, cols(&["PID", "CPU%", "Command"]));
    assert_eq!(toggle_column(&mut c, "USER"), ColumnToggle::Inserted);
    assert_eq!(c, cols(&["PID", "USER", "CPU%", "Command"]));
    assert_eq!(find_column(&c, "CPU%"), Some(2));
    assert_eq!(find_column(&c, "MEM%"), None);
}

#[test]
fn last_column_cannot_be_hidden() {
    let mut c = cols(&["Command"]);
    let r = toggle_column(&mut c, "Command");
    assert_eq!(r, ColumnToggle::KeptLast);
    assert_eq!(r.error_message(), Some("At least one process column must remain visible"));
    assert_eq!(c, cols(&["Command"]));
    assert_eq!(ColumnToggle::Removed.error_message(), None);
}

#[test]
fn moving_columns_swaps_neighbours_within_bounds() {
    let mut c = cols(&["PID", "USER", "Command"]);
    assert!(!move_column_up(&mut c, "PID"));
    assert!(!move_column_down(&mut c, "Command"));
    assert!(!move_column_up(&mut c, "MEM%"));
    assert!(move_column_down(&mut c, "PID"));
    assert_eq!(c, cols(&["USER", "PID", "Command"]));
    assert!(move_column_up(&mut c, "PID"));
    assert_eq!(c, cols(&["PID", "USER", "Command"]));
}

#[test]
fn tab_cycling_wraps_and_undoes() {
    assert_eq!(next_tab_index(0, 1), 0);
    assert_eq!(prev_tab_index(0, 1), 0);
    assert_eq!(next_tab_index(1, 2), 0);
    assert_eq!(prev_tab_index(0, 2), 1);
    for n in 2..6 {
        for a in 0..n {
            assert_eq!(prev_tab_index(next_tab_index(a, n), n), a);
        }
    }
}

#[test]
fn final_visible_column_cannot_be_removed() {
    let mut columns = vec!["PID".to_string()];
    let outcome = toggle_column(&mut columns, "PID");
    assert!(outcome != ColumnToggle::Removed);
    assert_eq!(columns, ["PID"]);
    assert!(outcome.error_message().is_some());
}
