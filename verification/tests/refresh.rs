use htop_win::system::refresh::{plan_merge, refresh_rows, snapshot_totals, RowOp, SnapshotEntry};
use htop_win::system::ProcessIdentity;

fn row(pid: u32, create_time_100ns: u64) -> ProcessIdentity {
    ProcessIdentity { pid, create_time_100ns }
}

fn entry(pid: u32, create_time_100ns: u64) -> SnapshotEntry {
    SnapshotEntry { pid, create_time_100ns, thread_count: 1, read_bytes: 0, write_bytes: 0 }
}

fn listed(rows: &[ProcessIdentity], snapshot: &[SnapshotEntry]) -> Vec<u32> {
    let plan = plan_merge(rows, snapshot);
    let mut out: Vec<u32> = Vec::new();
    for (i, r) in rows.iter().enumerate() {
        if plan.keep[i] {
            out.push(r.pid);
        }
    }
    for op in &plan.ops {
        if let RowOp::Append { entry } = op {
            out.push(snapshot[*entry].pid);
        }
    }
    out
}

#[test]
fn survivors_update_reused_pids_rebuild_and_new_processes_append() {
    let rows = [row(10, 100), row(20, 200), row(30, 300)];
    let snapshot = [entry(20, 200), entry(40, 400), entry(10, 111)];
    let plan = plan_merge(&rows, &snapshot);
    assert_eq!(
        plan.ops,
        vec![
            RowOp::Update { row: 1, entry: 0 },
            RowOp::Append { entry: 1 },
            RowOp::Replace { row: 0, entry: 2 },
        ]
    );
    assert_eq!(plan.keep, vec![true, true, false]);
}

#[test]
fn refreshed_list_holds_each_live_process_once_in_stable_order() {
    let rows = [row(7, 1), row(3, 2), row(9, 3), row(4, 4)];
    let snapshot = [entry(12, 5), entry(4, 4), entry(7, 1), entry(11, 6), entry(9, 3)];
    assert_eq!(listed(&rows, &snapshot), vec![7, 9, 4, 12, 11]);
    let again = [row(7, 1), row(9, 3), row(4, 4), row(12, 5), row(11, 6)];
    let plan = plan_merge(&again, &snapshot);
    assert!(plan.keep.iter().all(|k| *k));
    assert!(plan.ops.iter().all(|op| matches!(op, RowOp::Update { .. })));
}

#[test]
fn empty_snapshot_drops_every_row() {
    let rows = [row(1, 1), row(2, 2)];
    let plan = plan_merge(&rows, &[]);
    assert!(plan.ops.is_empty());
    assert_eq!(plan.keep, vec![false, false]);
    let first = plan_merge(&[], &[entry(5, 9), entry(6, 9)]);
    assert_eq!(first.ops, vec![RowOp::Append { entry: 0 }, RowOp::Append { entry: 1 }]);
    assert!(first.keep.is_empty());
}

#[test]
fn pid_held_by_two_rows_maps_to_the_later_row() {
    let rows = [row(5, 1), row(5, 2)];
    let plan = plan_merge(&rows, &[entry(5, 2)]);
    assert_eq!(plan.ops, vec![RowOp::Update { row: 1, entry: 0 }]);
    assert_eq!(plan.keep, vec![false, true]);
}

#[test]
fn totals_skip_idle_process_and_saturate_io() {
    let snapshot = [
        SnapshotEntry { pid: 0, create_time_100ns: 0, thread_count: 8, read_bytes: 5, write_bytes: 1 },
        SnapshotEntry { pid: 4, create_time_100ns: 0, thread_count: 150, read_bytes: u64::MAX - 2, write_bytes: 2 },
        SnapshotEntry { pid: 812, create_time_100ns: 9, thread_count: 3, read_bytes: 10, write_bytes: 3 },
    ];
    let t = snapshot_totals(&snapshot);
    assert_eq!(t.tasks, 2);
    assert_eq!(t.threads, 161);
    assert_eq!(t.disk_read, u64::MAX);
    assert_eq!(t.disk_write, 6);
    let none = snapshot_totals(&[]);
    assert_eq!((none.tasks, none.threads, none.disk_read, none.disk_write), (0, 0, 0, 0));
}

#[test]
fn applying_a_refresh_keeps_survivors_rebuilds_reused_and_appends_new() {
    let mut rows = vec![row(10, 100), row(20, 200), row(30, 300)];
    let snapshot = [entry(20, 200), entry(40, 400), entry(10, 111)];
    refresh_rows(&mut rows, Some(&snapshot));
    assert_eq!(rows, vec![row(10, 111), row(20, 200), row(40, 400)]);
    let before = rows.clone();
    refresh_rows(&mut rows, None);
    assert_eq!(rows, before);
}
