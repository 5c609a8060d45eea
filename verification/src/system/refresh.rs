//! Folding a fresh kernel snapshot into the displayed process list.
//!
//! Rows that are still alive keep their place and are refreshed in place
//! (or rebuilt when their pid now belongs to a newer process), rows whose
//! process is gone drop out, and processes not yet listed are appended in
//! snapshot order. The pid index is built by inserting the rows in order,
//! so a pid held by several rows names the last of them.

use vstd::prelude::*;
use std::collections::HashMap;
use crate::system::{ProcessIdentity, is_displayed_task};

verus! {

broadcast use vstd::std_specs::hash::group_hash_axioms;

/// What a refresh reads of one entry of the kernel's process snapshot.
#[derive(Debug, Clone, Copy, PartialEq, Eq, Structural)]
pub struct SnapshotEntry {
    pub pid: u32,
    pub create_time_100ns: u64,
    pub thread_count: u32,
    pub read_bytes: u64,
    pub write_bytes: u64,
}

/// How one snapshot entry reaches the displayed list.
#[derive(Debug, Clone, Copy, PartialEq, Eq, Structural)]
pub enum RowOp {
    /// Row `row` still shows the same process: refresh it from `entry`.
    Update { row: usize, entry: usize },
    /// Row `row`'s pid now belongs to another process: rebuild it from `entry`.
    Replace { row: usize, entry: usize },
    /// `entry` is a process not listed yet: append a row for it.
    Append { entry: usize },
}

/// The outcome of merging a snapshot into the list.
pub struct MergePlan {
    /// One operation per snapshot entry, in snapshot order.
    pub ops: Vec<RowOp>,
    /// For each existing row, whether it is still alive afterwards.
    pub keep: Vec<bool>,
    /// For each existing row, the creation time of the process it shows
    /// afterwards.
    pub times: Vec<u64>,
}

/// The last row holding `pid`.
pub open spec fn last_row_with(rows: Seq<ProcessIdentity>, pid: u32) -> Option<int>
    decreases rows.len(),
{
    if rows.len() == 0 {
        None
    } else if rows.last().pid == pid {
        Some(rows.len() - 1)
    } else {
        last_row_with(rows.drop_last(), pid)
    }
}

/// The operations, the creation time each row holds and which rows were
/// seen, after the first `k` snapshot entries have been applied.
pub open spec fn merge_after(rows: Seq<ProcessIdentity>, snapshot: Seq<SnapshotEntry>, k: nat) -> (
    Seq<RowOp>,
    Seq<u64>,
    Seq<bool>,
)
    decreases k,
{
    if k == 0 {
        (
            Seq::empty(),
            Seq::new(rows.len(), |i: int| rows[i].create_time_100ns),
            Seq::new(rows.len(), |i: int| false),
        )
    } else {
        let before = merge_after(rows, snapshot, (k - 1) as nat);
        let e = snapshot[k - 1];
        match last_row_with(rows, e.pid) {
            Some(i) => (
                before.0.push(
                    if before.1[i] == e.create_time_100ns {
                        RowOp::Update { row: i as usize, entry: (k - 1) as usize }
                    } else {
                        RowOp::Replace { row: i as usize, entry: (k - 1) as usize }
                    },
                ),
                before.1.update(i, e.create_time_100ns),
                before.2.update(i, true),
            ),
            None => (before.0.push(RowOp::Append { entry: (k - 1) as usize }), before.1, before.2),
        }
    }
}

/// The merge of the whole snapshot.
pub open spec fn merged(rows: Seq<ProcessIdentity>, snapshot: Seq<SnapshotEntry>) -> (
    Seq<RowOp>,
    Seq<u64>,
    Seq<bool>,
) {
    merge_after(rows, snapshot, snapshot.len())
}

proof fn lemma_last_row_with(rows: Seq<ProcessIdentity>, pid: u32)
    ensures
        match last_row_with(rows, pid) {
            Some(i) => 0 <= i < rows.len() && rows[i].pid == pid && forall|k: int|
                i < k < rows.len() ==> #[trigger] rows[k].pid != pid,
            None => forall|k: int| 0 <= k < rows.len() ==> #[trigger] rows[k].pid != pid,
        },
    decreases rows.len(),
{
    if rows.len() > 0 {
        lemma_last_row_with(rows.drop_last(), pid);
        assert forall|k: int| 0 <= k < rows.len() - 1 implies #[trigger] rows[k] == rows.drop_last()[k] by {}
    }
}

proof fn lemma_last_row_grow(rows: Seq<ProcessIdentity>, i: int, pid: u32)
    requires
        0 <= i < rows.len(),
    ensures
        last_row_with(rows.take(i + 1), pid) == if rows[i].pid == pid {
            Some(i)
        } else {
            last_row_with(rows.take(i), pid)
        },
{
    assert(rows.take(i + 1).drop_last() =~= rows.take(i));
}

proof fn lemma_merge_shape(rows: Seq<ProcessIdentity>, snapshot: Seq<SnapshotEntry>, k: nat)
    ensures
        merge_after(rows, snapshot, k).0.len() == k,
        merge_after(rows, snapshot, k).1.len() == rows.len(),
        merge_after(rows, snapshot, k).2.len() == rows.len(),
    decreases k,
{
    if k > 0 {
        lemma_merge_shape(rows, snapshot, (k - 1) as nat);
        lemma_last_row_with(rows, snapshot[k - 1].pid);
    }
}

/// Merges `snapshot` into the rows `rows` of the list: what happens to each
/// snapshot entry, and which rows survive.
pub fn plan_merge(rows: &[ProcessIdentity], snapshot: &[SnapshotEntry]) -> (plan: MergePlan)
    ensures
        plan.ops@ == merged(rows@, snapshot@).0,
        plan.keep@ == merged(rows@, snapshot@).2,
        plan.times@ == merged(rows@, snapshot@).1,
{
    let mut index: HashMap<u32, usize> = HashMap::new();
    let mut i: usize = 0;
    while i < rows.len()
        invariant
            i <= rows.len(),
            forall|pid: u32| #[trigger]
                index@.contains_key(pid) <==> last_row_with(rows@.take(i as int), pid) is Some,
            forall|pid: u32| #[trigger]
                index@.contains_key(pid) ==> index@[pid] as int == last_row_with(
                    rows@.take(i as int),
                    pid,
                )->0,
        decreases rows.len() - i,
    {
        proof {
            assert forall|pid: u32| #[trigger]
                last_row_with(rows@.take(i + 1), pid) == if rows@[i as int].pid == pid {
                    Some(i as int)
                } else {
                    last_row_with(rows@.take(i as int), pid)
                } by {
                lemma_last_row_grow(rows@, i as int, pid);
            }
        }
        index.insert(rows[i].pid, i);
        i = i + 1;
    }
    assert(rows@.take(rows@.len() as int) =~= rows@);

    let mut times: Vec<u64> = Vec::new();
    let mut keep: Vec<bool> = Vec::new();
    let mut r: usize = 0;
    while r < rows.len()
        invariant
            r <= rows.len(),
            times@ =~= Seq::new(r as nat, |k: int| rows@[k].create_time_100ns),
            keep@ =~= Seq::new(r as nat, |k: int| false),
        decreases rows.len() - r,
    {
        times.push(rows[r].create_time_100ns);
        keep.push(false);
        r = r + 1;
    }

    let mut ops: Vec<RowOp> = Vec::new();
    let mut j: usize = 0;
    while j < snapshot.len()
        invariant
            j <= snapshot.len(),
            forall|pid: u32| #[trigger] index@.contains_key(pid) <==> last_row_with(rows@, pid) is Some,
            forall|pid: u32| #[trigger]
                index@.contains_key(pid) ==> index@[pid] as int == last_row_with(rows@, pid)->0,
            ops@ == merge_after(rows@, snapshot@, j as nat).0,
            times@ == merge_after(rows@, snapshot@, j as nat).1,
            keep@ == merge_after(rows@, snapshot@, j as nat).2,
        decreases snapshot.len() - j,
    {
        proof {
            lemma_merge_shape(rows@, snapshot@, j as nat);
        }
        let e = snapshot[j];
        proof {
            lemma_last_row_with(rows@, e.pid);
        }
        match index.get(&e.pid) {
            Some(found) => {
                let row = *found;
                if times[row] == e.create_time_100ns {
                    ops.push(RowOp::Update { row, entry: j });
                } else {
                    ops.push(RowOp::Replace { row, entry: j });
                }
                times.set(row, e.create_time_100ns);
                keep.set(row, true);
            },
            None => {
                ops.push(RowOp::Append { entry: j });
            },
        }
        j = j + 1;
    }
    MergePlan { ops, keep, times }
}


/// What the header shows of a whole snapshot.
#[derive(Debug, Clone, Copy, PartialEq, Eq, Structural)]
pub struct SnapshotTotals {
    /// Listed tasks (every process but the System Idle Process).
    pub tasks: usize,
    pub threads: usize,
    /// Bytes read and written by all processes, saturating at `u64::MAX`.
    pub disk_read: u64,
    pub disk_write: u64,
}

pub open spec fn task_count(s: Seq<SnapshotEntry>) -> nat
    decreases s.len(),
{
    if s.len() == 0 {
        0
    } else {
        task_count(s.drop_last()) + if s.last().pid != 0 { 1nat } else { 0nat }
    }
}

pub open spec fn thread_sum(s: Seq<SnapshotEntry>) -> nat
    decreases s.len(),
{
    if s.len() == 0 {
        0
    } else {
        thread_sum(s.drop_last()) + s.last().thread_count as nat
    }
}

pub open spec fn read_sum(s: Seq<SnapshotEntry>) -> nat
    decreases s.len(),
{
    if s.len() == 0 {
        0
    } else {
        read_sum(s.drop_last()) + s.last().read_bytes as nat
    }
}

pub open spec fn write_sum(s: Seq<SnapshotEntry>) -> nat
    decreases s.len(),
{
    if s.len() == 0 {
        0
    } else {
        write_sum(s.drop_last()) + s.last().write_bytes as nat
    }
}

/// `n`, or `u64::MAX` when it does not fit.
pub open spec fn capped(n: nat) -> nat {
    if n > u64::MAX {
        u64::MAX as nat
    } else {
        n
    }
}

proof fn lemma_thread_prefix(s: Seq<SnapshotEntry>, i: int)
    requires
        0 <= i <= s.len(),
    ensures
        thread_sum(s.take(i)) <= thread_sum(s),
    decreases s.len() - i,
{
    if i < s.len() {
        lemma_thread_prefix(s, i + 1);
        assert(s.take(i + 1).drop_last() =~= s.take(i));
    } else {
        assert(s.take(i) =~= s);
    }
}

/// Task and thread counts and the cumulative I/O of a snapshot.
pub fn snapshot_totals(snapshot: &[SnapshotEntry]) -> (t: SnapshotTotals)
    requires
        thread_sum(snapshot@) <= usize::MAX,
    ensures
        t.tasks == task_count(snapshot@),
        t.threads == thread_sum(snapshot@),
        t.disk_read == capped(read_sum(snapshot@)),
        t.disk_write == capped(write_sum(snapshot@)),
{
    let mut tasks: usize = 0;
    let mut threads: usize = 0;
    let mut disk_read: u64 = 0;
    let mut disk_write: u64 = 0;
    let mut i: usize = 0;
    while i < snapshot.len()
        invariant
            i <= snapshot.len(),
            thread_sum(snapshot@) <= usize::MAX,
            tasks == task_count(snapshot@.take(i as int)),
            tasks <= i,
            threads == thread_sum(snapshot@.take(i as int)),
            disk_read == capped(read_sum(snapshot@.take(i as int))),
            disk_write == capped(write_sum(snapshot@.take(i as int))),
        decreases snapshot.len() - i,
    {
        let e = snapshot[i];
        proof {
            assert(snapshot@.take(i + 1).drop_last() =~= snapshot@.take(i as int));
            lemma_thread_prefix(snapshot@, i + 1);
        }
        if is_displayed_task(e.pid) {
            tasks = tasks + 1;
        }
        threads = threads + e.thread_count as usize;
        disk_read = disk_read.saturating_add(e.read_bytes);
        disk_write = disk_write.saturating_add(e.write_bytes);
        i = i + 1;
    }
    assert(snapshot@.take(snapshot@.len() as int) =~= snapshot@);
    SnapshotTotals { tasks, threads, disk_read, disk_write }
}

/// No two rows hold the same pid.
pub open spec fn rows_distinct(rows: Seq<ProcessIdentity>) -> bool {
    forall|a: int, b: int| 0 <= a < b < rows.len() ==> #[trigger] rows[a].pid != #[trigger] rows[b].pid
}

/// No two snapshot entries carry the same pid.
pub open spec fn snapshot_distinct(snapshot: Seq<SnapshotEntry>) -> bool {
    forall|a: int, b: int|
        0 <= a < b < snapshot.len() ==> #[trigger] snapshot[a].pid != #[trigger] snapshot[b].pid
}

/// The operation entry `j` gets when the snapshot holds each pid once:
/// decided by the row with its pid and that row's creation time.
pub open spec fn entry_op(rows: Seq<ProcessIdentity>, snapshot: Seq<SnapshotEntry>, j: int) -> RowOp {
    match last_row_with(rows, snapshot[j].pid) {
        Some(i) => if rows[i].create_time_100ns == snapshot[j].create_time_100ns {
            RowOp::Update { row: i as usize, entry: j as usize }
        } else {
            RowOp::Replace { row: i as usize, entry: j as usize }
        },
        None => RowOp::Append { entry: j as usize },
    }
}

/// Some of the first `k` snapshot entries goes to row `i`.
pub open spec fn row_matched(rows: Seq<ProcessIdentity>, snapshot: Seq<SnapshotEntry>, i: int, k: int) -> bool {
    exists|j: int| 0 <= j < k && #[trigger] last_row_with(rows, snapshot[j].pid) == Some(i)
}

/// The pids of the surviving rows among the first `n`, in row order.
pub open spec fn kept_pids(rows: Seq<ProcessIdentity>, keep: Seq<bool>, n: nat) -> Seq<u32>
    decreases n,
{
    if n == 0 {
        Seq::empty()
    } else if keep[n - 1] {
        kept_pids(rows, keep, (n - 1) as nat).push(rows[n - 1].pid)
    } else {
        kept_pids(rows, keep, (n - 1) as nat)
    }
}

/// The pids of the appended entries among the first `n`, in snapshot order.
pub open spec fn appended_pids(snapshot: Seq<SnapshotEntry>, ops: Seq<RowOp>, n: nat) -> Seq<u32>
    decreases n,
{
    if n == 0 {
        Seq::empty()
    } else if ops[n - 1] is Append {
        appended_pids(snapshot, ops, (n - 1) as nat).push(snapshot[n - 1].pid)
    } else {
        appended_pids(snapshot, ops, (n - 1) as nat)
    }
}

/// The pids of the list after the refresh: the surviving rows in their
/// order, then the appended processes in snapshot order.
pub open spec fn listed_after(rows: Seq<ProcessIdentity>, snapshot: Seq<SnapshotEntry>) -> Seq<u32> {
    let m = merged(rows, snapshot);
    kept_pids(rows, m.2, rows.len()) + appended_pids(snapshot, m.0, snapshot.len())
}

proof fn lemma_push_contains(s: Seq<u32>, x: u32, p: u32)
    ensures
        s.push(x).contains(p) <==> (s.contains(p) || p == x),
{
    if s.contains(p) {
        let i = choose|i: int| 0 <= i < s.len() && s[i] == p;
        assert(s.push(x)[i] == p);
    }
    if p == x {
        assert(s.push(x)[s.len() as int] == p);
    }
    if s.push(x).contains(p) {
        let i = choose|i: int| 0 <= i < s.push(x).len() && s.push(x)[i] == p;
        if i < s.len() {
            assert(s[i] == p);
        }
    }
}

proof fn lemma_push_distinct(s: Seq<u32>, x: u32)
    requires
        s.no_duplicates(),
        !s.contains(x),
    ensures
        s.push(x).no_duplicates(),
{
    let t = s.push(x);
    assert forall|a: int, b: int| 0 <= a < t.len() && 0 <= b < t.len() && a != b implies t[a] != t[b] by {
        if a < s.len() && b < s.len() {
            assert(t[a] == s[a] && t[b] == s[b]);
        } else if a < s.len() {
            assert(t[a] == s[a]);
        } else {
            assert(t[b] == s[b]);
        }
    }
}

proof fn lemma_concat(a: Seq<u32>, b: Seq<u32>)
    requires
        a.no_duplicates(),
        b.no_duplicates(),
        forall|p: u32| a.contains(p) ==> !b.contains(p),
    ensures
        (a + b).no_duplicates(),
        forall|p: u32| (a + b).contains(p) <==> (a.contains(p) || b.contains(p)),
{
    let t = a + b;
    assert forall|x: int, y: int| 0 <= x < t.len() && 0 <= y < t.len() && x != y implies t[x] != t[y] by {
        if x < a.len() && y >= a.len() {
            assert(a.contains(a[x]));
            assert(b[y - a.len()] == t[y]);
        } else if y < a.len() && x >= a.len() {
            assert(a.contains(a[y]));
            assert(b[x - a.len()] == t[x]);
        } else if x >= a.len() {
            assert(t[x] == b[x - a.len()] && t[y] == b[y - a.len()]);
        }
    }
    assert forall|p: u32| t.contains(p) <==> (a.contains(p) || b.contains(p)) by {
        if a.contains(p) {
            let i = choose|i: int| 0 <= i < a.len() && a[i] == p;
            assert(t[i] == p);
        }
        if b.contains(p) {
            let i = choose|i: int| 0 <= i < b.len() && b[i] == p;
            assert(t[a.len() + i] == p);
        }
        if t.contains(p) {
            let i = choose|i: int| 0 <= i < t.len() && t[i] == p;
            if i < a.len() {
                assert(a[i] == p);
            } else {
                assert(b[i - a.len()] == p);
            }
        }
    }
}

proof fn lemma_kept_pids(rows: Seq<ProcessIdentity>, keep: Seq<bool>, n: nat)
    requires
        n <= rows.len(),
        rows_distinct(rows),
    ensures
        kept_pids(rows, keep, n).no_duplicates(),
        forall|p: u32|
            kept_pids(rows, keep, n).contains(p) <==> exists|i: int|
                0 <= i < n && keep[i] && #[trigger] rows[i].pid == p,
    decreases n,
{
    if n > 0 {
        let m = (n - 1) as nat;
        lemma_kept_pids(rows, keep, m);
        let prev = kept_pids(rows, keep, m);
        let x = rows[n - 1].pid;
        if keep[n - 1] {
            assert(!prev.contains(x)) by {
                if prev.contains(x) {
                    let i = choose|i: int| 0 <= i < m && keep[i] && #[trigger] rows[i].pid == x;
                    assert(rows[i].pid != rows[n - 1].pid);
                }
            }
            lemma_push_distinct(prev, x);
            assert forall|p: u32|
                kept_pids(rows, keep, n).contains(p) <==> exists|i: int|
                    0 <= i < n && keep[i] && #[trigger] rows[i].pid == p by {
                lemma_push_contains(prev, x, p);
                if exists|i: int| 0 <= i < n && keep[i] && #[trigger] rows[i].pid == p {
                    let i = choose|i: int| 0 <= i < n && keep[i] && #[trigger] rows[i].pid == p;
                    if i < m {
                        assert(prev.contains(p));
                    }
                }
            }
        } else {
            assert forall|p: u32|
                kept_pids(rows, keep, n).contains(p) <==> exists|i: int|
                    0 <= i < n && keep[i] && #[trigger] rows[i].pid == p by {
                if exists|i: int| 0 <= i < n && keep[i] && #[trigger] rows[i].pid == p {
                    let i = choose|i: int| 0 <= i < n && keep[i] && #[trigger] rows[i].pid == p;
                    assert(i < m);
                }
            }
        }
    }
}

proof fn lemma_appended_pids(snapshot: Seq<SnapshotEntry>, ops: Seq<RowOp>, n: nat)
    requires
        n <= snapshot.len(),
        snapshot_distinct(snapshot),
    ensures
        appended_pids(snapshot, ops, n).no_duplicates(),
        forall|p: u32|
            appended_pids(snapshot, ops, n).contains(p) <==> exists|j: int|
                0 <= j < n && ops[j] is Append && #[trigger] snapshot[j].pid == p,
    decreases n,
{
    if n > 0 {
        let m = (n - 1) as nat;
        lemma_appended_pids(snapshot, ops, m);
        let prev = appended_pids(snapshot, ops, m);
        let x = snapshot[n - 1].pid;
        if ops[n - 1] is Append {
            assert(!prev.contains(x)) by {
                if prev.contains(x) {
                    let j = choose|j: int| 0 <= j < m && ops[j] is Append && #[trigger] snapshot[j].pid == x;
                    assert(snapshot[j].pid != snapshot[n - 1].pid);
                }
            }
            lemma_push_distinct(prev, x);
            assert forall|p: u32|
                appended_pids(snapshot, ops, n).contains(p) <==> exists|j: int|
                    0 <= j < n && ops[j] is Append && #[trigger] snapshot[j].pid == p by {
                lemma_push_contains(prev, x, p);
                if exists|j: int| 0 <= j < n && ops[j] is Append && #[trigger] snapshot[j].pid == p {
                    let j = choose|j: int| 0 <= j < n && ops[j] is Append && #[trigger] snapshot[j].pid == p;
                    if j < m {
                        assert(prev.contains(p));
                    }
                }
            }
        } else {
            assert forall|p: u32|
                appended_pids(snapshot, ops, n).contains(p) <==> exists|j: int|
                    0 <= j < n && ops[j] is Append && #[trigger] snapshot[j].pid == p by {
                if exists|j: int| 0 <= j < n && ops[j] is Append && #[trigger] snapshot[j].pid == p {
                    let j = choose|j: int| 0 <= j < n && ops[j] is Append && #[trigger] snapshot[j].pid == p;
                    assert(j < m);
                }
            }
        }
    }
}

proof fn lemma_merge_by_pid(rows: Seq<ProcessIdentity>, snapshot: Seq<SnapshotEntry>, k: nat)
    requires
        k <= snapshot.len(),
        snapshot_distinct(snapshot),
    ensures
        forall|j: int| 0 <= j < k ==> #[trigger] merge_after(rows, snapshot, k).0[j] == entry_op(rows, snapshot, j),
        forall|i: int|
            0 <= i < rows.len() ==> (#[trigger] merge_after(rows, snapshot, k).2[i] <==> row_matched(
                rows,
                snapshot,
                i,
                k as int,
            )),
        forall|i: int|
            0 <= i < rows.len() && !row_matched(rows, snapshot, i, k as int) ==> #[trigger] merge_after(
                rows,
                snapshot,
                k,
            ).1[i] == rows[i].create_time_100ns,
    decreases k,
{
    lemma_merge_shape(rows, snapshot, k);
    if k > 0 {
        let m = (k - 1) as nat;
        lemma_merge_by_pid(rows, snapshot, m);
        lemma_merge_shape(rows, snapshot, m);
        let before = merge_after(rows, snapshot, m);
        let after = merge_after(rows, snapshot, k);
        let e = snapshot[m as int];
        lemma_last_row_with(rows, e.pid);
        match last_row_with(rows, e.pid) {
            Some(i0) => {
                assert(!row_matched(rows, snapshot, i0, m as int)) by {
                    if row_matched(rows, snapshot, i0, m as int) {
                        let j = choose|j: int| 0 <= j < m && #[trigger] last_row_with(rows, snapshot[j].pid) == Some(i0);
                        lemma_last_row_with(rows, snapshot[j].pid);
                        assert(snapshot[j].pid != snapshot[m as int].pid);
                    }
                }
                assert(before.1[i0] == rows[i0].create_time_100ns);
                assert(after.0[m as int] == entry_op(rows, snapshot, m as int));
                assert forall|i: int| 0 <= i < rows.len() implies (after.2[i] <==> row_matched(
                    rows,
                    snapshot,
                    i,
                    k as int,
                )) by {
                    if i == i0 {
                        assert(last_row_with(rows, snapshot[m as int].pid) == Some(i0));
                    } else {
                        if row_matched(rows, snapshot, i, k as int) {
                            let j = choose|j: int| 0 <= j < k && #[trigger] last_row_with(rows, snapshot[j].pid) == Some(i);
                            assert(j < m);
                        }
                    }
                }
                assert forall|i: int| 0 <= i < rows.len() && !row_matched(rows, snapshot, i, k as int) implies after.1[i]
                    == rows[i].create_time_100ns by {
                    assert(last_row_with(rows, snapshot[m as int].pid) == Some(i0));
                    if i != i0 {
                        assert(!row_matched(rows, snapshot, i, m as int));
                    }
                }
            },
            None => {
                assert forall|i: int| 0 <= i < rows.len() implies (row_matched(rows, snapshot, i, k as int)
                    <==> row_matched(rows, snapshot, i, m as int)) by {
                    if row_matched(rows, snapshot, i, k as int) {
                        let j = choose|j: int| 0 <= j < k && #[trigger] last_row_with(rows, snapshot[j].pid) == Some(i);
                        assert(j < m);
                    }
                }
            },
        }
    }
}

/// When the snapshot holds each pid once, each entry is decided by the row
/// that holds its pid: refreshed in place when that row has the same
/// creation time, rebuilt when the pid was reused, appended when no row
/// holds it; and a row survives exactly when some entry went to it.
pub proof fn merge_decides_by_pid_and_creation_time(
    rows: Seq<ProcessIdentity>,
    snapshot: Seq<SnapshotEntry>,
)
    requires
        snapshot_distinct(snapshot),
    ensures
        merged(rows, snapshot).0.len() == snapshot.len(),
        merged(rows, snapshot).2.len() == rows.len(),
        forall|j: int| 0 <= j < snapshot.len() ==> #[trigger] merged(rows, snapshot).0[j] == entry_op(rows, snapshot, j),
        forall|i: int|
            0 <= i < rows.len() ==> (#[trigger] merged(rows, snapshot).2[i] <==> row_matched(
                rows,
                snapshot,
                i,
                snapshot.len() as int,
            )),
{
    lemma_merge_shape(rows, snapshot, snapshot.len());
    lemma_merge_by_pid(rows, snapshot, snapshot.len());
}

/// After a refresh with a snapshot and a list that each hold every pid once,
/// the list holds every process of the snapshot exactly once, and nothing
/// else.
pub proof fn refresh_lists_each_live_process_once(
    rows: Seq<ProcessIdentity>,
    snapshot: Seq<SnapshotEntry>,
)
    requires
        rows_distinct(rows),
        snapshot_distinct(snapshot),
    ensures
        listed_after(rows, snapshot).no_duplicates(),
        forall|p: u32|
            listed_after(rows, snapshot).contains(p) <==> exists|j: int|
                0 <= j < snapshot.len() && #[trigger] snapshot[j].pid == p,
{
    let n = snapshot.len();
    let m = merged(rows, snapshot);
    merge_decides_by_pid_and_creation_time(rows, snapshot);
    lemma_kept_pids(rows, m.2, rows.len());
    lemma_appended_pids(snapshot, m.0, n);
    let kept = kept_pids(rows, m.2, rows.len());
    let added = appended_pids(snapshot, m.0, n);
    assert forall|p: u32| kept.contains(p) implies !added.contains(p) && exists|j: int|
        0 <= j < n && #[trigger] snapshot[j].pid == p by {
        let i = choose|i: int| 0 <= i < rows.len() && m.2[i] && #[trigger] rows[i].pid == p;
        let j = choose|j: int| 0 <= j < n && #[trigger] last_row_with(rows, snapshot[j].pid) == Some(i);
        lemma_last_row_with(rows, snapshot[j].pid);
        assert(snapshot[j].pid == p);
        if added.contains(p) {
            let j2 = choose|j2: int| 0 <= j2 < n && m.0[j2] is Append && #[trigger] snapshot[j2].pid == p;
            assert(m.0[j2] == entry_op(rows, snapshot, j2));
            lemma_last_row_with(rows, snapshot[j2].pid);
            assert(rows[i].pid == snapshot[j2].pid);
        }
    }
    lemma_concat(kept, added);
    assert forall|p: u32|
        listed_after(rows, snapshot).contains(p) <==> exists|j: int|
            0 <= j < n && #[trigger] snapshot[j].pid == p by {
        assert(listed_after(rows, snapshot) == kept + added);
        if (kept + added).contains(p) && !kept.contains(p) {
            assert(added.contains(p));
            let j = choose|j: int| 0 <= j < n && m.0[j] is Append && #[trigger] snapshot[j].pid == p;
            assert(snapshot[j].pid == p);
        }
        if exists|j: int| 0 <= j < n && #[trigger] snapshot[j].pid == p {
            let j = choose|j: int| 0 <= j < n && #[trigger] snapshot[j].pid == p;
            lemma_last_row_with(rows, p);
            assert(m.0[j] == entry_op(rows, snapshot, j));
            match last_row_with(rows, p) {
                Some(i) => {
                    assert(row_matched(rows, snapshot, i, n as int));
                    assert(m.2[i]);
                    assert(kept.contains(p));
                },
                None => {
                    assert(added.contains(p));
                },
            }
        }
    }
}

/// The surviving rows among the first `n`, each now naming the process
/// (pid and creation time) the snapshot shows for it.
pub open spec fn kept_rows(rows: Seq<ProcessIdentity>, keep: Seq<bool>, times: Seq<u64>, n: nat) -> Seq<ProcessIdentity>
    decreases n,
{
    if n == 0 {
        Seq::empty()
    } else if keep[n - 1] {
        kept_rows(rows, keep, times, (n - 1) as nat).push(
            ProcessIdentity { pid: rows[n - 1].pid, create_time_100ns: times[n - 1] },
        )
    } else {
        kept_rows(rows, keep, times, (n - 1) as nat)
    }
}

/// The rows appended for new processes among the first `n` entries.
pub open spec fn appended_rows(snapshot: Seq<SnapshotEntry>, ops: Seq<RowOp>, n: nat) -> Seq<ProcessIdentity>
    decreases n,
{
    if n == 0 {
        Seq::empty()
    } else if ops[n - 1] is Append {
        appended_rows(snapshot, ops, (n - 1) as nat).push(
            ProcessIdentity { pid: snapshot[n - 1].pid, create_time_100ns: snapshot[n - 1].create_time_100ns },
        )
    } else {
        appended_rows(snapshot, ops, (n - 1) as nat)
    }
}

/// The list after merging `snapshot`: the surviving rows in their order,
/// then the new processes in snapshot order.
pub open spec fn refreshed(rows: Seq<ProcessIdentity>, snapshot: Seq<SnapshotEntry>) -> Seq<ProcessIdentity> {
    let m = merged(rows, snapshot);
    kept_rows(rows, m.2, m.1, rows.len()) + appended_rows(snapshot, m.0, snapshot.len())
}

proof fn lemma_kept_rows_pids(rows: Seq<ProcessIdentity>, keep: Seq<bool>, times: Seq<u64>, n: nat)
    ensures
        kept_rows(rows, keep, times, n).map_values(|r: ProcessIdentity| r.pid) =~= kept_pids(rows, keep, n),
    decreases n,
{
    if n > 0 {
        lemma_kept_rows_pids(rows, keep, times, (n - 1) as nat);
    }
}

proof fn lemma_appended_rows_pids(snapshot: Seq<SnapshotEntry>, ops: Seq<RowOp>, n: nat)
    ensures
        appended_rows(snapshot, ops, n).map_values(|r: ProcessIdentity| r.pid) =~= appended_pids(snapshot, ops, n),
    decreases n,
{
    if n > 0 {
        lemma_appended_rows_pids(snapshot, ops, (n - 1) as nat);
    }
}

/// Applies a refresh to the list: with no snapshot (the kernel query
/// failed) the list stays as it was; otherwise survivors keep their place
/// and take the snapshot's creation time (a rebuilt row for a reused pid),
/// vanished processes drop out and new ones are appended in snapshot order.
pub fn refresh_rows(rows: &mut Vec<ProcessIdentity>, snapshot: Option<&[SnapshotEntry]>)
    ensures
        match snapshot {
            None => final(rows)@ == old(rows)@,
            Some(s) => {
                &&& final(rows)@ == refreshed(old(rows)@, s@)
                &&& final(rows)@.map_values(|r: ProcessIdentity| r.pid) == listed_after(old(rows)@, s@)
            },
        },
{
    match snapshot {
        None => {},
        Some(s) => {
            let ghost old_rows = rows@;
            let plan = plan_merge(rows.as_slice(), s);
            proof {
                lemma_merge_shape(old_rows, s@, s@.len());
            }
            let ghost m = merged(old_rows, s@);
            let mut out: Vec<ProcessIdentity> = Vec::new();
            let mut i: usize = 0;
            while i < rows.len()
                invariant
                    rows@ == old_rows,
                    plan.keep@ == m.2,
                    plan.times@ == m.1,
                    m.1.len() == old_rows.len(),
                    m.2.len() == old_rows.len(),
                    i <= old_rows.len(),
                    out@ == kept_rows(old_rows, m.2, m.1, i as nat),
                decreases rows.len() - i,
            {
                if plan.keep[i] {
                    out.push(ProcessIdentity { pid: rows[i].pid, create_time_100ns: plan.times[i] });
                }
                i = i + 1;
            }
            let ghost kept = out@;
            let mut j: usize = 0;
            while j < s.len()
                invariant
                    plan.ops@ == m.0,
                    m.0.len() == s@.len(),
                    j <= s@.len(),
                    out@ == kept + appended_rows(s@, m.0, j as nat),
                decreases s.len() - j,
            {
                match plan.ops[j] {
                    RowOp::Append { .. } => {
                        out.push(ProcessIdentity { pid: s[j].pid, create_time_100ns: s[j].create_time_100ns });
                        assert(out@ =~= kept + appended_rows(s@, m.0, (j + 1) as nat));
                    },
                    _ => {
                        assert(out@ =~= kept + appended_rows(s@, m.0, (j + 1) as nat));
                    },
                }
                j = j + 1;
            }
            proof {
                lemma_kept_rows_pids(old_rows, m.2, m.1, old_rows.len());
                lemma_appended_rows_pids(s@, m.0, s@.len());
                assert(out@.map_values(|r: ProcessIdentity| r.pid) =~= listed_after(old_rows, s@));
            }
            *rows = out;
        },
    }
}

} // verus!
