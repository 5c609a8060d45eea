//! The tree view of the process list: parent links checked against
//! creation times (a parent must exist, differ from the child and not be
//! younger than it), and a depth-first layout of the resulting forest in
//! which collapsed branches are hidden and every process appears once.

use vstd::prelude::*;
use std::collections::HashMap;
use vstd::string::StringExecFns;
use crate::app::DisplayRow;
use crate::text::string_of;

verus! {

broadcast use vstd::std_specs::hash::group_hash_axioms;

/// What the tree layout needs to know of one process, in display order.
#[derive(Debug, Clone, Copy)]
pub struct TreeNode {
    pub pid: u32,
    pub parent_pid: u32,
    pub create_time_100ns: u64,
    /// The process's branch is collapsed in the view.
    pub collapsed: bool,
}

/// The last position of `pid` in `nodes` (a reused pid resolves to the
/// later entry).
pub open spec fn last_pos(nodes: Seq<TreeNode>, pid: u32) -> Option<int>
    decreases nodes.len(),
{
    if nodes.len() == 0 {
        None
    } else if nodes.last().pid == pid {
        Some(nodes.len() - 1)
    } else {
        last_pos(nodes.drop_last(), pid)
    }
}

/// The parent of the process at `i`: the process its parent pid names, when
/// that is another process, both creation times are known and the parent
/// was not created after the child.
pub open spec fn validated_parent(nodes: Seq<TreeNode>, i: int) -> Option<int> {
    let n = nodes[i];
    if n.parent_pid == 0 || n.parent_pid == n.pid {
        None
    } else {
        match last_pos(nodes, n.parent_pid) {
            Some(p) => if nodes[p].create_time_100ns != 0 && n.create_time_100ns != 0
                && nodes[p].create_time_100ns <= n.create_time_100ns {
                Some(p)
            } else {
                None
            },
            None => None,
        }
    }
}

/// The children of `p` among the first `upto` processes, in order.
pub open spec fn children_upto(nodes: Seq<TreeNode>, p: int, upto: int) -> Seq<int>
    decreases upto,
{
    if upto <= 0 {
        Seq::empty()
    } else if validated_parent(nodes, upto - 1) == Some(p) {
        children_upto(nodes, p, upto - 1).push(upto - 1)
    } else {
        children_upto(nodes, p, upto - 1)
    }
}

/// The children of `p`, in order.
pub open spec fn children_of(nodes: Seq<TreeNode>, p: int) -> Seq<int> {
    children_upto(nodes, p, nodes.len() as int)
}

pub proof fn lemma_last_pos(nodes: Seq<TreeNode>, pid: u32)
    ensures
        match last_pos(nodes, pid) {
            Some(p) => 0 <= p < nodes.len() && nodes[p].pid == pid && forall|j: int| p < j < nodes.len() ==> nodes[j].pid != pid,
            None => forall|j: int| 0 <= j < nodes.len() ==> nodes[j].pid != pid,
        },
    decreases nodes.len(),
{
    if nodes.len() > 0 && nodes.last().pid != pid {
        let t = nodes.drop_last();
        lemma_last_pos(t, pid);
        assert forall|j: int| 0 <= j < t.len() implies nodes[j] == t[j] by {}
        assert(nodes[nodes.len() - 1] == nodes.last());
    }
}

/// The children lists hold exactly the processes whose parent is `p`, in
/// increasing order.
pub proof fn lemma_children_upto(nodes: Seq<TreeNode>, p: int, upto: int)
    requires
        0 <= upto <= nodes.len(),
    ensures
        forall|k: int| 0 <= k < children_upto(nodes, p, upto).len() ==> 0 <= #[trigger] children_upto(nodes, p, upto)[k] < upto
            && validated_parent(nodes, children_upto(nodes, p, upto)[k]) == Some(p),
        forall|a: int, b: int| 0 <= a < b < children_upto(nodes, p, upto).len() ==> children_upto(nodes, p, upto)[a]
            < children_upto(nodes, p, upto)[b],
        forall|i: int| 0 <= i < upto && validated_parent(nodes, i) == Some(p) ==> children_upto(nodes, p, upto).contains(i),
    decreases upto,
{
    if upto > 0 {
        lemma_children_upto(nodes, p, upto - 1);
        let prev = children_upto(nodes, p, upto - 1);
        let cur = children_upto(nodes, p, upto);
        if validated_parent(nodes, upto - 1) == Some(p) {
            assert(cur[cur.len() - 1] == upto - 1);
            assert forall|i: int| 0 <= i < upto && validated_parent(nodes, i) == Some(p) implies cur.contains(i) by {
                if i < upto - 1 {
                    let k = choose|k: int| 0 <= k < prev.len() && prev[k] == i;
                    assert(cur[k] == i);
                }
            }
        }
    }
}

/// Index of the last occurrence of each pid among `nodes`.
fn index_of_pids(nodes: &[TreeNode]) -> (m: HashMap<u32, usize>)
    ensures
        forall|pid: u32| #[trigger] m@.contains_key(pid) == last_pos(nodes@, pid).is_some(),
        forall|pid: u32| m@.contains_key(pid) ==> #[trigger] m@[pid] as int == last_pos(nodes@, pid).unwrap(),
{
    let mut m: HashMap<u32, usize> = HashMap::new();
    let mut i: usize = 0;
    assert(nodes@.take(0) =~= Seq::<TreeNode>::empty());
    while i < nodes.len()
        invariant
            0 <= i <= nodes@.len(),
            forall|pid: u32| #[trigger] m@.contains_key(pid) == last_pos(nodes@.take(i as int), pid).is_some(),
            forall|pid: u32| m@.contains_key(pid) ==> #[trigger] m@[pid] as int == last_pos(nodes@.take(i as int), pid).unwrap(),
        decreases nodes.len() - i,
    {
        let ghost before = nodes@.take(i as int);
        assert(nodes@.take(i + 1).drop_last() =~= before);
        assert(nodes@.take(i + 1).last() == nodes@[i as int]);
        m.insert(nodes[i].pid, i);
        i = i + 1;
    }
    assert(nodes@.take(nodes@.len() as int) =~= nodes@);
    m
}

/// The validated parent of every process, as a position in `nodes`.
pub fn validated_parents(nodes: &[TreeNode]) -> (parents: Vec<Option<usize>>)
    ensures
        parents@.len() == nodes@.len(),
        forall|i: int| 0 <= i < nodes@.len() ==> match #[trigger] parents@[i] {
            Some(p) => validated_parent(nodes@, i) == Some(p as int),
            None => validated_parent(nodes@, i) is None,
        },
{
    let idx_of = index_of_pids(nodes);
    let mut parents: Vec<Option<usize>> = Vec::new();
    let mut i: usize = 0;
    while i < nodes.len()
        invariant
            0 <= i <= nodes@.len(),
            parents@.len() == i,
            forall|pid: u32| #[trigger] idx_of@.contains_key(pid) == last_pos(nodes@, pid).is_some(),
            forall|pid: u32| idx_of@.contains_key(pid) ==> #[trigger] idx_of@[pid] as int == last_pos(nodes@, pid).unwrap(),
            forall|k: int| 0 <= k < i ==> match #[trigger] parents@[k] {
                Some(p) => validated_parent(nodes@, k) == Some(p as int),
                None => validated_parent(nodes@, k) is None,
            },
        decreases nodes.len() - i,
    {
        let node = nodes[i];
        let mut parent: Option<usize> = None;
        if node.parent_pid != 0 && node.parent_pid != node.pid {
            match idx_of.get(&node.parent_pid) {
                Some(p) => {
                    proof {
                        lemma_last_pos(nodes@, node.parent_pid);
                    }
                    let parent_time = nodes[*p].create_time_100ns;
                    if parent_time != 0 && node.create_time_100ns != 0 && parent_time <= node.create_time_100ns {
                        parent = Some(*p);
                    }
                },
                None => {},
            }
        }
        parents.push(parent);
        i = i + 1;
    }
    parents
}

/// The children of every process, each list in display order.
fn children_lists(parents: &Vec<Option<usize>>, Ghost(nodes): Ghost<Seq<TreeNode>>) -> (children: Vec<Vec<usize>>)
    requires
        parents@.len() == nodes.len(),
        forall|i: int| 0 <= i < nodes.len() ==> match #[trigger] parents@[i] {
            Some(p) => validated_parent(nodes, i) == Some(p as int),
            None => validated_parent(nodes, i) is None,
        },
    ensures
        children@.len() == nodes.len(),
        forall|p: int| 0 <= p < nodes.len() ==> (#[trigger] children@[p])@.len() == children_of(nodes, p).len()
            && forall|k: int| 0 <= k < children@[p]@.len() ==> children@[p]@[k] as int == children_of(nodes, p)[k],
{
    let n = parents.len();
    let mut children: Vec<Vec<usize>> = Vec::new();
    let mut j: usize = 0;
    while j < n
        invariant
            0 <= j <= n,
            children@.len() == j,
            forall|p: int| 0 <= p < j ==> (#[trigger] children@[p])@.len() == 0,
        decreases n - j,
    {
        children.push(Vec::new());
        j = j + 1;
    }
    let mut i: usize = 0;
    while i < n
        invariant
            n == parents@.len() == nodes.len(),
            forall|i: int| 0 <= i < nodes.len() ==> match #[trigger] parents@[i] {
                Some(p) => validated_parent(nodes, i) == Some(p as int),
                None => validated_parent(nodes, i) is None,
            },
            0 <= i <= n,
            children@.len() == n,
            forall|p: int| 0 <= p < n ==> (#[trigger] children@[p])@.len() == children_upto(nodes, p, i as int).len()
                && forall|k: int| 0 <= k < children@[p]@.len() ==> children@[p]@[k] as int == children_upto(nodes, p, i as int)[k],
        decreases n - i,
    {
        match parents[i] {
            Some(p) => {
                proof {
                    assert(validated_parent(nodes, i as int) == Some(p as int));
                    if p >= n {
                        lemma_last_pos(nodes, nodes[i as int].parent_pid);
                    }
                }
                let ghost before = children@;
                let mut list = children[p].clone();
                assert(list@ == before[p as int]@);
                list.push(i);
                children.set(p, list);
                assert forall|q: int| 0 <= q < n implies (#[trigger] children@[q])@.len() == children_upto(nodes, q, i + 1).len()
                    && forall|k: int| 0 <= k < children@[q]@.len() ==> children@[q]@[k] as int == children_upto(nodes, q, i + 1)[k] by {
                    if q != p {
                        assert(children@[q] == before[q]);
                    }
                }
            },
            None => {},
        }
        i = i + 1;
    }
    children
}

/// Nodes neither shown nor hidden yet.
pub open spec fn free_count(visited: Seq<bool>, suppressed: Seq<bool>) -> nat
    decreases visited.len(),
{
    if visited.len() == 0 {
        0
    } else {
        free_count(visited.drop_last(), suppressed.drop_last()) + if !visited.last() && !suppressed.last() {
            1nat
        } else {
            0nat
        }
    }
}

proof fn lemma_free_count_mark(visited: Seq<bool>, suppressed: Seq<bool>, i: int)
    requires
        visited.len() == suppressed.len(),
        0 <= i < visited.len(),
        !visited[i] && !suppressed[i],
    ensures
        free_count(visited.update(i, true), suppressed) + 1 == free_count(visited, suppressed),
        free_count(visited, suppressed.update(i, true)) + 1 == free_count(visited, suppressed),
    decreases visited.len(),
{
    let n = visited.len();
    if i < n - 1 {
        assert(visited.update(i, true).drop_last() =~= visited.drop_last().update(i, true));
        assert(suppressed.update(i, true).drop_last() =~= suppressed.drop_last().update(i, true));
        lemma_free_count_mark(visited.drop_last(), suppressed.drop_last(), i);
    } else {
        assert(visited.update(i, true).drop_last() =~= visited.drop_last());
        assert(suppressed.update(i, true).drop_last() =~= suppressed.drop_last());
    }
}

/// The process `k` parent links above the one at `i`.
pub open spec fn anc(nodes: Seq<TreeNode>, i: int, k: nat) -> Option<int>
    decreases k,
{
    if k == 0 {
        Some(i)
    } else {
        match validated_parent(nodes, i) {
            Some(p) => anc(nodes, p, (k - 1) as nat),
            None => None,
        }
    }
}

/// The position names a collapsed process.
pub open spec fn collapsed_at(nodes: Seq<TreeNode>, a: Option<int>) -> bool {
    match a {
        Some(c) => 0 <= c < nodes.len() && nodes[c].collapsed,
        None => false,
    }
}

/// Some process above the one at `i` is collapsed.
pub open spec fn collapsed_above(nodes: Seq<TreeNode>, i: int) -> bool {
    exists|k: nat| k >= 1 && collapsed_at(nodes, #[trigger] anc(nodes, i, k))
}

/// A depth as the row shows it (capped at `u16::MAX`).
pub open spec fn depth16(d: usize) -> u16 {
    if d > 65535 { 65535 } else { d as u16 }
}

/// The depth shown one level below a row at depth `d`.
pub open spec fn next_depth(d: u16) -> u16 {
    if d < 65535 { (d + 1) as u16 } else { 65535 }
}

/// Every indented row comes after the row of its parent, which is not
/// collapsed, one level deeper than it.
pub open spec fn parent_rows_ok(nodes: Seq<TreeNode>, rows: Seq<DisplayRow>) -> bool {
    forall|k: int|
        0 <= k < rows.len() && #[trigger] rows[k].tree_depth > 0 ==> exists|j: int|
            0 <= j < k && validated_parent(nodes, rows[k].index as int) == Some(rows[j].index as int)
                && !nodes[rows[j].index as int].collapsed && rows[k].tree_depth == next_depth(#[trigger] rows[j].tree_depth)
}

/// The layout so far: every shown process once, shown and hidden apart,
/// and each row describing its process.
pub open spec fn layout_ok(nodes: Seq<TreeNode>, visited: Seq<bool>, suppressed: Seq<bool>, rows: Seq<DisplayRow>) -> bool {
    &&& visited.len() == nodes.len()
    &&& suppressed.len() == nodes.len()
    &&& forall|k: int| 0 <= k < rows.len() ==> 0 <= #[trigger] rows[k].index < nodes.len() && visited[rows[k].index as int]
    &&& forall|a: int, b: int| 0 <= a < b < rows.len() ==> rows[a].index != rows[b].index
    &&& forall|i: int| 0 <= i < nodes.len() && #[trigger] visited[i] ==> exists|k: int| 0 <= k < rows.len() && rows[k].index == i
    &&& forall|i: int| 0 <= i < nodes.len() ==> !(visited[i] && #[trigger] suppressed[i])
    &&& forall|k: int| 0 <= k < rows.len() ==> row_describes(nodes, #[trigger] rows[k])
    &&& (forall|i: int| 0 <= i < nodes.len() ==> !#[trigger] nodes[i].collapsed) ==> forall|i: int| 0 <= i < nodes.len() ==> !#[trigger] suppressed[i]
    &&& forall|i: int| 0 <= i < nodes.len() && #[trigger] suppressed[i] ==> collapsed_above(nodes, i)
    &&& parent_rows_ok(nodes, rows)
    &&& forall|k: int|
        0 <= k < rows.len() && #[trigger] rows[k].tree_depth == 0 ==> validated_parent(nodes, rows[k].index as int) is None
            || !ends_at_root(nodes, rows[k].index as int)
}

/// A row shows its process's children and collapse state, is not marked as
/// a search hit, and sits at the left margin unless the process has a parent.
pub open spec fn row_describes(nodes: Seq<TreeNode>, row: DisplayRow) -> bool {
    &&& row.has_children == (children_of(nodes, row.index as int).len() > 0)
    &&& row.is_collapsed == nodes[row.index as int].collapsed
    &&& !row.matches_search
    &&& row.tree_depth == 0 ==> row.tree_prefix@.len() == 0
    &&& row.tree_depth > 0 ==> validated_parent(nodes, row.index as int) is Some
}

/// Some row shows the process at `i`.
pub open spec fn shown(rows: Seq<DisplayRow>, i: int) -> bool {
    exists|k: int| 0 <= k < rows.len() && rows[k].index == i
}

/// A process waiting to be laid out.
struct PendingNode {
    idx: usize,
    depth: usize,
    is_last: bool,
    parent_prefix: String,
}

spec fn pending_ok(nodes: Seq<TreeNode>, rows: Seq<DisplayRow>, e: PendingNode) -> bool {
    &&& 0 <= e.idx < nodes.len()
    &&& e.depth > 0 ==> validated_parent(nodes, e.idx as int) is Some
    &&& e.depth > 0 ==> exists|j: int|
        0 <= j < rows.len() && validated_parent(nodes, e.idx as int) == Some(rows[j].index as int)
            && !nodes[rows[j].index as int].collapsed && depth16(e.depth) == next_depth(#[trigger] rows[j].tree_depth)
}

/// Process `i` is reached from the roots `first` within `k` steps down
/// `children`, along processes none of which is shown (`visited`) or was
/// already hidden (`hidden`).
pub open spec fn hidden_within(
    children: Seq<Vec<usize>>,
    visited: Seq<bool>,
    hidden: Seq<bool>,
    first: Seq<usize>,
    i: int,
    k: nat,
) -> bool
    decreases k,
{
    &&& 0 <= i < visited.len()
    &&& !visited[i]
    &&& !hidden[i]
    &&& (first.contains(i as usize) || (k > 0 && exists|p: int|
        0 <= p < children.len() && #[trigger] children[p]@.contains(i as usize) && hidden_within(
            children,
            visited,
            hidden,
            first,
            p,
            (k - 1) as nat,
        )))
}

/// Process `i` lies in the part of the branch below `first` that is neither
/// shown nor already hidden.
pub open spec fn hidden_below(
    children: Seq<Vec<usize>>,
    visited: Seq<bool>,
    hidden: Seq<bool>,
    first: Seq<usize>,
    i: int,
) -> bool {
    exists|k: nat| #[trigger] hidden_within(children, visited, hidden, first, i, k)
}

proof fn lemma_contains_pop(s: Seq<usize>, c: usize)
    requires
        s.len() > 0,
        s.contains(c),
        c != s.last(),
    ensures
        s.drop_last().contains(c),
{
    let k = choose|k: int| 0 <= k < s.len() && s[k] == c;
    assert(s.drop_last()[k] == c);
}

/// With the walk finished, everything reached is marked.
proof fn lemma_hidden_marked(
    children: Seq<Vec<usize>>,
    visited: Seq<bool>,
    hidden: Seq<bool>,
    first: Seq<usize>,
    marked: Seq<bool>,
    i: int,
    k: nat,
)
    requires
        visited.len() <= usize::MAX,
        marked.len() == visited.len(),
        hidden.len() == visited.len(),
        children.len() == visited.len(),
        forall|f: usize| #[trigger] first.contains(f) ==> f < visited.len() && (marked[f as int] || visited[f as int]),
        forall|p: int, c: usize|
            0 <= p < visited.len() && marked[p] && !hidden[p] && #[trigger] children[p]@.contains(c) ==> c
                < visited.len() && (marked[c as int] || visited[c as int]),
        hidden_within(children, visited, hidden, first, i, k),
    ensures
        marked[i],
    decreases k,
{
    if !first.contains(i as usize) {
        let p = choose|p: int|
            0 <= p < children.len() && #[trigger] children[p]@.contains(i as usize) && hidden_within(
                children,
                visited,
                hidden,
                first,
                p,
                (k - 1) as nat,
            );
        lemma_hidden_marked(children, visited, hidden, first, marked, p, (k - 1) as nat);
    }
}

/// Hide every not yet shown process below the branch whose children are
/// `first`.
fn suppress_branch(
    children: &Vec<Vec<usize>>,
    first: &Vec<usize>,
    visited: &Vec<bool>,
    suppressed: &mut Vec<bool>,
    Ghost(nodes): Ghost<Seq<TreeNode>>,
)
    requires
        children@.len() == nodes.len(),
        visited@.len() == nodes.len(),
        old(suppressed)@.len() == nodes.len(),
        forall|p: int| 0 <= p < nodes.len() ==> forall|k: int| 0 <= k < (#[trigger] children@[p])@.len() ==> children@[p]@[k] < nodes.len(),
        forall|k: int| 0 <= k < first@.len() ==> #[trigger] first@[k] < nodes.len(),
    ensures
        final(suppressed)@.len() == nodes.len(),
        forall|i: int| 0 <= i < nodes.len() ==> (#[trigger] final(suppressed)@[i] <==> (old(suppressed)@[i]
            || hidden_below(children@, visited@, old(suppressed)@, first@, i))),
        forall|i: int| 0 <= i < nodes.len() && #[trigger] old(suppressed)@[i] ==> final(suppressed)@[i],
        forall|i: int| 0 <= i < nodes.len() && #[trigger] final(suppressed)@[i] ==> old(suppressed)@[i] || !visited@[i],
        free_count(visited@, final(suppressed)@) <= free_count(visited@, old(suppressed)@),
{
    let ghost ch = children@;
    let ghost vis = visited@;
    let ghost orig = suppressed@;
    let ghost fst = first@;
    let mut pending: Vec<usize> = first.clone();
    assert(pending@ == first@);
    while pending.len() > 0
        invariant
            ch == children@,
            vis == visited@,
            fst == first@,
            orig == old(suppressed)@,
            children@.len() == nodes.len(),
            visited@.len() == nodes.len(),
            suppressed@.len() == nodes.len(),
            forall|p: int| 0 <= p < nodes.len() ==> forall|k: int| 0 <= k < (#[trigger] children@[p])@.len() ==> children@[p]@[k] < nodes.len(),
            forall|k: int| 0 <= k < first@.len() ==> #[trigger] first@[k] < nodes.len(),
            forall|k: int| 0 <= k < pending@.len() ==> #[trigger] pending@[k] < nodes.len(),
            forall|i: int| 0 <= i < nodes.len() && #[trigger] old(suppressed)@[i] ==> suppressed@[i],
            forall|i: int| 0 <= i < nodes.len() && #[trigger] suppressed@[i] ==> old(suppressed)@[i] || (!visited@[i]
                && hidden_below(ch, vis, orig, fst, i)),
            forall|k: int|
                0 <= k < pending@.len() ==> fst.contains(#[trigger] pending@[k]) || exists|p: int|
                    0 <= p < nodes.len() && suppressed@[p] && !orig[p] && #[trigger] ch[p]@.contains(pending@[k]),
            forall|f: usize| #[trigger] fst.contains(f) ==> suppressed@[f as int] || vis[f as int] || pending@.contains(f),
            forall|p: int, c: usize|
                0 <= p < nodes.len() && suppressed@[p] && !orig[p] && #[trigger] ch[p]@.contains(c) ==> suppressed@[c as int]
                    || vis[c as int] || pending@.contains(c),
            free_count(visited@, suppressed@) <= free_count(visited@, old(suppressed)@),
        decreases free_count(visited@, suppressed@), pending@.len(),
    {
        let ghost before = pending@;
        let ghost sup = suppressed@;
        let d = pending.pop().unwrap();
        assert(pending@ == before.drop_last());
        assert(d == before[before.len() - 1]);
        if visited[d] || suppressed[d] {
            proof {
                assert forall|k: int| 0 <= k < pending@.len() implies fst.contains(#[trigger] pending@[k]) || exists|p: int|
                    0 <= p < nodes.len() && suppressed@[p] && !orig[p] && #[trigger] ch[p]@.contains(pending@[k]) by {
                    assert(pending@[k] == before[k]);
                }
                assert forall|f: usize| #[trigger] fst.contains(f) implies suppressed@[f as int] || vis[f as int]
                    || pending@.contains(f) by {
                    if before.contains(f) && f != d {
                        lemma_contains_pop(before, f);
                    }
                }
                assert forall|p: int, c: usize|
                    0 <= p < nodes.len() && suppressed@[p] && !orig[p] && #[trigger] ch[p]@.contains(c) implies suppressed@[c as int]
                        || vis[c as int] || pending@.contains(c) by {
                    if before.contains(c) && c != d {
                        lemma_contains_pop(before, c);
                    }
                }
            }
            continue;
        }
        proof {
            lemma_free_count_mark(visited@, suppressed@, d as int);
            assert(!orig[d as int]);
            assert(hidden_below(ch, vis, orig, fst, d as int)) by {
                assert(before[before.len() - 1] == d);
                if fst.contains(d) {
                    assert(hidden_within(ch, vis, orig, fst, d as int, 0));
                } else {
                    let p = choose|p: int|
                        0 <= p < nodes.len() && sup[p] && !orig[p] && #[trigger] ch[p]@.contains(d);
                    assert(hidden_below(ch, vis, orig, fst, p));
                    let kp = choose|kp: nat| #[trigger] hidden_within(ch, vis, orig, fst, p, kp);
                    assert(hidden_within(ch, vis, orig, fst, d as int, kp + 1));
                }
            }
        }
        suppressed.set(d, true);
        let ghost mid = pending@;
        let grand = &children[d];
        let mut k: usize = 0;
        while k < grand.len()
            invariant
                grand@ == children@[d as int]@,
                ch == children@,
                0 <= k <= grand@.len(),
                forall|j: int| 0 <= j < grand@.len() ==> #[trigger] grand@[j] < nodes.len(),
                forall|j: int| 0 <= j < pending@.len() ==> #[trigger] pending@[j] < nodes.len(),
                pending@ == mid + grand@.take(k as int),
            decreases grand.len() - k,
        {
            pending.push(grand[k]);
            assert(grand@.take(k + 1) =~= grand@.take(k as int).push(grand@[k as int]));
            k = k + 1;
        }
        proof {
            assert(grand@.take(grand@.len() as int) =~= grand@);
            let pn = pending@;
            assert(pn == mid + ch[d as int]@);
            assert forall|j: int| 0 <= j < pn.len() implies fst.contains(#[trigger] pn[j]) || exists|p: int|
                0 <= p < nodes.len() && suppressed@[p] && !orig[p] && #[trigger] ch[p]@.contains(pn[j]) by {
                if j < mid.len() {
                    assert(pn[j] == before[j]);
                    if !fst.contains(pn[j]) {
                        let p = choose|p: int|
                            0 <= p < nodes.len() && sup[p] && !orig[p] && #[trigger] ch[p]@.contains(before[j]);
                        assert(suppressed@[p]);
                    }
                } else {
                    assert(pn[j] == ch[d as int]@[j - mid.len()]);
                    assert(ch[d as int]@.contains(pn[j]));
                    assert(suppressed@[d as int]);
                }
            }
            assert forall|c: usize| #[trigger] mid.contains(c) implies pn.contains(c) by {
                let t = choose|t: int| 0 <= t < mid.len() && mid[t] == c;
                assert(pn[t] == c);
            }
            assert forall|f: usize| #[trigger] fst.contains(f) implies suppressed@[f as int] || vis[f as int]
                || pn.contains(f) by {
                if before.contains(f) && f != d {
                    lemma_contains_pop(before, f);
                    assert(mid.contains(f));
                }
            }
            assert forall|p: int, c: usize|
                0 <= p < nodes.len() && suppressed@[p] && !orig[p] && #[trigger] ch[p]@.contains(c) implies suppressed@[c as int]
                    || vis[c as int] || pn.contains(c) by {
                if p == d {
                    let t = choose|t: int| 0 <= t < ch[d as int]@.len() && ch[d as int]@[t] == c;
                    assert(pn[mid.len() + t] == c);
                } else {
                    assert(sup[p]);
                    if before.contains(c) && c != d {
                        lemma_contains_pop(before, c);
                        assert(mid.contains(c));
                    }
                }
            }
            assert forall|i: int| 0 <= i < nodes.len() && #[trigger] suppressed@[i] implies old(suppressed)@[i] || (!visited@[i]
                && hidden_below(ch, vis, orig, fst, i)) by {
                if i != d {
                    assert(sup[i]);
                }
            }
        }
    }
    proof {
        assert(pending@ =~= Seq::<usize>::empty());
        assert forall|i: int| 0 <= i < nodes.len() implies (#[trigger] suppressed@[i] <==> (old(suppressed)@[i]
            || hidden_below(ch, vis, orig, fst, i))) by {
            if hidden_below(ch, vis, orig, fst, i) {
                let k = choose|k: nat| #[trigger] hidden_within(ch, vis, orig, fst, i, k);
                assert forall|f: usize| #[trigger] fst.contains(f) implies f < vis.len() && (suppressed@[f as int]
                    || vis[f as int]) by {
                    let t = choose|t: int| 0 <= t < fst.len() && fst[t] == f;
                    assert(first@[t] < nodes.len());
                }
                assert forall|p: int, c: usize|
                    0 <= p < vis.len() && suppressed@[p] && !orig[p] && #[trigger] ch[p]@.contains(c) implies c
                        < vis.len() && (suppressed@[c as int] || vis[c as int]) by {
                    let t = choose|t: int| 0 <= t < ch[p]@.len() && ch[p]@[t] == c;
                    assert(children@[p]@[t] < nodes.len());
                }
                assert(vis.len() == visited.len());
                lemma_hidden_marked(ch, vis, orig, fst, suppressed@, i, k);
            }
        }
    }
}

/// A row pushed after the rows so far keeps the parent links of the
/// earlier rows and of the pending entries.
proof fn lemma_row_pushed(nodes: Seq<TreeNode>, rows: Seq<DisplayRow>, row: DisplayRow, stack: Seq<PendingNode>)
    requires
        parent_rows_ok(nodes, rows),
        row.tree_depth > 0 ==> exists|j: int|
            0 <= j < rows.len() && validated_parent(nodes, row.index as int) == Some(rows[j].index as int)
                && !nodes[rows[j].index as int].collapsed && row.tree_depth == next_depth(#[trigger] rows[j].tree_depth),
        forall|q: int| 0 <= q < stack.len() ==> pending_ok(nodes, rows, #[trigger] stack[q]),
    ensures
        parent_rows_ok(nodes, rows.push(row)),
        forall|q: int| 0 <= q < stack.len() ==> pending_ok(nodes, rows.push(row), #[trigger] stack[q]),
{
    let t = rows.push(row);
    assert forall|k: int|
        0 <= k < t.len() && #[trigger] t[k].tree_depth > 0 implies exists|j: int|
            0 <= j < k && validated_parent(nodes, t[k].index as int) == Some(t[j].index as int)
                && !nodes[t[j].index as int].collapsed && t[k].tree_depth == next_depth(#[trigger] t[j].tree_depth) by {
        if k < rows.len() {
            assert(t[k] == rows[k]);
            let j = choose|j: int|
                0 <= j < k && validated_parent(nodes, rows[k].index as int) == Some(rows[j].index as int)
                    && !nodes[rows[j].index as int].collapsed && rows[k].tree_depth == next_depth(#[trigger] rows[j].tree_depth);
            assert(t[j] == rows[j]);
        } else {
            let j = choose|j: int|
                0 <= j < rows.len() && validated_parent(nodes, row.index as int) == Some(rows[j].index as int)
                    && !nodes[rows[j].index as int].collapsed && row.tree_depth == next_depth(#[trigger] rows[j].tree_depth);
            assert(t[j] == rows[j]);
        }
    }
    assert forall|q: int| 0 <= q < stack.len() implies pending_ok(nodes, t, #[trigger] stack[q]) by {
        let e = stack[q];
        assert(pending_ok(nodes, rows, e));
        if e.depth > 0 {
            let j = choose|j: int|
                0 <= j < rows.len() && validated_parent(nodes, e.idx as int) == Some(rows[j].index as int)
                    && !nodes[rows[j].index as int].collapsed && depth16(e.depth) == next_depth(#[trigger] rows[j].tree_depth);
            assert(t[j] == rows[j]);
        }
    }
}

/// The processes a collapsed process hides all have it above them.
proof fn lemma_hidden_has_collapsed_above(
    nodes: Seq<TreeNode>,
    children: Seq<Vec<usize>>,
    visited: Seq<bool>,
    hidden: Seq<bool>,
    idx: int,
    i: int,
    k: nat,
)
    requires
        children.len() == nodes.len(),
        visited.len() == nodes.len(),
        nodes.len() <= usize::MAX,
        forall|p: int| 0 <= p < nodes.len() ==> (#[trigger] children[p])@.len() == children_of(nodes, p).len()
            && forall|q: int| 0 <= q < children[p]@.len() ==> children[p]@[q] as int == children_of(nodes, p)[q],
        0 <= idx < nodes.len(),
        hidden_within(children, visited, hidden, children[idx]@, i, k),
    ensures
        exists|m: nat| m >= 1 && #[trigger] anc(nodes, i, m) == Some(idx),
    decreases k,
{
    if children[idx]@.contains(i as usize) {
        let q = choose|q: int| 0 <= q < children[idx]@.len() && children[idx]@[q] == i as usize;
        lemma_children_upto(nodes, idx, nodes.len() as int);
        assert(children_of(nodes, idx)[q] == i);
        assert(validated_parent(nodes, i) == Some(idx));
        assert(anc(nodes, i, 1) == anc(nodes, idx, 0));
    } else {
        let p = choose|p: int|
            0 <= p < children.len() && #[trigger] children[p]@.contains(i as usize) && hidden_within(
                children,
                visited,
                hidden,
                children[idx]@,
                p,
                (k - 1) as nat,
            );
        lemma_hidden_has_collapsed_above(nodes, children, visited, hidden, idx, p, (k - 1) as nat);
        let m = choose|m: nat| m >= 1 && #[trigger] anc(nodes, p, m) == Some(idx);
        let q = choose|q: int| 0 <= q < children[p]@.len() && children[p]@[q] == i as usize;
        lemma_children_upto(nodes, p, nodes.len() as int);
        assert(children_of(nodes, p)[q] == i);
        assert(validated_parent(nodes, i) == Some(p));
        assert(anc(nodes, i, m + 1) == anc(nodes, p, m));
    }
}

/// Following parent links from `i` ends at a process without a parent.
pub open spec fn root_at(nodes: Seq<TreeNode>, a: Option<int>) -> bool {
    match a {
        Some(r) => 0 <= r < nodes.len() && validated_parent(nodes, r) is None,
        None => false,
    }
}

/// The chain of parents above `i` ends (no cycle lies above it).
pub open spec fn ends_at_root(nodes: Seq<TreeNode>, i: int) -> bool {
    exists|k: nat| root_at(nodes, #[trigger] anc(nodes, i, k))
}

/// Process `c` is laid out, hidden, or waiting on the stack.
spec fn covered(visited: Seq<bool>, suppressed: Seq<bool>, stack: Seq<PendingNode>, c: int) -> bool {
    visited[c] || suppressed[c] || exists|q: int| 0 <= q < stack.len() && #[trigger] stack[q].idx == c
}

/// Every child of a laid out or hidden process other than `skip` is laid
/// out, hidden or waiting.
#[verifier::opaque]
spec fn closed_except(nodes: Seq<TreeNode>, visited: Seq<bool>, suppressed: Seq<bool>, stack: Seq<PendingNode>, skip: int) -> bool {
    forall|v: int, q: int|
        0 <= v < nodes.len() && v != skip && (visited[v] || suppressed[v]) && 0 <= q < children_of(nodes, v).len()
            ==> covered(visited, suppressed, stack, #[trigger] children_of(nodes, v)[q])
}

/// Every process whose parent chain ends is laid out or hidden.
spec fn roots_done(nodes: Seq<TreeNode>, visited: Seq<bool>, suppressed: Seq<bool>) -> bool {
    forall|i: int| 0 <= i < nodes.len() && #[trigger] ends_at_root(nodes, i) ==> visited[i] || suppressed[i]
}

proof fn lemma_pop_covered(
    nodes: Seq<TreeNode>,
    visited: Seq<bool>,
    suppressed: Seq<bool>,
    stack: Seq<PendingNode>,
    visited2: Seq<bool>,
    skip: int,
)
    requires
        stack.len() > 0,
        visited.len() == nodes.len(),
        visited2.len() == nodes.len(),
        suppressed.len() == nodes.len(),
        closed_except(nodes, visited, suppressed, stack, -1),
        forall|i: int| 0 <= i < nodes.len() && #[trigger] visited[i] ==> visited2[i],
        visited2[stack.last().idx as int] || suppressed[stack.last().idx as int],
        forall|i: int| 0 <= i < nodes.len() && i != skip && #[trigger] visited2[i] ==> visited[i],
    ensures
        closed_except(nodes, visited2, suppressed, stack.drop_last(), skip),
{
    reveal(closed_except);
    let t = stack.drop_last();
    assert forall|v: int, q: int|
        0 <= v < nodes.len() && v != skip && (visited2[v] || suppressed[v]) && 0 <= q < children_of(nodes, v).len()
            implies covered(visited2, suppressed, t, #[trigger] children_of(nodes, v)[q]) by {
        let c = children_of(nodes, v)[q];
        lemma_children_upto(nodes, v, nodes.len() as int);
        assert(covered(visited, suppressed, stack, c));
        if !visited[c] && !suppressed[c] {
            let w = choose|w: int| 0 <= w < stack.len() && #[trigger] stack[w].idx == c;
            if w < stack.len() - 1 {
                assert(t[w] == stack[w]);
            }
        }
    }
}

proof fn lemma_push_covered(
    nodes: Seq<TreeNode>,
    visited: Seq<bool>,
    suppressed: Seq<bool>,
    stack: Seq<PendingNode>,
    e: PendingNode,
    skip: int,
)
    requires
        closed_except(nodes, visited, suppressed, stack, skip),
    ensures
        closed_except(nodes, visited, suppressed, stack.push(e), skip),
        covered(visited, suppressed, stack.push(e), e.idx as int),
        forall|c: int| covered(visited, suppressed, stack, c) ==> #[trigger] covered(visited, suppressed, stack.push(e), c),
{
    reveal(closed_except);
    let t = stack.push(e);
    assert(t[stack.len() as int].idx == e.idx);
    assert forall|c: int| covered(visited, suppressed, stack, c) implies #[trigger] covered(visited, suppressed, t, c) by {
        if !visited[c] && !suppressed[c] {
            let w = choose|w: int| 0 <= w < stack.len() && #[trigger] stack[w].idx == c;
            assert(t[w] == stack[w]);
        }
    }
}

proof fn lemma_suppress_closed(
    nodes: Seq<TreeNode>,
    children: Seq<Vec<usize>>,
    visited: Seq<bool>,
    sup0: Seq<bool>,
    sup1: Seq<bool>,
    stack: Seq<PendingNode>,
    idx: int,
)
    requires
        children.len() == nodes.len(),
        visited.len() == nodes.len(),
        sup0.len() == nodes.len(),
        sup1.len() == nodes.len(),
        nodes.len() <= usize::MAX,
        forall|p: int| 0 <= p < nodes.len() ==> (#[trigger] children[p])@.len() == children_of(nodes, p).len()
            && forall|q: int| 0 <= q < children[p]@.len() ==> children[p]@[q] as int == children_of(nodes, p)[q],
        0 <= idx < nodes.len(),
        visited[idx],
        closed_except(nodes, visited, sup0, stack, idx),
        forall|i: int| 0 <= i < nodes.len() ==> (#[trigger] sup1[i] <==> (sup0[i] || hidden_below(children, visited, sup0, children[idx]@, i))),
    ensures
        closed_except(nodes, visited, sup1, stack, -1),
{
    reveal(closed_except);
    assert forall|v: int, q: int|
        0 <= v < nodes.len() && v != -1 && (visited[v] || sup1[v]) && 0 <= q < children_of(nodes, v).len()
            implies covered(visited, sup1, stack, #[trigger] children_of(nodes, v)[q]) by {
        let c = children_of(nodes, v)[q];
        lemma_children_upto(nodes, v, nodes.len() as int);
        assert(children[v]@[q] as int == c);
        assert(children[v]@.contains(c as usize));
        if v == idx {
            if !visited[c] && !sup0[c] {
                assert(hidden_within(children, visited, sup0, children[idx]@, c, 0));
                assert(sup1[c]);
            }
        } else if visited[v] || sup0[v] {
            assert(covered(visited, sup0, stack, c));
            if sup0[c] {
                assert(sup1[c]);
            }
        } else {
            assert(hidden_below(children, visited, sup0, children[idx]@, v));
            let k = choose|k: nat| #[trigger] hidden_within(children, visited, sup0, children[idx]@, v, k);
            if !visited[c] && !sup0[c] {
                assert(hidden_within(children, visited, sup0, children[idx]@, c, k + 1));
                assert(sup1[c]);
            } else if sup0[c] {
                assert(sup1[c]);
            }
        }
    }
}

/// With the roots done and the layout closed, every process whose parent
/// chain ends is laid out or hidden.
proof fn lemma_chain_done(nodes: Seq<TreeNode>, visited: Seq<bool>, suppressed: Seq<bool>, i: int, k: nat)
    requires
        visited.len() == nodes.len(),
        suppressed.len() == nodes.len(),
        0 <= i < nodes.len(),
        closed_except(nodes, visited, suppressed, Seq::empty(), -1),
        forall|r: int| 0 <= r < nodes.len() && #[trigger] validated_parent(nodes, r) is None ==> visited[r] || suppressed[r],
        root_at(nodes, anc(nodes, i, k)),
    ensures
        visited[i] || suppressed[i],
    decreases k,
{
    reveal(closed_except);
    if k > 0 {
        lemma_last_pos(nodes, nodes[i].parent_pid);
        let p = validated_parent(nodes, i)->0;
        lemma_chain_done(nodes, visited, suppressed, p, (k - 1) as nat);
        lemma_children_upto(nodes, p, nodes.len() as int);
        assert(children_of(nodes, p).contains(i));
        let q = choose|q: int| 0 <= q < children_of(nodes, p).len() && children_of(nodes, p)[q] == i;
        assert(covered(visited, suppressed, Seq::empty(), children_of(nodes, p)[q]));
    }
}

/// In a forest without cycles a shown process has no collapsed process
/// above it.
proof fn lemma_shown_not_below(nodes: Seq<TreeNode>, rows: Seq<DisplayRow>, i: int, m: nat)
    requires
        parent_rows_ok(nodes, rows),
        forall|k: int| 0 <= k < rows.len() ==> 0 <= #[trigger] rows[k].index < nodes.len(),
        forall|k: int|
            0 <= k < rows.len() && #[trigger] rows[k].tree_depth == 0 ==> validated_parent(nodes, rows[k].index as int) is None
                || !ends_at_root(nodes, rows[k].index as int),
        forall|j: int| 0 <= j < nodes.len() ==> #[trigger] ends_at_root(nodes, j),
        shown(rows, i),
        m >= 1,
    ensures
        !collapsed_at(nodes, anc(nodes, i, m)),
    decreases m,
{
    let k = choose|k: int| 0 <= k < rows.len() && rows[k].index == i;
    if rows[k].tree_depth == 0 {
        assert(ends_at_root(nodes, i));
    } else {
        let j = choose|j: int|
            0 <= j < k && validated_parent(nodes, rows[k].index as int) == Some(rows[j].index as int)
                && !nodes[rows[j].index as int].collapsed && rows[k].tree_depth == next_depth(#[trigger] rows[j].tree_depth);
        let p = rows[j].index as int;
        assert(anc(nodes, i, m) == anc(nodes, p, (m - 1) as nat));
        if m > 1 {
            lemma_shown_not_below(nodes, rows, p, (m - 1) as nat);
        }
    }
}

/// Laying out or hiding more processes keeps every fact of the form "this
/// process is laid out or hidden".
proof fn lemma_grow(nodes: Seq<TreeNode>, v1: Seq<bool>, s1: Seq<bool>, v2: Seq<bool>, s2: Seq<bool>, start: int)
    requires
        v1.len() == nodes.len(),
        s1.len() == nodes.len(),
        v2.len() == nodes.len(),
        s2.len() == nodes.len(),
        start <= nodes.len(),
        forall|i: int| 0 <= i < nodes.len() && #[trigger] v1[i] ==> v2[i],
        forall|i: int| 0 <= i < nodes.len() && #[trigger] s1[i] ==> s2[i],
    ensures
        roots_done(nodes, v1, s1) ==> roots_done(nodes, v2, s2),
        (forall|i: int| 0 <= i < start && #[trigger] validated_parent(nodes, i) is None ==> v1[i] || s1[i]) ==> (forall|i: int|
            0 <= i < start && #[trigger] validated_parent(nodes, i) is None ==> v2[i] || s2[i]),
        (forall|i: int| 0 <= i < start ==> #[trigger] v1[i] || s1[i]) ==> (forall|i: int| 0 <= i < start ==> #[trigger] v2[i] || s2[i]),
{
    if roots_done(nodes, v1, s1) {
        assert forall|i: int| 0 <= i < nodes.len() && #[trigger] ends_at_root(nodes, i) implies v2[i] || s2[i] by {
            assert(v1[i] || s1[i]);
        }
    }
    if forall|i: int| 0 <= i < start && #[trigger] validated_parent(nodes, i) is None ==> v1[i] || s1[i] {
        assert forall|i: int| 0 <= i < start && #[trigger] validated_parent(nodes, i) is None implies v2[i] || s2[i] by {
            assert(v1[i] || s1[i]);
        }
    }
    if forall|i: int| 0 <= i < start ==> #[trigger] v1[i] || s1[i] {
        assert forall|i: int| 0 <= i < start implies #[trigger] v2[i] || s2[i] by {
            assert(v1[i] || s1[i]);
        }
    }
}

/// The process at `x` lies below the one at `y`.
pub open spec fn desc(nodes: Seq<TreeNode>, x: int, y: int) -> bool {
    exists|m: nat| m >= 1 && #[trigger] anc(nodes, x, m) == Some(y)
}

/// Between an indented row and the row of its parent stand only rows of
/// processes below that parent: each branch is laid out in one piece.
pub open spec fn subtrees_contiguous(nodes: Seq<TreeNode>, rows: Seq<DisplayRow>) -> bool {
    forall|j: int, a: int, k: int|
        #![trigger rows[j], rows[a], rows[k]]
        0 <= j < a < k < rows.len() && rows[k].tree_depth > 0 && validated_parent(nodes, rows[k].index as int) == Some(
            rows[j].index as int,
        ) ==> desc(nodes, rows[a].index as int, rows[j].index as int)
}

/// Indented rows with the same parent come in display order.
pub open spec fn siblings_in_order(nodes: Seq<TreeNode>, rows: Seq<DisplayRow>) -> bool {
    forall|k1: int, k2: int|
        0 <= k1 < k2 < rows.len() && #[trigger] rows[k1].tree_depth > 0 && #[trigger] rows[k2].tree_depth > 0
            && validated_parent(nodes, rows[k1].index as int) == validated_parent(nodes, rows[k2].index as int)
            ==> rows[k1].index < rows[k2].index
}

/// Unindented rows come first for the processes without a parent, then for
/// the rest (which only cycles reach), each group in display order.
pub open spec fn roots_in_order(nodes: Seq<TreeNode>, rows: Seq<DisplayRow>) -> bool {
    forall|k1: int, k2: int|
        0 <= k1 < k2 < rows.len() && #[trigger] rows[k1].tree_depth == 0 && #[trigger] rows[k2].tree_depth == 0 ==> {
            let s1 = validated_parent(nodes, rows[k1].index as int) is Some;
            let s2 = validated_parent(nodes, rows[k2].index as int) is Some;
            (!s1 && s2) || (s1 == s2 && rows[k1].index < rows[k2].index)
        }
}

/// Every waiting child's parent row is followed only by rows below it.
spec fn stack_subtree_ok(nodes: Seq<TreeNode>, rows: Seq<DisplayRow>, stack: Seq<PendingNode>) -> bool {
    forall|q: int, j: int, a: int|
        #![trigger stack[q], rows[j], rows[a]]
        0 <= q < stack.len() && stack[q].depth > 0 && 0 <= j < a < rows.len() && validated_parent(nodes, stack[q].idx as int)
            == Some(rows[j].index as int) ==> desc(nodes, rows[a].index as int, rows[j].index as int)
}

/// Waiting children higher on the stack have later parent rows.
spec fn stack_rows_ordered(nodes: Seq<TreeNode>, rows: Seq<DisplayRow>, stack: Seq<PendingNode>) -> bool {
    forall|q1: int, q2: int, j1: int, j2: int|
        #![trigger stack[q1], stack[q2], rows[j1], rows[j2]]
        0 <= q1 < q2 < stack.len() && stack[q1].depth > 0 && stack[q2].depth > 0 && 0 <= j1 < rows.len() && 0 <= j2
            < rows.len() && validated_parent(nodes, stack[q1].idx as int) == Some(rows[j1].index as int) && validated_parent(
            nodes,
            stack[q2].idx as int,
        ) == Some(rows[j2].index as int) ==> j1 <= j2
}

/// Waiting siblings lie in decreasing display order up the stack, after
/// every sibling already shown.
spec fn stack_siblings_ok(nodes: Seq<TreeNode>, rows: Seq<DisplayRow>, stack: Seq<PendingNode>) -> bool {
    &&& forall|q1: int, q2: int|
        0 <= q1 < q2 < stack.len() && #[trigger] stack[q1].depth > 0 && #[trigger] stack[q2].depth > 0
            && validated_parent(nodes, stack[q1].idx as int) == validated_parent(nodes, stack[q2].idx as int)
            ==> stack[q1].idx > stack[q2].idx
    &&& forall|k: int, q: int|
        0 <= k < rows.len() && 0 <= q < stack.len() && #[trigger] rows[k].tree_depth > 0 && #[trigger] stack[q].depth > 0
            && validated_parent(nodes, rows[k].index as int) == validated_parent(nodes, stack[q].idx as int)
            ==> rows[k].index < stack[q].idx
}

/// The order facts of the layout and of the waiting entries.
#[verifier::opaque]
spec fn order_ok(nodes: Seq<TreeNode>, rows: Seq<DisplayRow>, stack: Seq<PendingNode>) -> bool {
    &&& subtrees_contiguous(nodes, rows)
    &&& siblings_in_order(nodes, rows)
    &&& roots_in_order(nodes, rows)
    &&& stack_subtree_ok(nodes, rows, stack)
    &&& stack_rows_ordered(nodes, rows, stack)
    &&& stack_siblings_ok(nodes, rows, stack)
}

proof fn lemma_order_pop(nodes: Seq<TreeNode>, rows: Seq<DisplayRow>, stack: Seq<PendingNode>)
    requires
        stack.len() > 0,
        order_ok(nodes, rows, stack),
    ensures
        order_ok(nodes, rows, stack.drop_last()),
{
    reveal(order_ok);
    let t = stack.drop_last();
    assert forall|q: int| 0 <= q < t.len() implies #[trigger] t[q] == stack[q] by {}
    assert forall|q: int, j: int, a: int|
        #![trigger t[q], rows[j], rows[a]]
        0 <= q < t.len() && t[q].depth > 0 && 0 <= j < a < rows.len() && validated_parent(nodes, t[q].idx as int)
            == Some(rows[j].index as int) implies desc(nodes, rows[a].index as int, rows[j].index as int) by {
        assert(t[q] == stack[q]);
    }
    assert forall|q1: int, q2: int, j1: int, j2: int|
        #![trigger t[q1], t[q2], rows[j1], rows[j2]]
        0 <= q1 < q2 < t.len() && t[q1].depth > 0 && t[q2].depth > 0 && 0 <= j1 < rows.len() && 0 <= j2 < rows.len()
            && validated_parent(nodes, t[q1].idx as int) == Some(rows[j1].index as int) && validated_parent(
            nodes,
            t[q2].idx as int,
        ) == Some(rows[j2].index as int) implies j1 <= j2 by {
        assert(t[q1] == stack[q1] && t[q2] == stack[q2]);
    }
    assert forall|q1: int, q2: int|
        0 <= q1 < q2 < t.len() && #[trigger] t[q1].depth > 0 && #[trigger] t[q2].depth > 0 && validated_parent(
            nodes,
            t[q1].idx as int,
        ) == validated_parent(nodes, t[q2].idx as int) implies t[q1].idx > t[q2].idx by {
        assert(t[q1] == stack[q1] && t[q2] == stack[q2]);
    }
    assert forall|k: int, q: int|
        0 <= k < rows.len() && 0 <= q < t.len() && #[trigger] rows[k].tree_depth > 0 && #[trigger] t[q].depth > 0
            && validated_parent(nodes, rows[k].index as int) == validated_parent(nodes, t[q].idx as int) implies rows[k].index
            < t[q].idx by {
        assert(t[q] == stack[q]);
    }
}

/// Showing the entry on top of the stack keeps the order facts.
proof fn lemma_order_show(nodes: Seq<TreeNode>, rows: Seq<DisplayRow>, row: DisplayRow, stack: Seq<PendingNode>)
    requires
        stack.len() > 0,
        order_ok(nodes, rows, stack),
        row.index == stack.last().idx,
        row.tree_depth == depth16(stack.last().depth),
        0 <= row.index < nodes.len(),
        forall|k: int| 0 <= k < rows.len() ==> #[trigger] rows[k].index != row.index,
        forall|q: int| 0 <= q < stack.len() && #[trigger] stack[q].depth == 0 ==> stack.len() == 1,
        forall|q: int| 0 <= q < stack.len() ==> pending_ok(nodes, rows, #[trigger] stack[q]),
        stack.last().depth == 0 ==> forall|k: int|
            0 <= k < rows.len() && #[trigger] rows[k].tree_depth == 0 ==> {
                let s1 = validated_parent(nodes, rows[k].index as int) is Some;
                let s2 = validated_parent(nodes, row.index as int) is Some;
                (!s1 && s2) || (s1 == s2 && rows[k].index < row.index)
            },
    ensures
        order_ok(nodes, rows.push(row), stack.drop_last()),
        forall|q: int|
            0 <= q < stack.len() - 1 && #[trigger] stack[q].depth > 0 ==> validated_parent(nodes, stack[q].idx as int)
                != Some(row.index as int),
{
    reveal(order_ok);
    let t = rows.push(row);
    let r = rows.len() as int;
    let st = stack.drop_last();
    let e = stack.last();
    let lq = stack.len() - 1;
    assert(stack[lq] == e);
    assert forall|q: int| 0 <= q < st.len() implies #[trigger] st[q] == stack[q] by {}
    assert forall|k: int| 0 <= k < rows.len() implies #[trigger] t[k] == rows[k] by {}
    assert(t[r] == row);
    // no waiting entry has the new row as parent
    assert forall|q: int|
        0 <= q < stack.len() - 1 && #[trigger] stack[q].depth > 0 implies validated_parent(nodes, stack[q].idx as int)
            != Some(row.index as int) by {
        assert(pending_ok(nodes, rows, stack[q]));
        let j = choose|j: int|
            0 <= j < rows.len() && validated_parent(nodes, stack[q].idx as int) == Some(rows[j].index as int)
                && !nodes[rows[j].index as int].collapsed && depth16(stack[q].depth) == next_depth(#[trigger] rows[j].tree_depth);
        assert(rows[j].index != row.index);
    }
    let je: int = if e.depth > 0 {
        assert(pending_ok(nodes, rows, e));
        choose|j: int|
            0 <= j < rows.len() && validated_parent(nodes, e.idx as int) == Some(rows[j].index as int)
                && !nodes[rows[j].index as int].collapsed && depth16(e.depth) == next_depth(#[trigger] rows[j].tree_depth)
    } else {
        0
    };
    // contiguity of the rows
    assert forall|j: int, a: int, k: int|
        #![trigger t[j], t[a], t[k]]
        0 <= j < a < k < t.len() && t[k].tree_depth > 0 && validated_parent(nodes, t[k].index as int) == Some(
            t[j].index as int,
        ) implies desc(nodes, t[a].index as int, t[j].index as int) by {
        if k < r {
            assert(rows[j] == t[j] && rows[a] == t[a] && rows[k] == t[k]);
        } else {
            assert(e.depth > 0);
            assert(t[j] == rows[j] && t[a] == rows[a]);
            assert(stack[lq].depth > 0);
        }
    }
    // siblings of the rows
    assert forall|k1: int, k2: int|
        0 <= k1 < k2 < t.len() && #[trigger] t[k1].tree_depth > 0 && #[trigger] t[k2].tree_depth > 0
            && validated_parent(nodes, t[k1].index as int) == validated_parent(nodes, t[k2].index as int) implies t[k1].index
            < t[k2].index by {
        if k2 < r {
            assert(t[k1] == rows[k1] && t[k2] == rows[k2]);
        } else {
            assert(t[k1] == rows[k1]);
            assert(stack[lq].depth > 0);
            assert(rows[k1].tree_depth > 0);
        }
    }
    // unindented rows
    assert forall|k1: int, k2: int|
        0 <= k1 < k2 < t.len() && #[trigger] t[k1].tree_depth == 0 && #[trigger] t[k2].tree_depth == 0 implies {
            let s1 = validated_parent(nodes, t[k1].index as int) is Some;
            let s2 = validated_parent(nodes, t[k2].index as int) is Some;
            (!s1 && s2) || (s1 == s2 && t[k1].index < t[k2].index)
        } by {
        if k2 < r {
            assert(t[k1] == rows[k1] && t[k2] == rows[k2]);
        } else {
            assert(t[k1] == rows[k1]);
            assert(rows[k1].tree_depth == 0);
        }
    }
    // waiting entries: parent rows followed by rows below them
    assert forall|q: int, j: int, a: int|
        #![trigger st[q], t[j], t[a]]
        0 <= q < st.len() && st[q].depth > 0 && 0 <= j < a < t.len() && validated_parent(nodes, st[q].idx as int) == Some(
            t[j].index as int,
        ) implies desc(nodes, t[a].index as int, t[j].index as int) by {
        assert(st[q] == stack[q]);
        assert(stack[q].depth > 0);
        if j == r {
            assert(t[j].index == row.index);
        }
        assert(j < r);
        assert(t[j] == rows[j]);
        if a < r {
            assert(t[a] == rows[a]);
        } else {
            assert(stack.len() > 1);
            if e.depth == 0 {
                assert(stack[lq].depth == 0);
            }
            assert(e.depth > 0);
            assert(j <= je) by {
                assert(stack[q].depth > 0 && stack[lq].depth > 0);
            }
            if j == je {
                assert(anc(nodes, row.index as int, 1) == anc(nodes, rows[je].index as int, 0));
            } else {
                assert(desc(nodes, rows[je].index as int, rows[j].index as int));
                let m = choose|m: nat| m >= 1 && #[trigger] anc(nodes, rows[je].index as int, m) == Some(rows[j].index as int);
                assert(anc(nodes, row.index as int, m + 1) == anc(nodes, rows[je].index as int, m));
            }
        }
    }
    // waiting entries: parent rows in stack order
    assert forall|q1: int, q2: int, j1: int, j2: int|
        #![trigger st[q1], st[q2], t[j1], t[j2]]
        0 <= q1 < q2 < st.len() && st[q1].depth > 0 && st[q2].depth > 0 && 0 <= j1 < t.len() && 0 <= j2 < t.len()
            && validated_parent(nodes, st[q1].idx as int) == Some(t[j1].index as int) && validated_parent(
            nodes,
            st[q2].idx as int,
        ) == Some(t[j2].index as int) implies j1 <= j2 by {
        assert(st[q1] == stack[q1] && st[q2] == stack[q2]);
        assert(stack[q1].depth > 0 && stack[q2].depth > 0);
        if j1 == r {
            assert(t[j1].index == row.index);
        }
        if j2 == r {
            assert(t[j2].index == row.index);
        }
        assert(t[j1] == rows[j1] && t[j2] == rows[j2]);
    }
    // waiting siblings
    assert forall|q1: int, q2: int|
        0 <= q1 < q2 < st.len() && #[trigger] st[q1].depth > 0 && #[trigger] st[q2].depth > 0 && validated_parent(
            nodes,
            st[q1].idx as int,
        ) == validated_parent(nodes, st[q2].idx as int) implies st[q1].idx > st[q2].idx by {
        assert(st[q1] == stack[q1] && st[q2] == stack[q2]);
    }
    assert forall|k: int, q: int|
        0 <= k < t.len() && 0 <= q < st.len() && #[trigger] t[k].tree_depth > 0 && #[trigger] st[q].depth > 0
            && validated_parent(nodes, t[k].index as int) == validated_parent(nodes, st[q].idx as int) implies t[k].index
            < st[q].idx by {
        assert(st[q] == stack[q]);
        if k < r {
            assert(t[k] == rows[k]);
        } else {
            assert(stack[lq].depth > 0);
            assert(stack[q].idx > stack[lq].idx);
        }
    }
}

/// Pushing a child of the last row keeps the order facts, when it comes
/// before every waiting sibling.
proof fn lemma_order_push(nodes: Seq<TreeNode>, rows: Seq<DisplayRow>, stack: Seq<PendingNode>, entry: PendingNode)
    requires
        order_ok(nodes, rows, stack),
        rows.len() > 0,
        entry.depth > 0,
        validated_parent(nodes, entry.idx as int) == Some(rows.last().index as int),
        forall|q: int|
            0 <= q < stack.len() && #[trigger] stack[q].depth > 0 && validated_parent(nodes, stack[q].idx as int) == Some(
                rows.last().index as int,
            ) ==> entry.idx < stack[q].idx,
        forall|a: int, b: int| 0 <= a < b < rows.len() ==> rows[a].index != rows[b].index,
        parent_rows_ok(nodes, rows),
    ensures
        order_ok(nodes, rows, stack.push(entry)),
{
    reveal(order_ok);
    let t = stack.push(entry);
    let top = stack.len() as int;
    let last = rows.len() - 1;
    assert forall|q: int| 0 <= q < stack.len() implies #[trigger] t[q] == stack[q] by {}
    assert(t[top] == entry);
    assert forall|q: int, j: int, a: int|
        #![trigger t[q], rows[j], rows[a]]
        0 <= q < t.len() && t[q].depth > 0 && 0 <= j < a < rows.len() && validated_parent(nodes, t[q].idx as int) == Some(
            rows[j].index as int,
        ) implies desc(nodes, rows[a].index as int, rows[j].index as int) by {
        if q < top {
            assert(t[q] == stack[q]);
        } else {
            assert(rows[j].index == rows[last].index);
            assert(j == last);
        }
    }
    assert forall|q1: int, q2: int, j1: int, j2: int|
        #![trigger t[q1], t[q2], rows[j1], rows[j2]]
        0 <= q1 < q2 < t.len() && t[q1].depth > 0 && t[q2].depth > 0 && 0 <= j1 < rows.len() && 0 <= j2 < rows.len()
            && validated_parent(nodes, t[q1].idx as int) == Some(rows[j1].index as int) && validated_parent(
            nodes,
            t[q2].idx as int,
        ) == Some(rows[j2].index as int) implies j1 <= j2 by {
        if q2 < top {
            assert(t[q1] == stack[q1] && t[q2] == stack[q2]);
        } else {
            assert(rows[j2].index == rows[last].index);
            if j2 != last {
                assert(rows[j2].index != rows[last].index);
            }
        }
    }
    assert forall|q1: int, q2: int|
        0 <= q1 < q2 < t.len() && #[trigger] t[q1].depth > 0 && #[trigger] t[q2].depth > 0 && validated_parent(
            nodes,
            t[q1].idx as int,
        ) == validated_parent(nodes, t[q2].idx as int) implies t[q1].idx > t[q2].idx by {
        if q2 < top {
            assert(t[q1] == stack[q1] && t[q2] == stack[q2]);
        } else {
            assert(t[q1] == stack[q1]);
            assert(stack[q1].depth > 0);
        }
    }
    assert forall|k: int, q: int|
        0 <= k < rows.len() && 0 <= q < t.len() && #[trigger] rows[k].tree_depth > 0 && #[trigger] t[q].depth > 0
            && validated_parent(nodes, rows[k].index as int) == validated_parent(nodes, t[q].idx as int) implies rows[k].index
            < t[q].idx by {
        if q < top {
            assert(t[q] == stack[q]);
        } else {
            let j = choose|j: int|
                0 <= j < k && validated_parent(nodes, rows[k].index as int) == Some(rows[j].index as int)
                    && !nodes[rows[j].index as int].collapsed && rows[k].tree_depth == next_depth(#[trigger] rows[j].tree_depth);
            assert(rows[j].index == rows[last].index);
            assert(j != last);
        }
    }
}

/// Once every child of `idx` is covered, the layout is closed.
proof fn lemma_close_idx(nodes: Seq<TreeNode>, visited: Seq<bool>, suppressed: Seq<bool>, stack: Seq<PendingNode>, idx: int)
    requires
        closed_except(nodes, visited, suppressed, stack, idx),
        forall|q: int| 0 <= q < children_of(nodes, idx).len() ==> covered(visited, suppressed, stack, #[trigger] children_of(nodes, idx)[q]),
    ensures
        closed_except(nodes, visited, suppressed, stack, -1),
{
    reveal(closed_except);
}

/// The order facts with nothing laid out and nothing waiting, and with
/// one unindented entry waiting.
proof fn lemma_order_start(nodes: Seq<TreeNode>, rows: Seq<DisplayRow>, stack: Seq<PendingNode>, e: PendingNode)
    requires
        stack.len() == 0,
        rows.len() == 0 || order_ok(nodes, rows, stack),
        e.depth == 0,
    ensures
        order_ok(nodes, rows, stack),
        order_ok(nodes, rows, stack.push(e)),
{
    reveal(order_ok);
    let t = stack.push(e);
    assert(t.len() == 1 && t[0] == e);
}

/// Rows in depth-first order, as the order facts give them.
proof fn lemma_order_rows(nodes: Seq<TreeNode>, rows: Seq<DisplayRow>, stack: Seq<PendingNode>)
    requires
        order_ok(nodes, rows, stack),
    ensures
        subtrees_contiguous(nodes, rows),
        siblings_in_order(nodes, rows),
        roots_in_order(nodes, rows),
{
    reveal(order_ok);
}

/// Showing a new process keeps the layout facts.
proof fn lemma_layout_push(
    nodes: Seq<TreeNode>,
    before_visited: Seq<bool>,
    visited: Seq<bool>,
    suppressed: Seq<bool>,
    rows: Seq<DisplayRow>,
    row: DisplayRow,
    idx: int,
)
    requires
        layout_ok(nodes, before_visited, suppressed, rows),
        0 <= idx < nodes.len(),
        visited == before_visited.update(idx, true),
        !before_visited[idx],
        !suppressed[idx],
        row.index == idx,
        row_describes(nodes, row),
        parent_rows_ok(nodes, rows.push(row)),
        row.tree_depth == 0 ==> validated_parent(nodes, idx) is None || !ends_at_root(nodes, idx),
        validated_parent(nodes, idx) is None ==> row.tree_depth == 0,
        forall|k: int| 0 <= k < rows.len() && validated_parent(nodes, #[trigger] rows[k].index as int) is None ==> rows[k].tree_depth == 0,
    ensures
        layout_ok(nodes, visited, suppressed, rows.push(row)),
        forall|k: int|
            0 <= k < rows.push(row).len() && validated_parent(nodes, #[trigger] rows.push(row)[k].index as int) is None ==> rows.push(
                row,
            )[k].tree_depth == 0,
{
    let t = rows.push(row);
    assert forall|k: int| 0 <= k < rows.len() implies #[trigger] t[k] == rows[k] by {}
    assert(t[rows.len() as int] == row);
    assert forall|i: int| 0 <= i < nodes.len() && #[trigger] visited[i] implies exists|k: int| 0 <= k < t.len() && t[k].index == i by {
        if i == idx {
            assert(t[rows.len() as int].index == i);
        } else {
            assert(before_visited[i]);
            let k = choose|k: int| 0 <= k < rows.len() && rows[k].index == i;
            assert(t[k].index == i);
        }
    }
    assert forall|k: int| 0 <= k < t.len() implies 0 <= #[trigger] t[k].index < nodes.len() && visited[t[k].index as int] by {
        if k < rows.len() {
            assert(t[k] == rows[k]);
        }
    }
    assert forall|a: int, b: int| 0 <= a < b < t.len() implies t[a].index != t[b].index by {
        if b == rows.len() {
            assert(before_visited[rows[a].index as int]);
        } else {
            assert(t[a] == rows[a] && t[b] == rows[b]);
        }
    }
    assert forall|k: int| 0 <= k < t.len() implies row_describes(nodes, #[trigger] t[k]) by {
        if k < rows.len() {
            assert(t[k] == rows[k]);
        }
    }
    assert forall|k: int| 0 <= k < t.len() && validated_parent(nodes, #[trigger] t[k].index as int) is None implies t[k].tree_depth == 0 by {
        if k < rows.len() {
            assert(t[k] == rows[k]);
        }
    }
    assert forall|k: int|
        0 <= k < t.len() && #[trigger] t[k].tree_depth == 0 implies validated_parent(nodes, t[k].index as int) is None
            || !ends_at_root(nodes, t[k].index as int) by {
        if k < rows.len() {
            assert(t[k] == rows[k]);
        }
    }
}

/// Hiding the branch below a collapsed process keeps the layout facts.
proof fn lemma_layout_suppress(
    nodes: Seq<TreeNode>,
    children: Seq<Vec<usize>>,
    visited: Seq<bool>,
    sup0: Seq<bool>,
    sup1: Seq<bool>,
    rows: Seq<DisplayRow>,
    idx: int,
)
    requires
        layout_ok(nodes, visited, sup0, rows),
        children.len() == nodes.len(),
        nodes.len() <= usize::MAX,
        forall|p: int| 0 <= p < nodes.len() ==> (#[trigger] children[p])@.len() == children_of(nodes, p).len()
            && forall|q: int| 0 <= q < children[p]@.len() ==> children[p]@[q] as int == children_of(nodes, p)[q],
        0 <= idx < nodes.len(),
        nodes[idx].collapsed,
        sup1.len() == nodes.len(),
        forall|i: int| 0 <= i < nodes.len() ==> (#[trigger] sup1[i] <==> (sup0[i] || hidden_below(children, visited, sup0, children[idx]@, i))),
    ensures
        layout_ok(nodes, visited, sup1, rows),
{
    assert forall|i: int| 0 <= i < nodes.len() implies !(visited[i] && #[trigger] sup1[i]) by {
        if sup1[i] && !sup0[i] {
            let kk = choose|kk: nat| #[trigger] hidden_within(children, visited, sup0, children[idx]@, i, kk);
        }
    }
    assert forall|i: int| 0 <= i < nodes.len() && #[trigger] sup1[i] implies collapsed_above(nodes, i) by {
        if !sup0[i] {
            let kk = choose|kk: nat| #[trigger] hidden_within(children, visited, sup0, children[idx]@, i, kk);
            lemma_hidden_has_collapsed_above(nodes, children, visited, sup0, idx, i, kk);
            let m = choose|m: nat| m >= 1 && #[trigger] anc(nodes, i, m) == Some(idx);
            assert(collapsed_at(nodes, anc(nodes, i, m)));
        }
    }
}

/// Lay out the processes as a forest, in display order: each tree from a
/// process without a (validated) parent, then whatever only cycles reach,
/// children below their parent in display order. A collapsed process is
/// shown but its descendants are not. Rows refer to positions in `nodes`.
#[verifier::rlimit(100)]
#[verifier::spinoff_prover]
pub fn build_tree(nodes: &[TreeNode]) -> (rows: Vec<DisplayRow>)
    ensures
        forall|k: int| 0 <= k < rows@.len() ==> 0 <= #[trigger] rows@[k].index < nodes@.len()
            && row_describes(nodes@, rows@[k]),
        forall|a: int, b: int| 0 <= a < b < rows@.len() ==> rows@[a].index != rows@[b].index,
        forall|k: int| 0 <= k < rows@.len() && validated_parent(nodes@, #[trigger] rows@[k].index as int) is None
            ==> rows@[k].tree_depth == 0,
        (forall|i: int| 0 <= i < nodes@.len() ==> !#[trigger] nodes@[i].collapsed) ==> forall|i: int|
            0 <= i < nodes@.len() ==> #[trigger] shown(rows@, i),
        forall|i: int| 0 <= i < nodes@.len() && !#[trigger] shown(rows@, i) ==> collapsed_above(nodes@, i),
        parent_rows_ok(nodes@, rows@),
        forall|k: int|
            0 <= k < rows@.len() && #[trigger] rows@[k].tree_depth == 0 ==> validated_parent(nodes@, rows@[k].index as int) is None
                || !ends_at_root(nodes@, rows@[k].index as int),
        (forall|j: int| 0 <= j < nodes@.len() ==> #[trigger] ends_at_root(nodes@, j)) ==> forall|i: int|
            0 <= i < nodes@.len() ==> (#[trigger] shown(rows@, i) <==> !collapsed_above(nodes@, i)),
        subtrees_contiguous(nodes@, rows@),
        siblings_in_order(nodes@, rows@),
        roots_in_order(nodes@, rows@),
{
    let n = nodes.len();
    let parents = validated_parents(nodes);
    let children = children_lists(&parents, Ghost(nodes@));
    proof {
        assert forall|p: int| 0 <= p < nodes@.len() implies forall|k: int| 0 <= k < (#[trigger] children@[p])@.len() ==> children@[p]@[k] < nodes@.len() by {
            lemma_children_upto(nodes@, p, nodes@.len() as int);
            assert forall|k: int| 0 <= k < children@[p]@.len() implies children@[p]@[k] < nodes@.len() by {
                assert(children@[p]@[k] as int == children_of(nodes@, p)[k]);
            }
        }
    }
    let mut visited: Vec<bool> = Vec::new();
    let mut suppressed: Vec<bool> = Vec::new();
    let mut j: usize = 0;
    while j < n
        invariant
            0 <= j <= n,
            visited@.len() == j,
            suppressed@.len() == j,
            forall|i: int| 0 <= i < j ==> !#[trigger] visited@[i] && !suppressed@[i],
        decreases n - j,
    {
        visited.push(false);
        suppressed.push(false);
        j = j + 1;
    }
    let mut rows: Vec<DisplayRow> = Vec::new();
    let mut stack: Vec<PendingNode> = Vec::new();
    assert(visited@.len() == nodes@.len() && suppressed@.len() == nodes@.len());
    assert(forall|i: int| 0 <= i < nodes@.len() && #[trigger] visited@[i] ==> exists|k: int| 0 <= k < rows@.len() && rows@[k].index == i);
    assert(forall|i: int| 0 <= i < nodes@.len() ==> !(visited@[i] && #[trigger] suppressed@[i]));
    assert(forall|k: int| 0 <= k < rows@.len() ==> row_describes(nodes@, #[trigger] rows@[k]));
    proof {
        assert(order_ok(nodes@, rows@, stack@)) by {
            reveal(order_ok);
        }
        assert(closed_except(nodes@, visited@, suppressed@, stack@, -1)) by {
            reveal(closed_except);
        }
    }
    let mut pass: usize = 0;
    while pass < 2
        invariant
            n == nodes@.len(),
            parents@.len() == n,
            forall|i: int| 0 <= i < n ==> match #[trigger] parents@[i] {
                Some(p) => validated_parent(nodes@, i) == Some(p as int),
                None => validated_parent(nodes@, i) is None,
            },
            children@.len() == n,
            forall|p: int| 0 <= p < n ==> (#[trigger] children@[p])@.len() == children_of(nodes@, p).len()
                && forall|k: int| 0 <= k < children@[p]@.len() ==> children@[p]@[k] as int == children_of(nodes@, p)[k],
            forall|p: int| 0 <= p < n ==> forall|k: int| 0 <= k < (#[trigger] children@[p])@.len() ==> children@[p]@[k] < n,
            layout_ok(nodes@, visited@, suppressed@, rows@),
            forall|k: int| 0 <= k < rows@.len() && validated_parent(nodes@, #[trigger] rows@[k].index as int) is None
                ==> rows@[k].tree_depth == 0,
            pass <= 2,
            pass == 2 ==> forall|i: int| 0 <= i < n ==> #[trigger] visited@[i] || suppressed@[i],
            stack@.len() == 0,
            closed_except(nodes@, visited@, suppressed@, stack@, -1),
            pass >= 1 ==> roots_done(nodes@, visited@, suppressed@),
            order_ok(nodes@, rows@, stack@),
            pass == 0 ==> rows@.len() == 0,
            pass <= 1 ==> forall|k: int|
                0 <= k < rows@.len() && #[trigger] rows@[k].tree_depth == 0 ==> validated_parent(nodes@, rows@[k].index as int) is None,
        decreases 2 - pass,
    {
        let mut start: usize = 0;
        while start < n
            invariant
                n == nodes@.len(),
                parents@.len() == n,
                forall|i: int| 0 <= i < n ==> match #[trigger] parents@[i] {
                    Some(p) => validated_parent(nodes@, i) == Some(p as int),
                    None => validated_parent(nodes@, i) is None,
                },
                children@.len() == n,
                forall|p: int| 0 <= p < n ==> (#[trigger] children@[p])@.len() == children_of(nodes@, p).len()
                    && forall|k: int| 0 <= k < children@[p]@.len() ==> children@[p]@[k] as int == children_of(nodes@, p)[k],
                forall|p: int| 0 <= p < n ==> forall|k: int| 0 <= k < (#[trigger] children@[p])@.len() ==> children@[p]@[k] < n,
                layout_ok(nodes@, visited@, suppressed@, rows@),
                forall|k: int| 0 <= k < rows@.len() && validated_parent(nodes@, #[trigger] rows@[k].index as int) is None
                    ==> rows@[k].tree_depth == 0,
                0 <= start <= n,
                pass < 2,
                pass == 1 ==> forall|i: int| 0 <= i < start ==> #[trigger] visited@[i] || suppressed@[i],
                stack@.len() == 0,
                closed_except(nodes@, visited@, suppressed@, stack@, -1),
                pass == 1 ==> roots_done(nodes@, visited@, suppressed@),
                pass == 0 ==> forall|i: int| 0 <= i < start && #[trigger] validated_parent(nodes@, i) is None ==> visited@[i] || suppressed@[i],
                order_ok(nodes@, rows@, stack@),
                forall|k: int|
                    0 <= k < rows@.len() && #[trigger] rows@[k].tree_depth == 0 ==> (pass == 0 ==> validated_parent(nodes@, rows@[k].index as int) is None
                        && rows@[k].index < start) && (pass == 1 ==> validated_parent(nodes@, rows@[k].index as int) is None
                        || rows@[k].index < start),
            decreases n - start,
        {
            if (pass == 0 && parents[start].is_some()) || visited[start] || suppressed[start] {
                start = start + 1;
                continue;
            }
            let ghost pre = stack@;
            assert(pre =~= Seq::<PendingNode>::empty());
            stack.clear();
            assert(stack@ =~= pre);
            let first_entry = PendingNode { idx: start, depth: 0, is_last: true, parent_prefix: String::new() };
            proof {
                assert(stack@ =~= Seq::<PendingNode>::empty());
                lemma_push_covered(nodes@, visited@, suppressed@, stack@, first_entry, -1);
                lemma_order_start(nodes@, rows@, stack@, first_entry);
                let one = stack@.push(first_entry);
                assert(one.len() == 1 && one[0] == first_entry);
            }
            stack.push(first_entry);
            while stack.len() > 0
                invariant
                    n == nodes@.len(),
                    children@.len() == n,
                    forall|p: int| 0 <= p < n ==> (#[trigger] children@[p])@.len() == children_of(nodes@, p).len()
                        && forall|k: int| 0 <= k < children@[p]@.len() ==> children@[p]@[k] as int == children_of(nodes@, p)[k],
                    forall|p: int| 0 <= p < n ==> forall|k: int| 0 <= k < (#[trigger] children@[p])@.len() ==> children@[p]@[k] < n,
                    layout_ok(nodes@, visited@, suppressed@, rows@),
                    forall|k: int| 0 <= k < rows@.len() && validated_parent(nodes@, #[trigger] rows@[k].index as int) is None
                        ==> rows@[k].tree_depth == 0,
                    forall|k: int| 0 <= k < stack@.len() ==> pending_ok(nodes@, rows@, #[trigger] stack@[k]),
                    0 <= start < n,
                    visited@[start as int] || (stack@.len() == 1 && stack@[0].idx == start && !suppressed@[start as int]),
                    pass == 1 ==> forall|i: int| 0 <= i < start ==> #[trigger] visited@[i] || suppressed@[i],
                    pass < 2,
                    closed_except(nodes@, visited@, suppressed@, stack@, -1),
                    pass == 1 ==> roots_done(nodes@, visited@, suppressed@),
                    pass == 0 ==> forall|i: int| 0 <= i < start && #[trigger] validated_parent(nodes@, i) is None ==> visited@[i] || suppressed@[i],
                    pass == 0 ==> validated_parent(nodes@, start as int) is None,
                    forall|q: int| 0 <= q < stack@.len() && #[trigger] stack@[q].depth == 0 ==> stack@[q].idx == start,
                    forall|q: int| 0 <= q < stack@.len() && #[trigger] stack@[q].depth == 0 ==> stack@.len() == 1,
                    order_ok(nodes@, rows@, stack@),
                    forall|k: int|
                        0 <= k < rows@.len() && #[trigger] rows@[k].tree_depth == 0 ==> (pass == 0 ==> validated_parent(nodes@, rows@[k].index as int) is None
                            && rows@[k].index <= start) && (pass == 1 ==> validated_parent(nodes@, rows@[k].index as int) is None
                            || rows@[k].index <= start),
                decreases free_count(visited@, suppressed@), stack@.len(),
            {
                let ghost old_stack = stack@;
                let pending = stack.pop().unwrap();
                proof {
                    assert(pending == old_stack[old_stack.len() - 1]);
                    assert(pending_ok(nodes@, rows@, pending));
                    assert forall|q: int| 0 <= q < stack@.len() implies pending_ok(nodes@, rows@, #[trigger] stack@[q]) by {
                        assert(stack@[q] == old_stack[q]);
                    }
                }
                let idx = pending.idx;
                if visited[idx] || suppressed[idx] {
                    proof {
                        lemma_pop_covered(nodes@, visited@, suppressed@, old_stack, visited@, -1);
                        assert(stack@ == old_stack.drop_last());
                        lemma_order_pop(nodes@, rows@, old_stack);
                        assert forall|q: int| 0 <= q < stack@.len() && #[trigger] stack@[q].depth == 0 implies stack@.len() == 1 by {
                            assert(stack@[q] == old_stack[q]);
                        }
                    }
                    continue;
                }
                proof {
                    lemma_free_count_mark(visited@, suppressed@, idx as int);
                    lemma_children_upto(nodes@, idx as int, n as int);
                }
                let ghost before_rows = rows@;
                let ghost before_visited = visited@;
                visited.set(idx, true);
                proof {
                    assert(stack@ == old_stack.drop_last());
                    lemma_pop_covered(nodes@, before_visited, suppressed@, old_stack, visited@, idx as int);
                    lemma_grow(nodes@, before_visited, suppressed@, visited@, suppressed@, start as int);
                    if pending.depth == 0 {
                        assert(idx == start);
                        if pass == 1 {
                            assert(!ends_at_root(nodes@, idx as int));
                        }
                    }
                }
                let child_slice = &children[idx];
                let is_collapsed = nodes[idx].collapsed;
                let tree_prefix = if pending.depth == 0 {
                    String::new()
                } else {
                    let mut prefix = pending.parent_prefix.clone();
                    if pending.is_last {
                        prefix.append("\u{2514}\u{2500} ");
                    } else {
                        prefix.append("\u{251c}\u{2500} ");
                    }
                    prefix
                };
                let shown_depth: u16 = if pending.depth > 65535 { 65535 } else { pending.depth as u16 };
                let row = DisplayRow {
                    index: idx,
                    tree_depth: shown_depth,
                    tree_prefix,
                    has_children: child_slice.len() > 0,
                    is_collapsed,
                    matches_search: false,
                };
                let ghost stack_now = stack@;
                proof {
                    assert(row.tree_depth == depth16(pending.depth));
                    lemma_row_pushed(nodes@, before_rows, row, stack_now);
                    assert(old_stack.last() == pending);
                    assert forall|k: int| 0 <= k < before_rows.len() implies #[trigger] before_rows[k].index != row.index by {
                        assert(before_visited[before_rows[k].index as int]);
                    }
                    if pending.depth == 0 {
                        if validated_parent(nodes@, idx as int) is None {
                            assert(root_at(nodes@, anc(nodes@, idx as int, 0)));
                            assert(ends_at_root(nodes@, idx as int));
                        }
                        assert forall|k: int|
                            0 <= k < before_rows.len() && #[trigger] before_rows[k].tree_depth == 0 implies {
                                let s1 = validated_parent(nodes@, before_rows[k].index as int) is Some;
                                let s2 = validated_parent(nodes@, row.index as int) is Some;
                                (!s1 && s2) || (s1 == s2 && before_rows[k].index < row.index)
                            } by {
                            assert(before_rows[k].index != row.index);
                        }
                    }
                    lemma_order_show(nodes@, before_rows, row, old_stack);
                    assert forall|q: int| 0 <= q < stack@.len() implies #[trigger] stack@[q] == old_stack[q] by {}
                }
                proof {
                    assert(row_describes(nodes@, row));
                    lemma_layout_push(nodes@, before_visited, visited@, suppressed@, before_rows, row, idx as int);
                }
                rows.push(row);
                if is_collapsed {
                    let ghost before_suppressed = suppressed@;
                    suppress_branch(&children, child_slice, &visited, &mut suppressed, Ghost(nodes@));
                    proof {
                        lemma_suppress_closed(nodes@, children@, visited@, before_suppressed, suppressed@, stack@, idx as int);
                        lemma_grow(nodes@, visited@, before_suppressed, visited@, suppressed@, start as int);
                        lemma_layout_suppress(nodes@, children@, visited@, before_suppressed, suppressed@, rows@, idx as int);
                    }
                    continue;
                }
                let child_parent_prefix = if pending.depth == 0 {
                    String::new()
                } else {
                    let mut prefix = pending.parent_prefix.clone();
                    if pending.is_last {
                        prefix.append("   ");
                    } else {
                        prefix.append("\u{2502}  ");
                    }
                    prefix
                };
                let child_depth = if pending.depth < usize::MAX { pending.depth + 1 } else { pending.depth };
                let count = child_slice.len();
                let mut k = count;
                while k > 0
                    invariant
                        child_slice@ == children@[idx as int]@,
                        count == child_slice@.len(),
                        0 <= idx < n,
                        n == nodes@.len(),
                        child_depth > 0,
                        children@.len() == n,
                        forall|p: int| 0 <= p < n ==> (#[trigger] children@[p])@.len() == children_of(nodes@, p).len()
                            && forall|j: int| 0 <= j < children@[p]@.len() ==> children@[p]@[j] as int == children_of(nodes@, p)[j],
                        forall|q: int| 0 <= q < children_of(nodes@, idx as int).len() ==> 0 <= #[trigger] children_of(nodes@, idx as int)[q] < n
                            && validated_parent(nodes@, children_of(nodes@, idx as int)[q]) == Some(idx as int),
                        0 <= k <= count,
                        forall|q: int| 0 <= q < stack@.len() ==> pending_ok(nodes@, rows@, #[trigger] stack@[q]),
                        rows@.len() > 0,
                        rows@[rows@.len() - 1].index == idx,
                        visited@.len() == n,
                        suppressed@.len() == n,
                        closed_except(nodes@, visited@, suppressed@, stack@, idx as int),
                        forall|q: int| k <= q < count ==> covered(visited@, suppressed@, stack@, #[trigger] children_of(nodes@, idx as int)[q]),
                        forall|q: int| 0 <= q < stack@.len() && #[trigger] stack@[q].depth == 0 ==> stack@[q].idx == start,
                        forall|q: int| 0 <= q < stack@.len() ==> #[trigger] stack@[q].depth > 0,
                        order_ok(nodes@, rows@, stack@),
                        forall|a: int, b: int| 0 <= a < b < rows@.len() ==> rows@[a].index != rows@[b].index,
                        parent_rows_ok(nodes@, rows@),
                        forall|q: int|
                            0 <= q < stack@.len() && validated_parent(nodes@, #[trigger] stack@[q].idx as int) == Some(idx as int) ==> exists|qq: int|
                                k <= qq < count && stack@[q].idx == children_of(nodes@, idx as int)[qq],
                        !nodes@[idx as int].collapsed,
                        depth16(child_depth) == next_depth(rows@[rows@.len() - 1].tree_depth),
                    decreases k,
                {
                    let child = child_slice[k - 1];
                    assert(child as int == children_of(nodes@, idx as int)[k - 1]);
                    let entry = PendingNode {
                        idx: child,
                        depth: child_depth,
                        is_last: k == count,
                        parent_prefix: child_parent_prefix.clone(),
                    };
                    let ghost before_stack = stack@;
                    proof {
                        lemma_push_covered(nodes@, visited@, suppressed@, before_stack, entry, idx as int);
                        lemma_children_upto(nodes@, idx as int, n as int);
                        assert forall|q: int|
                            0 <= q < before_stack.len() && #[trigger] before_stack[q].depth > 0 && validated_parent(nodes@, before_stack[q].idx as int)
                                == Some(rows@.last().index as int) implies entry.idx < before_stack[q].idx by {
                            let qq = choose|qq: int| k <= qq < count && before_stack[q].idx == children_of(nodes@, idx as int)[qq];
                        }
                        lemma_order_push(nodes@, rows@, before_stack, entry);
                    }
                    stack.push(entry);
                    proof {
                        assert forall|q: int| k - 1 <= q < count implies covered(visited@, suppressed@, stack@, #[trigger] children_of(nodes@, idx as int)[q]) by {
                            if q >= k {
                                assert(covered(visited@, suppressed@, before_stack, children_of(nodes@, idx as int)[q]));
                            }
                        }
                        assert forall|q: int| 0 <= q < stack@.len() && #[trigger] stack@[q].depth == 0 implies stack@[q].idx == start by {
                            if q < before_stack.len() {
                                assert(stack@[q] == before_stack[q]);
                            }
                        }
                        assert forall|q: int| 0 <= q < stack@.len() implies #[trigger] stack@[q].depth > 0 by {
                            if q < before_stack.len() {
                                assert(stack@[q] == before_stack[q]);
                            }
                        }
                        assert forall|q: int|
                            0 <= q < stack@.len() && validated_parent(nodes@, #[trigger] stack@[q].idx as int) == Some(idx as int) implies exists|qq: int|
                                k - 1 <= qq < count && stack@[q].idx == children_of(nodes@, idx as int)[qq] by {
                            if q < before_stack.len() {
                                assert(stack@[q] == before_stack[q]);
                                let qq = choose|qq: int| k <= qq < count && before_stack[q].idx == children_of(nodes@, idx as int)[qq];
                            } else {
                                assert(stack@[q].idx == children_of(nodes@, idx as int)[k - 1]);
                            }
                        }
                    }
                    k = k - 1;
                }
                proof {
                    lemma_close_idx(nodes@, visited@, suppressed@, stack@, idx as int);
                }
            }
            proof {
                assert(visited@[start as int]);
            }
            start = start + 1;
        }
        proof {
            if pass == 0 {
                assert forall|k: int|
                    0 <= k < rows@.len() && #[trigger] rows@[k].tree_depth == 0 implies validated_parent(nodes@, rows@[k].index as int) is None by {}
                assert(stack@ =~= Seq::<PendingNode>::empty());
                assert forall|i: int| 0 <= i < n && #[trigger] ends_at_root(nodes@, i) implies visited@[i] || suppressed@[i] by {
                    let k = choose|k: nat| root_at(nodes@, #[trigger] anc(nodes@, i, k));
                    lemma_chain_done(nodes@, visited@, suppressed@, i, k);
                }
            }
        }
        pass = pass + 1;
    }
    proof {
        assert forall|k: int| 0 <= k < rows@.len() implies 0 <= #[trigger] rows@[k].index < nodes@.len()
            && row_describes(nodes@, rows@[k]) by {}
        assert forall|i: int| 0 <= i < nodes@.len() && !#[trigger] shown(rows@, i) implies collapsed_above(nodes@, i) by {
            assert(visited@[i] || suppressed@[i]);
            if visited@[i] {
                let k = choose|k: int| 0 <= k < rows@.len() && rows@[k].index == i;
            }
        }
        lemma_order_rows(nodes@, rows@, stack@);
        if forall|j: int| 0 <= j < nodes@.len() ==> #[trigger] ends_at_root(nodes@, j) {
            assert forall|i: int| 0 <= i < nodes@.len() && #[trigger] shown(rows@, i) implies !collapsed_above(nodes@, i) by {
                if collapsed_above(nodes@, i) {
                    let m = choose|m: nat| m >= 1 && collapsed_at(nodes@, #[trigger] anc(nodes@, i, m));
                    lemma_shown_not_below(nodes@, rows@, i, m);
                }
            }
        }
        if forall|i: int| 0 <= i < nodes@.len() ==> !#[trigger] nodes@[i].collapsed {
            assert forall|i: int| 0 <= i < nodes@.len() implies #[trigger] shown(rows@, i) by {
                assert(visited@[i] || suppressed@[i]);
                assert(!suppressed@[i]);
            }
        }
    }
    rows
}

} // verus!
