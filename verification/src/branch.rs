//! The branch of a process: the process itself and every process below it
//! in the tree, as tagging a whole branch collects it. Parent links are
//! recorded per pid (the last process with a pid and a valid parent link
//! decides), and the branch is walked with a worklist that visits each pid
//! once.

use vstd::prelude::*;
use std::collections::HashMap;
use crate::system::ProcessIdentity;
use crate::tree::{TreeNode, last_pos, lemma_last_pos, validated_parent, validated_parents};

verus! {

broadcast use vstd::std_specs::hash::group_hash_axioms;

/// The parent pid recorded for pid `c` by the first `n` processes: that of
/// the last of them with pid `c` and a valid parent link.
pub open spec fn pid_parent_upto(nodes: Seq<TreeNode>, c: u32, n: int) -> Option<u32>
    decreases n,
{
    if n <= 0 {
        None
    } else if nodes[n - 1].pid == c && validated_parent(nodes, n - 1) is Some {
        Some(nodes[n - 1].parent_pid)
    } else {
        pid_parent_upto(nodes, c, n - 1)
    }
}

/// The parent pid recorded for pid `c`.
pub open spec fn pid_parent(nodes: Seq<TreeNode>, c: u32) -> Option<u32> {
    pid_parent_upto(nodes, c, nodes.len() as int)
}

/// The pid reached from `p` by following `k` parent links.
pub open spec fn ancestor(nodes: Seq<TreeNode>, p: u32, k: nat) -> Option<u32>
    decreases k,
{
    if k == 0 {
        Some(p)
    } else {
        match pid_parent(nodes, p) {
            Some(q) => ancestor(nodes, q, (k - 1) as nat),
            None => None,
        }
    }
}

/// `p` is `root` or lies below it.
pub open spec fn in_branch(nodes: Seq<TreeNode>, root: u32, p: u32) -> bool {
    exists|k: nat| #[trigger] ancestor(nodes, p, k) == Some(root)
}

/// The first position of `pid`.
pub open spec fn first_pos(nodes: Seq<TreeNode>, pid: u32) -> Option<int>
    decreases nodes.len(),
{
    if nodes.len() == 0 {
        None
    } else if nodes[0].pid == pid {
        Some(0)
    } else {
        match first_pos(nodes.drop_first(), pid) {
            Some(p) => Some(p + 1),
            None => None,
        }
    }
}

pub open spec fn identity_of(n: TreeNode) -> ProcessIdentity {
    ProcessIdentity { pid: n.pid, create_time_100ns: n.create_time_100ns }
}

/// Some process has identity `id`.
pub open spec fn is_listed(nodes: Seq<TreeNode>, id: ProcessIdentity) -> bool {
    exists|i: int| 0 <= i < nodes.len() && #[trigger] identity_of(nodes[i]) == id
}

pub proof fn lemma_first_pos(nodes: Seq<TreeNode>, pid: u32)
    ensures
        match first_pos(nodes, pid) {
            Some(f) => 0 <= f < nodes.len() && nodes[f].pid == pid && forall|k: int| 0 <= k < f ==> nodes[k].pid != pid,
            None => forall|k: int| 0 <= k < nodes.len() ==> nodes[k].pid != pid,
        },
    decreases nodes.len(),
{
    if nodes.len() > 0 {
        lemma_first_pos(nodes.drop_first(), pid);
        assert forall|k: int| 1 <= k < nodes.len() implies nodes[k] == nodes.drop_first()[k - 1] by {}
    }
}

proof fn lemma_pid_parent_upto(nodes: Seq<TreeNode>, c: u32, n: int)
    requires
        n <= nodes.len(),
    ensures
        pid_parent_upto(nodes, c, n) matches Some(q) ==> exists|i: int|
            0 <= i < n && nodes[i].pid == c && #[trigger] validated_parent(nodes, i) is Some && nodes[i].parent_pid
                == q,
    decreases n,
{
    if n > 0 {
        lemma_pid_parent_upto(nodes, c, n - 1);
    }
}

/// A recorded parent pid belongs to a listed process.
proof fn lemma_parent_listed(nodes: Seq<TreeNode>, c: u32)
    ensures
        pid_parent(nodes, c) matches Some(q) ==> first_pos(nodes, q) is Some,
{
    lemma_pid_parent_upto(nodes, c, nodes.len() as int);
    if let Some(q) = pid_parent(nodes, c) {
        let i = choose|i: int|
            0 <= i < nodes.len() && nodes[i].pid == c && #[trigger] validated_parent(nodes, i) is Some
                && nodes[i].parent_pid == q;
        lemma_last_pos(nodes, q);
        lemma_first_pos(nodes, q);
        let p = last_pos(nodes, q)->0;
        assert(nodes[p].pid == q);
    }
}

/// The recorded parent pid of every pid.
fn pid_parent_index(nodes: &[TreeNode]) -> (m: HashMap<u32, u32>)
    ensures
        forall|c: u32| #[trigger] m@.contains_key(c) <==> pid_parent(nodes@, c) is Some,
        forall|c: u32| #[trigger] m@.contains_key(c) ==> pid_parent(nodes@, c) == Some(m@[c]),
{
    let parents = validated_parents(nodes);
    let mut m: HashMap<u32, u32> = HashMap::new();
    let mut i: usize = 0;
    while i < nodes.len()
        invariant
            i <= nodes.len(),
            parents@.len() == nodes@.len(),
            forall|k: int| 0 <= k < nodes@.len() ==> match #[trigger] parents@[k] {
                Some(p) => validated_parent(nodes@, k) == Some(p as int),
                None => validated_parent(nodes@, k) is None,
            },
            forall|c: u32| #[trigger] m@.contains_key(c) <==> pid_parent_upto(nodes@, c, i as int) is Some,
            forall|c: u32| #[trigger] m@.contains_key(c) ==> pid_parent_upto(nodes@, c, i as int) == Some(m@[c]),
        decreases nodes.len() - i,
    {
        if parents[i].is_some() {
            m.insert(nodes[i].pid, nodes[i].parent_pid);
        }
        i = i + 1;
    }
    m
}

/// The first position of `pid`, by a scan.
fn first_position(nodes: &[TreeNode], pid: u32) -> (r: Option<usize>)
    ensures
        match r {
            Some(f) => first_pos(nodes@, pid) == Some(f as int),
            None => first_pos(nodes@, pid) is None,
        },
{
    proof {
        lemma_first_pos(nodes@, pid);
    }
    let mut i: usize = 0;
    while i < nodes.len()
        invariant
            i <= nodes.len(),
            forall|k: int| 0 <= k < i ==> nodes@[k].pid != pid,
            match first_pos(nodes@, pid) {
                Some(f) => 0 <= f < nodes@.len() && nodes@[f].pid == pid && forall|k: int|
                    0 <= k < f ==> nodes@[k].pid != pid,
                None => forall|k: int| 0 <= k < nodes@.len() ==> nodes@[k].pid != pid,
            },
        decreases nodes.len() - i,
    {
        if nodes[i].pid == pid {
            return Some(i);
        }
        i = i + 1;
    }
    None
}

pub open spec fn count_true(s: Seq<bool>) -> nat
    decreases s.len(),
{
    if s.len() == 0 {
        0
    } else {
        count_true(s.drop_last()) + if s.last() { 1nat } else { 0nat }
    }
}

proof fn lemma_count_true(s: Seq<bool>, i: int)
    requires
        0 <= i < s.len(),
        !s[i],
    ensures
        count_true(s) < s.len(),
        count_true(s.update(i, true)) == count_true(s) + 1,
    decreases s.len(),
{
    lemma_count_bound(s.drop_last());
    if i < s.len() - 1 {
        lemma_count_true(s.drop_last(), i);
        assert(s.update(i, true).drop_last() =~= s.drop_last().update(i, true));
    } else {
        assert(s.update(i, true).drop_last() =~= s.drop_last());
    }
}

proof fn lemma_count_none(s: Seq<bool>)
    requires
        forall|i: int| 0 <= i < s.len() ==> !s[i],
    ensures
        count_true(s) == 0,
    decreases s.len(),
{
    if s.len() > 0 {
        lemma_count_none(s.drop_last());
    }
}

proof fn lemma_count_bound(s: Seq<bool>)
    ensures
        count_true(s) <= s.len(),
    decreases s.len(),
{
    if s.len() > 0 {
        lemma_count_bound(s.drop_last());
    }
}

/// Pid `c` is visited or still waiting.
pub open spec fn covered(nodes: Seq<TreeNode>, seen: Seq<bool>, pending: Seq<u32>, c: u32) -> bool {
    (first_pos(nodes, c) matches Some(f) && seen[f]) || pending.contains(c)
}

/// Every child of a visited pid is visited or waiting.
pub open spec fn closed(nodes: Seq<TreeNode>, seen: Seq<bool>, pending: Seq<u32>) -> bool {
    forall|i: int, j: int|
        #![trigger seen[i], nodes[j]]
        0 <= i < nodes.len() && 0 <= j < nodes.len() && seen[i] && pid_parent(nodes, nodes[j].pid) == Some(
            nodes[i].pid,
        ) ==> covered(nodes, seen, pending, nodes[j].pid)
}

proof fn lemma_contains_after_pop(s: Seq<u32>, c: u32)
    requires
        s.len() > 0,
        s.contains(c),
        c != s.last(),
    ensures
        s.drop_last().contains(c),
{
    let k = choose|k: int| 0 <= k < s.len() && s[k] == c;
    assert(s.drop_last()[k] == c);
}

proof fn lemma_contains_prefix(s: Seq<u32>, t: Seq<u32>, c: u32)
    requires
        s.contains(c),
        t.len() >= s.len(),
        t.subrange(0, s.len() as int) == s,
    ensures
        t.contains(c),
{
    let k = choose|k: int| 0 <= k < s.len() && s[k] == c;
    assert(t.subrange(0, s.len() as int)[k] == t[k]);
}

/// Walking up from a pid of the branch reaches a visited pid at every
/// step, when the visited set is closed and holds the root.
proof fn lemma_branch_seen(nodes: Seq<TreeNode>, seen: Seq<bool>, root: u32, p: u32, k: nat)
    requires
        seen.len() == nodes.len(),
        closed(nodes, seen, Seq::empty()),
        first_pos(nodes, root) matches Some(f) && seen[f],
        first_pos(nodes, p) is Some,
        ancestor(nodes, p, k) == Some(root),
    ensures
        seen[first_pos(nodes, p)->0],
    decreases k,
{
    if k > 0 {
        let q = pid_parent(nodes, p)->0;
        lemma_parent_listed(nodes, p);
        lemma_branch_seen(nodes, seen, root, q, (k - 1) as nat);
        lemma_first_pos(nodes, q);
        lemma_first_pos(nodes, p);
        let i = first_pos(nodes, q)->0;
        let j = first_pos(nodes, p)->0;
        assert(seen[i] && nodes[j].pid == p);
        assert(covered(nodes, seen, Seq::empty(), nodes[j].pid));
    }
}

/// The identities of the branch rooted at `root`: nothing when no process
/// has that identity, else one entry per pid of the branch (the first
/// process with that pid), the root's first.
pub fn branch_identities(nodes: &[TreeNode], root: ProcessIdentity) -> (r: Vec<ProcessIdentity>)
    ensures
        !is_listed(nodes@, root) ==> r@.len() == 0,
        is_listed(nodes@, root) ==> r@.len() > 0 && r@[0].pid == root.pid,
        forall|k: int|
            0 <= k < r@.len() ==> in_branch(nodes@, root.pid, #[trigger] r@[k].pid) && (first_pos(
                nodes@,
                r@[k].pid,
            ) matches Some(f) && r@[k] == identity_of(nodes@[f])),
        forall|a: int, b: int| 0 <= a < b < r@.len() ==> #[trigger] r@[a].pid != #[trigger] r@[b].pid,
        is_listed(nodes@, root) ==> forall|i: int|
            0 <= i < nodes@.len() && in_branch(nodes@, root.pid, #[trigger] nodes@[i].pid) ==> exists|k: int|
                0 <= k < r@.len() && r@[k].pid == nodes@[i].pid,
{
    let ghost g = nodes@;
    let mut found = false;
    let mut i: usize = 0;
    while i < nodes.len()
        invariant
            g == nodes@,
            i <= nodes.len(),
            found <==> exists|k: int| 0 <= k < i && #[trigger] identity_of(g[k]) == root,
        decreases nodes.len() - i,
    {
        if nodes[i].pid == root.pid && nodes[i].create_time_100ns == root.create_time_100ns {
            found = true;
            assert(identity_of(g[i as int]) == root);
        }
        i = i + 1;
    }
    if !found {
        return Vec::new();
    }
    let ghost w = choose|k: int| 0 <= k < g.len() && #[trigger] identity_of(g[k]) == root;
    proof {
        lemma_first_pos(g, root.pid);
        assert(g[w].pid == root.pid);
        assert(ancestor(g, root.pid, 0) == Some(root.pid));
    }
    let parent_of = pid_parent_index(nodes);
    let n = nodes.len();
    let mut seen: Vec<bool> = Vec::new();
    let mut s: usize = 0;
    while s < n
        invariant
            s <= n,
            seen@ =~= Seq::new(s as nat, |k: int| false),
        decreases n - s,
    {
        seen.push(false);
        s = s + 1;
    }
    proof {
        lemma_count_none(seen@);
    }
    let mut visited: usize = 0;
    let mut result: Vec<ProcessIdentity> = Vec::new();
    let mut pending: Vec<u32> = Vec::new();
    pending.push(root.pid);
    assert(pending@[0] == root.pid);
    while pending.len() > 0
        invariant
            n == g.len(),
            g == nodes@,
            seen@.len() == n,
            first_pos(g, root.pid) is Some,
            forall|c: u32| #[trigger] parent_of@.contains_key(c) <==> pid_parent(g, c) is Some,
            forall|c: u32| #[trigger] parent_of@.contains_key(c) ==> pid_parent(g, c) == Some(parent_of@[c]),
            visited as nat == count_true(seen@),
            forall|k: int|
                0 <= k < pending@.len() ==> first_pos(g, #[trigger] pending@[k]) is Some && in_branch(
                    g,
                    root.pid,
                    pending@[k],
                ),
            forall|i: int|
                0 <= i < n && #[trigger] seen@[i] ==> first_pos(g, g[i].pid) == Some(i) && in_branch(
                    g,
                    root.pid,
                    g[i].pid,
                ),
            forall|k: int|
                0 <= k < result@.len() ==> (first_pos(g, #[trigger] result@[k].pid) matches Some(f) && seen@[f]
                    && result@[k] == identity_of(g[f])),
            forall|a: int, b: int| 0 <= a < b < result@.len() ==> #[trigger] result@[a].pid != #[trigger] result@[b].pid,
            forall|i: int|
                0 <= i < n && #[trigger] seen@[i] ==> exists|k: int| 0 <= k < result@.len() && result@[k].pid == g[i].pid,
            closed(g, seen@, pending@),
            covered(g, seen@, pending@, root.pid),
            result@.len() == 0 ==> pending@ == seq![root.pid] && forall|i: int| 0 <= i < n ==> !seen@[i],
            result@.len() > 0 ==> result@[0].pid == root.pid,
        decreases n - visited, pending.len(),
    {
        let ghost before_pending = pending@;
        let ghost before_seen = seen@;
        let p = pending.pop().unwrap();
        assert(pending@ == before_pending.drop_last());
        assert(p == before_pending[before_pending.len() - 1]);
        proof {
            lemma_first_pos(g, p);
        }
        let f = match first_position(nodes, p) {
            Some(f) => f,
            None => {
                assert(false);
                0
            },
        };
        if seen[f] {
            proof {
                assert forall|i: int, j: int|
                    #![trigger seen@[i], g[j]]
                    0 <= i < n && 0 <= j < n && seen@[i] && pid_parent(g, g[j].pid) == Some(g[i].pid) implies covered(
                        g,
                        seen@,
                        pending@,
                        g[j].pid,
                    ) by {
                    assert(covered(g, seen@, before_pending, g[j].pid));
                    if before_pending.contains(g[j].pid) && g[j].pid != p {
                        lemma_contains_after_pop(before_pending, g[j].pid);
                    }
                }
                if before_pending.contains(root.pid) && root.pid != p {
                    lemma_contains_after_pop(before_pending, root.pid);
                }
            }
            continue;
        }
        proof {
            lemma_count_true(seen@, f as int);
        }
        seen.set(f, true);
        visited = visited + 1;
        let id = ProcessIdentity { pid: nodes[f].pid, create_time_100ns: nodes[f].create_time_100ns };
        let ghost before_result = result@;
        result.push(id);
        proof {
            assert forall|a: int, b: int| 0 <= a < b < result@.len() implies #[trigger] result@[a].pid
                != #[trigger] result@[b].pid by {
                if b == result@.len() - 1 {
                    assert(result@[a] == before_result[a]);
                }
            }
        }
        let ghost mid = pending@;
        let ghost kp: nat = choose|kp: nat| #[trigger] ancestor(g, p, kp) == Some(root.pid);
        let mut j: usize = 0;
        while j < n
            invariant
                n == g.len(),
                g == nodes@,
                j <= n,
                forall|c: u32| #[trigger] parent_of@.contains_key(c) <==> pid_parent(g, c) is Some,
                forall|c: u32| #[trigger] parent_of@.contains_key(c) ==> pid_parent(g, c) == Some(parent_of@[c]),
                ancestor(g, p, kp) == Some(root.pid),
                pending@.len() >= mid.len(),
                pending@.subrange(0, mid.len() as int) == mid,
                forall|k: int|
                    0 <= k < pending@.len() ==> first_pos(g, #[trigger] pending@[k]) is Some && in_branch(
                        g,
                        root.pid,
                        pending@[k],
                    ),
                forall|k: int| 0 <= k < j && pid_parent(g, #[trigger] g[k].pid) == Some(p) ==> pending@.contains(g[k].pid),
            decreases n - j,
        {
            let c = nodes[j].pid;
            match parent_of.get(&c) {
                Some(q) => {
                    if *q == p {
                        let ghost before_push = pending@;
                        pending.push(c);
                        proof {
                            assert(pending@[pending@.len() - 1] == c);
                            lemma_first_pos(g, c);
                            assert(ancestor(g, c, kp + 1) == Some(root.pid));
                            assert(pending@.subrange(0, mid.len() as int) =~= before_push.subrange(0, mid.len() as int));
                            assert forall|k: int| 0 <= k < j && pid_parent(g, #[trigger] g[k].pid) == Some(p) implies pending@.contains(
                                g[k].pid,
                            ) by {
                                let t = choose|t: int| 0 <= t < before_push.len() && before_push[t] == g[k].pid;
                                assert(pending@[t] == g[k].pid);
                            }
                        }
                    }
                },
                None => {},
            }
            j = j + 1;
        }
        proof {
            let sn = seen@;
            let pn = pending@;
            assert forall|i: int, jj: int|
                #![trigger sn[i], g[jj]]
                0 <= i < n && 0 <= jj < n && sn[i] && pid_parent(g, g[jj].pid) == Some(g[i].pid) implies covered(
                    g,
                    sn,
                    pn,
                    g[jj].pid,
                ) by {
                let c = g[jj].pid;
                lemma_first_pos(g, c);
                if i == f {
                    assert(pn.contains(c));
                } else {
                    assert(before_seen[i]);
                    assert(covered(g, before_seen, before_pending, c));
                    if first_pos(g, c) is Some && before_seen[first_pos(g, c)->0] {
                        assert(sn[first_pos(g, c)->0]);
                    } else if c == p {
                        assert(sn[f as int]);
                    } else {
                        lemma_contains_after_pop(before_pending, c);
                        lemma_contains_prefix(mid, pn, c);
                    }
                }
            }
            lemma_first_pos(g, root.pid);
            if root.pid == p {
                assert(sn[f as int]);
            } else if before_seen[first_pos(g, root.pid)->0] {
                assert(sn[first_pos(g, root.pid)->0]);
            } else {
                lemma_contains_after_pop(before_pending, root.pid);
                lemma_contains_prefix(mid, pn, root.pid);
            }
            assert forall|i: int| 0 <= i < n && #[trigger] sn[i] implies exists|k: int|
                0 <= k < result@.len() && result@[k].pid == g[i].pid by {
                if i == f {
                    assert(result@[result@.len() - 1].pid == g[i].pid);
                } else {
                    assert(before_seen[i]);
                    let k = choose|k: int| 0 <= k < before_result.len() && before_result[k].pid == g[i].pid;
                    assert(result@[k] == before_result[k]);
                }
            }
            assert forall|k: int| 0 <= k < result@.len() implies (first_pos(g, #[trigger] result@[k].pid) matches Some(
                ff,
            ) && sn[ff] && result@[k] == identity_of(g[ff])) by {
                lemma_first_pos(g, result@[k].pid);
                if k < before_result.len() {
                    assert(result@[k] == before_result[k]);
                }
            }
        }
    }
    proof {
        assert(pending@ =~= Seq::<u32>::empty());
        assert forall|i: int| 0 <= i < n && in_branch(g, root.pid, #[trigger] g[i].pid) implies exists|k: int|
            0 <= k < result@.len() && result@[k].pid == g[i].pid by {
            let k = choose|k: nat| #[trigger] ancestor(g, g[i].pid, k) == Some(root.pid);
            lemma_first_pos(g, g[i].pid);
            lemma_branch_seen(g, seen@, root.pid, g[i].pid, k);
            let fi = first_pos(g, g[i].pid)->0;
            assert(seen@[fi]);
        }
        assert forall|k: int| 0 <= k < result@.len() implies in_branch(g, root.pid, #[trigger] result@[k].pid) by {
            lemma_first_pos(g, result@[k].pid);
            let f = first_pos(g, result@[k].pid)->0;
            assert(seen@[f]);
        }
    }
    result
}

/// The first row of `displayed` (pids in display order) showing `pid`.
pub open spec fn first_row(displayed: Seq<u32>, pid: u32) -> Option<int>
    decreases displayed.len(),
{
    if displayed.len() == 0 {
        None
    } else if displayed[0] == pid {
        Some(0)
    } else {
        match first_row(displayed.drop_first(), pid) {
            Some(k) => Some(k + 1),
            None => None,
        }
    }
}

proof fn lemma_first_row(displayed: Seq<u32>, pid: u32)
    ensures
        match first_row(displayed, pid) {
            Some(k) => 0 <= k < displayed.len() && displayed[k] == pid && forall|j: int| 0 <= j < k ==> displayed[j] != pid,
            None => forall|j: int| 0 <= j < displayed.len() ==> displayed[j] != pid,
        },
    decreases displayed.len(),
{
    if displayed.len() > 0 {
        lemma_first_row(displayed.drop_first(), pid);
        assert forall|j: int| 1 <= j < displayed.len() implies displayed[j] == displayed.drop_first()[j - 1] by {}
    }
}

/// Where collapsing to the parent of process `pid` moves the selection: the
/// first displayed row of its recorded parent, if it has one and that
/// parent is displayed.
pub fn collapse_target(nodes: &[TreeNode], displayed: &[u32], pid: u32) -> (r: Option<usize>)
    ensures
        r == match pid_parent(nodes@, pid) {
            Some(q) => match first_row(displayed@, q) {
                Some(k) => Some(k as usize),
                None => None::<usize>,
            },
            None => None::<usize>,
        },
{
    let parent_of = pid_parent_index(nodes);
    let q = match parent_of.get(&pid) {
        Some(q) => *q,
        None => {
            return None;
        },
    };
    proof {
        lemma_first_row(displayed@, q);
    }
    let mut k: usize = 0;
    while k < displayed.len()
        invariant
            pid_parent(nodes@, pid) == Some(q),
            k <= displayed.len(),
            forall|j: int| 0 <= j < k ==> displayed@[j] != q,
            match first_row(displayed@, q) {
                Some(f) => 0 <= f < displayed@.len() && displayed@[f] == q && forall|j: int|
                    0 <= j < f ==> displayed@[j] != q,
                None => forall|j: int| 0 <= j < displayed@.len() ==> displayed@[j] != q,
            },
        decreases displayed.len() - k,
    {
        if displayed[k] == q {
            assert(first_row(displayed@, q) == Some(k as int));
            return Some(k);
        }
        k = k + 1;
    }
    None
}

} // verus!
