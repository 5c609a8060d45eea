use std::collections::{HashMap, HashSet};

use htop_win::tree::{build_tree, validated_parents, TreeNode};

fn node(pid: u32, parent_pid: u32) -> TreeNode {
    TreeNode {
        pid,
        parent_pid,
        create_time_100ns: 10_000 + pid as u64,
        collapsed: false,
    }
}

#[test]
fn collapsed_tree_suppresses_entire_branch() {
    let mut nodes = vec![node(1, 0), node(2, 1), node(3, 2), node(4, 0)];
    nodes[0].collapsed = true;
    let rows = build_tree(&nodes);
    let pids: Vec<u32> = rows.iter().map(|r| nodes[r.index].pid).collect();
    assert_eq!(pids, [1, 4]);
    assert!(rows[0].is_collapsed && rows[0].has_children);
}

#[test]
fn deep_tree_keeps_every_node_without_recursion_limit() {
    let nodes: Vec<TreeNode> = (1..=80)
        .map(|pid| node(pid, if pid == 1 { 0 } else { pid - 1 }))
        .collect();
    let rows = build_tree(&nodes);
    assert_eq!(rows.len(), 80);
    assert_eq!(rows.last().unwrap().tree_depth, 79);
}

#[test]
fn tree_cycle_emits_each_process_once() {
    let mut nodes = vec![node(1, 2), node(2, 1), node(3, 0)];
    for n in &mut nodes {
        n.create_time_100ns = 100;
    }
    let rows = build_tree(&nodes);
    let mut seen: Vec<usize> = rows.iter().map(|r| r.index).collect();
    seen.sort_unstable();
    assert_eq!(seen, [0, 1, 2]);
}

#[test]
fn parent_edges_are_validated_by_creation_time() {
    for (parent_time, child_time, linked) in [
        (200, 100, false),
        (0, 100, false),
        (100, 0, false),
        (100, 100, true),
        (100, 200, true),
    ] {
        let mut nodes = vec![node(1, 0), node(2, 1), node(3, 2)];
        nodes[0].create_time_100ns = parent_time;
        nodes[1].create_time_100ns = child_time;
        nodes[2].create_time_100ns = child_time + 1;
        let rows = build_tree(&nodes);
        assert_eq!(usize::from(rows[1].tree_depth), usize::from(linked));
        assert_eq!(validated_parents(&nodes)[1], if linked { Some(0) } else { None });
    }
}

#[test]
fn children_are_drawn_with_branch_glyphs() {
    let nodes = vec![node(1, 0), node(2, 1), node(3, 1), node(4, 3)];
    let rows = build_tree(&nodes);
    let drawn: Vec<(u32, &str)> = rows
        .iter()
        .map(|r| (nodes[r.index].pid, r.tree_prefix.as_str()))
        .collect();
    assert_eq!(
        drawn,
        [(1, ""), (2, "\u{251c}\u{2500} "), (3, "\u{2514}\u{2500} "), (4, "   \u{2514}\u{2500} ")]
    );
}

/// Straightforward pid-keyed layout used as the oracle for `build_tree`.
fn reference_build_tree(nodes: &[TreeNode]) -> Vec<(u32, u16, String, bool, bool)> {
    struct PendingNode {
        pid: u32,
        depth: usize,
        is_last: bool,
        parent_prefix: String,
    }

    let times: HashMap<u32, u64> = nodes.iter().map(|n| (n.pid, n.create_time_100ns)).collect();
    let parents: HashMap<u32, u32> = nodes
        .iter()
        .filter_map(|child| {
            let parent_time = *times.get(&child.parent_pid)?;
            if child.parent_pid != 0
                && child.parent_pid != child.pid
                && parent_time != 0
                && child.create_time_100ns != 0
                && parent_time <= child.create_time_100ns
            {
                Some((child.pid, child.parent_pid))
            } else {
                None
            }
        })
        .collect();
    let order: Vec<u32> = nodes.iter().map(|n| n.pid).collect();
    let roots: Vec<u32> = nodes
        .iter()
        .filter(|n| !parents.contains_key(&n.pid))
        .map(|n| n.pid)
        .collect();
    let mut children: HashMap<u32, Vec<u32>> = HashMap::new();
    let mut by_pid: HashMap<u32, TreeNode> = HashMap::new();
    for n in nodes {
        if let Some(parent) = parents.get(&n.pid) {
            children.entry(*parent).or_default().push(n.pid);
        }
        by_pid.insert(n.pid, n.clone());
    }

    let mut result = Vec::new();
    let mut visited = HashSet::new();
    let mut suppressed = HashSet::new();
    let mut component_roots = roots;
    component_roots.extend(order.iter().copied());
    for root_pid in component_roots {
        if visited.contains(&root_pid) || suppressed.contains(&root_pid) {
            continue;
        }
        let mut stack = vec![PendingNode {
            pid: root_pid,
            depth: 0,
            is_last: true,
            parent_prefix: String::new(),
        }];
        while let Some(pending) = stack.pop() {
            if !visited.insert(pending.pid) || suppressed.contains(&pending.pid) {
                continue;
            }
            let Some(node) = by_pid.remove(&pending.pid) else {
                continue;
            };
            let child_pids = children.remove(&pending.pid).unwrap_or_default();
            let is_collapsed = node.collapsed;
            let tree_prefix = if pending.depth == 0 {
                String::new()
            } else {
                let branch = if pending.is_last { "\u{2514}\u{2500} " } else { "\u{251c}\u{2500} " };
                format!("{}{}", pending.parent_prefix, branch)
            };
            result.push((
                node.pid,
                pending.depth.min(u16::MAX as usize) as u16,
                tree_prefix,
                !child_pids.is_empty(),
                is_collapsed,
            ));
            if is_collapsed {
                let mut descendants = child_pids;
                while let Some(descendant) = descendants.pop() {
                    if visited.contains(&descendant) || !suppressed.insert(descendant) {
                        continue;
                    }
                    if let Some(grandchildren) = children.get(&descendant) {
                        descendants.extend(grandchildren.iter().copied());
                    }
                }
                continue;
            }
            let child_parent_prefix = if pending.depth == 0 {
                String::new()
            } else {
                let continuation = if pending.is_last { "   " } else { "\u{2502}  " };
                format!("{}{}", pending.parent_prefix, continuation)
            };
            let child_count = child_pids.len();
            for (index, child_pid) in child_pids.into_iter().enumerate().rev() {
                stack.push(PendingNode {
                    pid: child_pid,
                    depth: pending.depth + 1,
                    is_last: index + 1 == child_count,
                    parent_prefix: child_parent_prefix.clone(),
                });
            }
        }
    }
    result
}

#[test]
fn index_build_tree_matches_reference_on_random_forests() {
    // Deterministic xorshift so failures reproduce.
    let mut state: u64 = 0x9E3779B97F4A7C15;
    let mut next = move || {
        state ^= state << 13;
        state ^= state >> 7;
        state ^= state << 17;
        state
    };

    for scenario in 0..200 {
        let count = (next() % 80) as u32;
        // Unique pids from a sparse range, shuffled.
        let mut pids: Vec<u32> = (1..=count * 2 + 2).map(|i| i * 3).collect();
        for i in (1..pids.len()).rev() {
            let j = (next() % (i as u64 + 1)) as usize;
            pids.swap(i, j);
        }
        pids.truncate(count as usize);

        let mut nodes: Vec<TreeNode> = pids
            .iter()
            .map(|&pid| {
                let roll = next() % 10;
                let parent_pid = if roll < 3 {
                    0
                } else if roll == 4 {
                    pid
                } else if roll == 5 {
                    99_999
                } else {
                    pids[(next() % pids.len() as u64) as usize]
                };
                let mut n = node(pid, parent_pid);
                n.create_time_100ns = 10_000 + (next() % 5) * 1_000 + pid as u64;
                n
            })
            .collect();
        for n in &mut nodes {
            if next() % 4 == 0 {
                n.collapsed = true;
            }
        }

        let expected = reference_build_tree(&nodes);
        let actual: Vec<(u32, u16, String, bool, bool)> = build_tree(&nodes)
            .into_iter()
            .map(|row| {
                (
                    nodes[row.index].pid,
                    row.tree_depth,
                    row.tree_prefix,
                    row.has_children,
                    row.is_collapsed,
                )
            })
            .collect();
        assert_eq!(actual, expected, "scenario {scenario} diverged ({} nodes)", nodes.len());
    }
}
