use htop_win::branch::{branch_identities, collapse_target};
use htop_win::system::ProcessIdentity;
use htop_win::tags::{slice_contains, TagSet};
use htop_win::tree::{build_tree, TreeNode};

fn node(pid: u32, parent_pid: u32) -> TreeNode {
    TreeNode { pid, parent_pid, create_time_100ns: 10_000 + pid as u64, collapsed: false }
}

fn identity(n: &TreeNode) -> ProcessIdentity {
    ProcessIdentity { pid: n.pid, create_time_100ns: n.create_time_100ns }
}

#[test]
fn parent_edges_are_validated_for_tree_tags_and_navigation() {
    for (parent_time, child_time, linked) in [
        (200, 100, false),
        (0, 100, false),
        (100, 0, false),
        (100, 100, true),
        (100, 200, true),
    ] {
        let mut nodes = vec![node(1, 0), node(2, 1), node(3, 2)];
        nodes[0].create_time_100ns = parent_time;
        nodes[1].create_time_100ns = child_time;
        nodes[2].create_time_100ns = child_time + 1;
        let rows = build_tree(&nodes);
        assert_eq!(usize::from(rows[1].tree_depth), usize::from(linked));

        let mut tags = TagSet::new();
        tags.insert_all(&branch_identities(&nodes, identity(&nodes[rows[0].index])));
        assert_eq!(tags.len(), if linked { 3 } else { 1 });

        let displayed: Vec<u32> = rows.iter().map(|r| nodes[r.index].pid).collect();
        let mut selected_index = 1;
        if let Some(index) = collapse_target(&nodes, &displayed, displayed[selected_index]) {
            selected_index = index;
        }
        assert_eq!(selected_index, if linked { 0 } else { 1 });
    }
    let mut cycle = vec![node(1, 2), node(2, 1), node(3, 99)];
    for p in &mut cycle {
        p.create_time_100ns = 100;
    }
    assert_eq!(build_tree(&cycle).len(), 3);
    assert_eq!(branch_identities(&cycle, identity(&cycle[0])).len(), 2);
}

#[test]
fn stale_follow_and_branch_identity_do_not_attach_to_reused_pid() {
    let original = node(42, 0);
    let stale_identity = identity(&original);
    let mut replacement = original;
    replacement.create_time_100ns += 1;
    let nodes = vec![replacement];
    let live: Vec<ProcessIdentity> = nodes.iter().map(identity).collect();

    let follow = if slice_contains(&live, stale_identity) { Some(stale_identity) } else { None };
    assert_eq!(follow, None);
    let mut tags = TagSet::new();
    tags.toggle_group(&branch_identities(&nodes, stale_identity));
    assert!(tags.is_empty());
}

#[test]
fn branch_holds_root_first_and_every_descendant_once() {
    // 1 -> {2, 5}; 2 -> {3}; 3 -> {4}; 6 unrelated; a second row with pid 3
    let nodes = vec![node(1, 0), node(2, 1), node(5, 1), node(3, 2), node(6, 0), node(4, 3), node(3, 2)];
    let branch = branch_identities(&nodes, identity(&nodes[0]));
    assert_eq!(branch[0], identity(&nodes[0]));
    let mut pids: Vec<u32> = branch.iter().map(|id| id.pid).collect();
    pids.sort();
    assert_eq!(pids, [1, 2, 3, 4, 5]);
    let sub = branch_identities(&nodes, identity(&nodes[1]));
    let mut sub_pids: Vec<u32> = sub.iter().map(|id| id.pid).collect();
    sub_pids.sort();
    assert_eq!(sub_pids, [2, 3, 4]);
    assert_eq!(sub.iter().find(|id| id.pid == 3), Some(&identity(&nodes[3])));
    assert!(branch_identities(&nodes, ProcessIdentity { pid: 1, create_time_100ns: 7 }).is_empty());
}

#[test]
fn collapse_moves_to_the_displayed_parent_only() {
    let nodes = vec![node(1, 0), node(2, 1), node(3, 2)];
    assert_eq!(collapse_target(&nodes, &[1, 2, 3], 3), Some(1));
    assert_eq!(collapse_target(&nodes, &[3, 1], 3), None);
    assert_eq!(collapse_target(&nodes, &[1, 2, 3], 1), None);
}
