use htop_win::system::ProcessIdentity;
use htop_win::tags::TagSet;

fn id(pid: u32, t: u64) -> ProcessIdentity {
    ProcessIdentity { pid, create_time_100ns: t }
}

#[test]
fn stale_identity_tag_is_pruned_on_pid_reuse() {
    let original = id(42, 10_042);
    let mut tags = TagSet::new();
    tags.insert(original);
    let replacement = id(42, 10_043);
    tags.retain_live(&[replacement]);
    assert!(tags.is_empty());
}

#[test]
fn toggle_twice_leaves_tags_unchanged() {
    let mut tags = TagSet::new();
    tags.insert(id(1, 1));
    tags.toggle(id(2, 2));
    assert!(tags.contains(id(2, 2)));
    assert_eq!(tags.len(), 2);
    tags.toggle(id(2, 2));
    assert!(!tags.contains(id(2, 2)));
    assert_eq!(tags.identities(), vec![id(1, 1)]);
    tags.insert(id(1, 1));
    assert_eq!(tags.len(), 1);
}

#[test]
fn group_toggle_tags_all_unless_all_are_tagged() {
    let group = [id(1, 1), id(2, 2), id(3, 3)];
    let mut tags = TagSet::new();
    tags.insert(id(2, 2));
    tags.insert(id(9, 9));
    tags.toggle_group(&group);
    assert!(group.iter().all(|g| tags.contains(*g)));
    assert_eq!(tags.len(), 4);
    tags.toggle_group(&group);
    assert!(group.iter().all(|g| !tags.contains(*g)));
    assert!(tags.contains(id(9, 9)));
    assert_eq!(tags.len(), 1);
}

#[test]
fn retain_keeps_only_live_identities_and_clear_empties() {
    let mut tags = TagSet::new();
    tags.insert_all(&[id(1, 1), id(2, 2), id(3, 3), id(2, 2)]);
    assert_eq!(tags.len(), 3);
    tags.retain_live(&[id(3, 3), id(1, 1), id(7, 7)]);
    let mut left = tags.identities();
    left.sort_by_key(|i| i.pid);
    assert_eq!(left, vec![id(1, 1), id(3, 3)]);
    tags.remove(id(3, 3));
    assert_eq!(tags.identities(), vec![id(1, 1)]);
    tags.clear();
    assert!(tags.is_empty());
}

fn target(pid: u32, t: u64, name: &str) -> htop_win::app::TerminationTarget {
    htop_win::app::TerminationTarget {
        identity: id(pid, t),
        name: name.to_string(),
        command: format!("C:\\{name}.exe"),
    }
}

#[test]
fn tagged_targets_are_captured_in_pid_order_with_placeholders() {
    let mut tags = TagSet::new();
    tags.insert(id(30, 3));
    tags.insert(id(10, 1));
    tags.insert(id(20, 2));
    let listed = [target(20, 2, "p20"), target(10, 9, "other"), target(30, 3, "p30")];
    let targets = htop_win::tags::tagged_targets(&tags, &listed);
    let pids: Vec<u32> = targets.iter().map(|t| t.identity.pid).collect();
    assert_eq!(pids, [10, 20, 30]);
    assert_eq!(targets[0].name, "(unavailable)");
    assert_eq!(targets[0].command, "");
    assert_eq!(targets[0].identity, id(10, 1));
    assert_eq!(targets[1].name, "p20");
    assert_eq!(targets[1].command, "C:\\p20.exe");
    assert_eq!(targets[2].name, "p30");
    assert!(htop_win::tags::tagged_targets(&TagSet::new(), &listed).is_empty());
}

#[test]
fn follow_is_dropped_when_the_pid_is_reused() {
    use_follow();
}

fn use_follow() {
    let followed = id(42, 10_042);
    assert_eq!(htop_win::tags::follow_after_refresh(Some(followed), &[id(42, 10_042), id(1, 1)]), Some(followed));
    assert_eq!(htop_win::tags::follow_after_refresh(Some(followed), &[id(42, 10_043)]), None);
    assert_eq!(htop_win::tags::follow_after_refresh(None, &[id(42, 10_042)]), None);
}
