use htop_win::input::KeyCode;
use htop_win::users::{user_choice_index, user_choices, user_select_key, UserSelectOutcome};

fn owners(names: &[&str]) -> Vec<String> {
    names.iter().map(|s| s.to_string()).collect()
}

#[test]
fn open_user_picker_refreshes_owners_and_preserves_selection() {
    let first = user_choices(&owners(&["alice", "bob"]));
    let index = user_choice_index(&first, Some("bob"));
    assert_eq!(first.get(index - 1).map(String::as_str), Some("bob"));

    let selected = first.get(index - 1).cloned();
    let users = user_choices(&owners(&["bob", "carol"]));
    let index = user_choice_index(&users, selected.as_deref());
    assert!(users.iter().any(|user| user == "carol"));
    assert_eq!(users.get(index - 1).map(String::as_str), Some("bob"));
}

#[test]
fn owners_are_distinct_and_in_str_order() {
    let users = user_choices(&owners(&["SYSTEM", "bob", "alice", "bob", "Zed", "ä", "-", "alice"]));
    assert_eq!(users, owners(&["-", "SYSTEM", "Zed", "alice", "bob", "ä"]));
    assert!(user_choices(&[]).is_empty());
    assert_eq!(user_choice_index(&users, None), 0);
    assert_eq!(user_choice_index(&users, Some("carol")), 0);
    assert_eq!(user_choice_index(&users, Some("-")), 1);
}

#[test]
fn picker_keys_move_choose_and_close() {
    let mut index = 0;
    assert_eq!(user_select_key(&mut index, 2, KeyCode::Up), UserSelectOutcome::Stay);
    assert_eq!(index, 0);
    assert_eq!(user_select_key(&mut index, 2, KeyCode::Enter), UserSelectOutcome::Choose(None));
    for _ in 0..4 {
        user_select_key(&mut index, 2, KeyCode::Char('j'));
    }
    assert_eq!(index, 2);
    assert_eq!(user_select_key(&mut index, 2, KeyCode::Enter), UserSelectOutcome::Choose(Some(1)));
    user_select_key(&mut index, 2, KeyCode::Char('k'));
    assert_eq!(index, 1);
    assert_eq!(user_select_key(&mut index, 2, KeyCode::Esc), UserSelectOutcome::Close);
    let mut stale = 5;
    assert_eq!(user_select_key(&mut stale, 2, KeyCode::Enter), UserSelectOutcome::Close);
}
