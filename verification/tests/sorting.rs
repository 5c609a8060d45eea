use htop_win::sorting::{directed_key, f32_sort_key_bits, sort_entries, sort_entries_by_text};

fn key(v: f32) -> u64 {
    f32_sort_key_bits((v + 0.0).to_bits())
}

#[test]
fn float_keys_follow_float_order() {
    let values = [-1e9f32, -2.5, -0.0, 0.0, 1e-30, 0.5, 3.0, 1e9, f32::INFINITY];
    for w in values.windows(2) {
        assert!(key(w[0]) <= key(w[1]), "{} {}", w[0], w[1]);
    }
    assert_eq!(key(-0.0), key(0.0));
    assert_eq!(f32_sort_key_bits(0), 0x8000_0000);
    assert_eq!(f32_sort_key_bits(0x8000_0001), 0x7FFF_FFFE);
}

#[test]
fn descending_keys_are_complemented() {
    assert_eq!(directed_key(5, true), 5);
    assert_eq!(directed_key(5, false), u64::MAX - 5);
}

#[test]
fn entries_sort_by_key_then_position() {
    let mut e = vec![(3, 0), (1, 4), (3, 2), (0, 1), (1, 3)];
    sort_entries(&mut e);
    assert_eq!(e, vec![(0, 1), (1, 3), (1, 4), (3, 0), (3, 2)]);
    let mut empty: Vec<(u64, usize)> = Vec::new();
    sort_entries(&mut empty);
    assert!(empty.is_empty());
}

#[test]
fn text_sort_orders_by_bytes_with_positions_breaking_ties() {
    let texts: Vec<String> = ["bob", "alice", "bob", "Zed", "ä"].iter().map(|s| s.to_string()).collect();
    let mut e: Vec<(u64, usize)> = (0..5).map(|i| (0, i)).collect();
    sort_entries_by_text(&mut e, &texts, true);
    let order: Vec<usize> = e.iter().map(|p| p.1).collect();
    assert_eq!(order, [3, 1, 0, 2, 4]);
    sort_entries_by_text(&mut e, &texts, false);
    let order: Vec<usize> = e.iter().map(|p| p.1).collect();
    assert_eq!(order, [4, 0, 2, 1, 3]);
}
