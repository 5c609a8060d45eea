use htop_win::affinity::{
    affinity_dialog_key, all_cpus_mask, mask_to_apply, open_affinity, AffinityDialog, AffinityError,
    AffinityOutcome,
};
use htop_win::input::KeyCode;

#[test]
fn all_cpus_mask_covers_exactly_the_processors() {
    assert_eq!(all_cpus_mask(0), 0);
    assert_eq!(all_cpus_mask(1), 1);
    assert_eq!(all_cpus_mask(8), 0xff);
    assert_eq!(all_cpus_mask(63), u64::MAX >> 1);
    assert_eq!(all_cpus_mask(64), u64::MAX);
}

#[test]
fn dialog_opens_on_current_mask_or_all_and_refuses_over_64() {
    assert_eq!(open_affinity(4, Some(0b0101)), Ok(AffinityDialog { mask: 0b0101, selected: 0 }));
    assert_eq!(open_affinity(4, None), Ok(AffinityDialog { mask: 0b1111, selected: 0 }));
    assert_eq!(open_affinity(64, None), Ok(AffinityDialog { mask: u64::MAX, selected: 0 }));
    assert_eq!(open_affinity(65, Some(1)), Err(AffinityError::TooManyCpus));
    assert_eq!(
        AffinityError::TooManyCpus.message(),
        "CPU affinity editing is not supported on systems with more than 64 logical CPUs"
    );
}

#[test]
fn keys_move_flip_and_apply() {
    let mut d = AffinityDialog { mask: 0b1111, selected: 0 };
    assert_eq!(affinity_dialog_key(&mut d, KeyCode::Up, 4), AffinityOutcome::Stay);
    assert_eq!(d.selected, 0);
    for _ in 0..5 {
        affinity_dialog_key(&mut d, KeyCode::Char('j'), 4);
    }
    assert_eq!(d.selected, 3);
    affinity_dialog_key(&mut d, KeyCode::Char(' '), 4);
    assert_eq!(d.mask, 0b0111);
    affinity_dialog_key(&mut d, KeyCode::Char('k'), 4);
    affinity_dialog_key(&mut d, KeyCode::Char(' '), 4);
    assert_eq!(d.mask, 0b0011);
    assert_eq!(affinity_dialog_key(&mut d, KeyCode::Enter, 4), AffinityOutcome::Apply(0b0011));
    affinity_dialog_key(&mut d, KeyCode::Char('n'), 4);
    assert_eq!(d.mask, 0);
    affinity_dialog_key(&mut d, KeyCode::Char('a'), 4);
    assert_eq!(d.mask, 0b1111);
    assert_eq!(affinity_dialog_key(&mut d, KeyCode::Char('q'), 4), AffinityOutcome::Close);
    assert_eq!(affinity_dialog_key(&mut d, KeyCode::Esc, 4), AffinityOutcome::Close);
}

#[test]
fn flipping_twice_restores_the_mask() {
    let mut d = AffinityDialog { mask: 0xdead_beef, selected: 63 };
    affinity_dialog_key(&mut d, KeyCode::Char(' '), 64);
    assert_eq!(d.mask, 0xdead_beef | (1u64 << 63));
    affinity_dialog_key(&mut d, KeyCode::Char(' '), 64);
    assert_eq!(d.mask, 0xdead_beef);
}

#[test]
fn empty_mask_is_refused() {
    assert_eq!(mask_to_apply(0), Err(AffinityError::EmptyMask));
    assert_eq!(AffinityError::EmptyMask.message(), "Cannot set empty affinity mask");
    assert_eq!(mask_to_apply(0b10), Ok(0b10));
}
