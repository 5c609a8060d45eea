//! The CPU-affinity dialog: which mask it opens with, how its keys edit the
//! mask, and which masks may be applied. A mask has one bit per logical
//! processor, so the dialog only serves up to 64 processors.

use vstd::prelude::*;
use crate::input::KeyCode;

verus! {

/// The most logical processors a mask can name.
pub const MAX_AFFINITY_CPUS: usize = 64;

/// Whether processor `b` is in `mask`.
pub open spec fn has_cpu(mask: u64, b: u64) -> bool {
    (mask >> b) & 1 == 1
}

/// Why the dialog cannot open or a mask cannot be applied.
#[derive(Debug, Clone, Copy, PartialEq, Eq, Structural)]
pub enum AffinityError {
    TooManyCpus,
    EmptyMask,
}

impl AffinityError {
    pub open spec fn spec_message(self) -> Seq<char> {
        match self {
            AffinityError::TooManyCpus => "CPU affinity editing is not supported on systems with more than 64 logical CPUs"@,
            AffinityError::EmptyMask => "Cannot set empty affinity mask"@,
        }
    }

    /// The status-line text for the error.
    pub fn message(&self) -> (s: &'static str)
        ensures
            s@ == self.spec_message(),
    {
        match self {
            AffinityError::TooManyCpus => "CPU affinity editing is not supported on systems with more than 64 logical CPUs",
            AffinityError::EmptyMask => "Cannot set empty affinity mask",
        }
    }
}

/// The open dialog: the mask being edited and the highlighted processor.
#[derive(Debug, Clone, Copy, PartialEq, Eq, Structural)]
pub struct AffinityDialog {
    pub mask: u64,
    pub selected: usize,
}

/// What a key asks of the application.
#[derive(Debug, Clone, Copy, PartialEq, Eq, Structural)]
pub enum AffinityOutcome {
    Stay,
    Close,
    /// Apply the mask to the process and close.
    Apply(u64),
}

/// The mask naming exactly the first `cpu_count` processors.
pub fn all_cpus_mask(cpu_count: usize) -> (m: u64)
    requires
        cpu_count <= MAX_AFFINITY_CPUS,
    ensures
        forall|b: u64| b < 64 ==> (has_cpu(m, b) <==> b < cpu_count),
{
    if cpu_count >= 64 {
        assert(forall|b: u64| b < 64 ==> (#[trigger] ((0xffff_ffff_ffff_ffffu64 >> b) & 1)) == 1) by (bit_vector);
        u64::MAX
    } else {
        let c = cpu_count as u64;
        assert(forall|b: u64|
            b < 64 && c < 64 ==> ((#[trigger] ((((1u64 << c) - 1) as u64 >> b) & 1) == 1) <==> b < c)) by (bit_vector);
        assert(1u64 << c >= 1) by (bit_vector)
            requires
                c < 64,
        ;
        (1u64 << c) - 1
    }
}

/// Opens the dialog on `cpu_count` processors with the process's current
/// mask, or every processor when the mask could not be read; refused above
/// 64 processors.
pub fn open_affinity(cpu_count: usize, current: Option<u64>) -> (r: Result<AffinityDialog, AffinityError>)
    ensures
        cpu_count > MAX_AFFINITY_CPUS <==> r == Err::<AffinityDialog, AffinityError>(AffinityError::TooManyCpus),
        r matches Ok(d) ==> d.selected == 0 && match current {
            Some(m) => d.mask == m,
            None => forall|b: u64| b < 64 ==> (has_cpu(d.mask, b) <==> b < cpu_count),
        },
{
    if cpu_count > MAX_AFFINITY_CPUS {
        return Err(AffinityError::TooManyCpus);
    }
    let mask = match current {
        Some(m) => m,
        None => all_cpus_mask(cpu_count),
    };
    Ok(AffinityDialog { mask, selected: 0 })
}

/// The mask to hand to the system, which refuses an empty one.
pub fn mask_to_apply(mask: u64) -> (r: Result<u64, AffinityError>)
    ensures
        r == if mask == 0 {
            Err::<u64, AffinityError>(AffinityError::EmptyMask)
        } else {
            Ok::<u64, AffinityError>(mask)
        },
{
    if mask == 0 {
        Err(AffinityError::EmptyMask)
    } else {
        Ok(mask)
    }
}

/// The dialog's keys: arrows (or `k`/`j`) move the highlight within the
/// processors, Space flips the highlighted processor, `a` selects all and
/// `n` none, Enter applies, Esc or `q` closes.
pub fn affinity_dialog_key(dialog: &mut AffinityDialog, key: KeyCode, cpu_count: usize) -> (outcome: AffinityOutcome)
    requires
        cpu_count <= MAX_AFFINITY_CPUS,
        old(dialog).selected < MAX_AFFINITY_CPUS,
    ensures
        final(dialog).selected < MAX_AFFINITY_CPUS,
        outcome == match key {
            KeyCode::Esc | KeyCode::Char('q') => AffinityOutcome::Close,
            KeyCode::Enter => AffinityOutcome::Apply(old(dialog).mask),
            _ => AffinityOutcome::Stay,
        },
        final(dialog).selected == match key {
            KeyCode::Up | KeyCode::Char('k') => if old(dialog).selected > 0 {
                (old(dialog).selected - 1) as usize
            } else {
                old(dialog).selected
            },
            KeyCode::Down | KeyCode::Char('j') => if old(dialog).selected + 1 < cpu_count {
                (old(dialog).selected + 1) as usize
            } else {
                old(dialog).selected
            },
            _ => old(dialog).selected,
        },
        match key {
            KeyCode::Char(' ') => forall|b: u64|
                b < 64 ==> (has_cpu(final(dialog).mask, b) <==> (has_cpu(old(dialog).mask, b) != (b
                    == old(dialog).selected))),
            KeyCode::Char('a') => forall|b: u64| b < 64 ==> (has_cpu(final(dialog).mask, b) <==> b < cpu_count),
            KeyCode::Char('n') => final(dialog).mask == 0,
            _ => final(dialog).mask == old(dialog).mask,
        },
{
    match key {
        KeyCode::Esc | KeyCode::Char('q') => AffinityOutcome::Close,
        KeyCode::Up | KeyCode::Char('k') => {
            if dialog.selected > 0 {
                dialog.selected = dialog.selected - 1;
            }
            AffinityOutcome::Stay
        },
        KeyCode::Down | KeyCode::Char('j') => {
            if dialog.selected + 1 < cpu_count {
                dialog.selected = dialog.selected + 1;
            }
            AffinityOutcome::Stay
        },
        KeyCode::Char(' ') => {
            let s = dialog.selected as u64;
            let m = dialog.mask;
            assert(forall|b: u64|
                b < 64 && s < 64 ==> (((#[trigger] (((m ^ (1u64 << s)) >> b) & 1)) == 1) <==> ((((m >> b) & 1) == 1)
                    != (b == s)))) by (bit_vector);
            dialog.mask = m ^ (1u64 << s);
            AffinityOutcome::Stay
        },
        KeyCode::Char('a') => {
            dialog.mask = all_cpus_mask(cpu_count);
            AffinityOutcome::Stay
        },
        KeyCode::Char('n') => {
            dialog.mask = 0;
            AffinityOutcome::Stay
        },
        KeyCode::Enter => AffinityOutcome::Apply(dialog.mask),
        _ => AffinityOutcome::Stay,
    }
}

/// Flipping the same processor twice leaves the mask as it was.
pub proof fn flip_twice_restores(mask: u64, s: u64)
    requires
        s < 64,
    ensures
        (mask ^ (1u64 << s)) ^ (1u64 << s) == mask,
{
    assert((mask ^ (1u64 << s)) ^ (1u64 << s) == mask) by (bit_vector);
}

} // verus!
