//! Editing the column list of a screen tab: showing or hiding a column
//! (a shown column goes to its place in the canonical display order, the
//! last column cannot be hidden), moving a column left or right, and
//! cycling between tabs.

use vstd::prelude::*;
use crate::app::{canonical_insert_index, insert_index};
use crate::bytes::str_eq;
use crate::text::string_of;

verus! {

/// The first position of `column` in `cols`.
pub open spec fn position_of(cols: Seq<Seq<char>>, column: Seq<char>) -> Option<int>
    decreases cols.len(),
{
    if cols.len() == 0 {
        None
    } else if cols[0] == column {
        Some(0)
    } else {
        match position_of(cols.drop_first(), column) {
            Some(p) => Some(p + 1),
            None => None,
        }
    }
}

proof fn lemma_position_of(cols: Seq<Seq<char>>, column: Seq<char>)
    ensures
        match position_of(cols, column) {
            Some(p) => 0 <= p < cols.len() && cols[p] == column && forall|k: int| 0 <= k < p ==> cols[k] != column,
            None => forall|k: int| 0 <= k < cols.len() ==> cols[k] != column,
        },
    decreases cols.len(),
{
    if cols.len() > 0 {
        lemma_position_of(cols.drop_first(), column);
        assert forall|k: int| 1 <= k < cols.len() implies cols[k] == cols.drop_first()[k - 1] by {}
    }
}

/// Where `column` is in `columns`.
pub fn find_column(columns: &Vec<String>, column: &str) -> (r: Option<usize>)
    ensures
        match r {
            Some(p) => position_of(columns.deep_view(), column@) == Some(p as int),
            None => position_of(columns.deep_view(), column@) is None,
        },
{
    let ghost dv = columns.deep_view();
    proof {
        lemma_position_of(dv, column@);
    }
    let mut i: usize = 0;
    while i < columns.len()
        invariant
            dv == columns.deep_view(),
            dv.len() == columns@.len(),
            i <= columns.len(),
            forall|k: int| 0 <= k < i ==> dv[k] != column@,
            match position_of(dv, column@) {
                Some(p) => 0 <= p < dv.len() && dv[p] == column@ && forall|k: int| 0 <= k < p ==> dv[k] != column@,
                None => forall|k: int| 0 <= k < dv.len() ==> dv[k] != column@,
            },
        decreases columns.len() - i,
    {
        assert(dv[i as int] == columns@[i as int]@);
        if str_eq(columns[i].as_str(), column) {
            return Some(i);
        }
        i = i + 1;
    }
    None
}

/// What showing or hiding a column did.
#[derive(Clone, Copy, Debug, PartialEq, Eq, Structural)]
pub enum ColumnToggle {
    /// The column was shown and is now hidden.
    Removed,
    /// The column was hidden and is now shown.
    Inserted,
    /// The column is the only one left, so it stays.
    KeptLast,
}

impl ColumnToggle {
    /// The status-line error for a refused toggle.
    pub fn error_message(&self) -> (r: Option<&'static str>)
        ensures
            match r {
                Some(m) => *self == ColumnToggle::KeptLast && m@ == "At least one process column must remain visible"@,
                None => *self != ColumnToggle::KeptLast,
            },
    {
        match self {
            ColumnToggle::KeptLast => Some("At least one process column must remain visible"),
            _ => None,
        }
    }
}

/// Hides `column` when it is shown (unless it is the last one), else shows
/// it at its place in the canonical display order.
pub fn toggle_column(columns: &mut Vec<String>, column: &str) -> (r: ColumnToggle)
    ensures
        match position_of(old(columns).deep_view(), column@) {
            Some(p) => if old(columns)@.len() == 1 {
                r == ColumnToggle::KeptLast && final(columns).deep_view() == old(columns).deep_view()
            } else {
                r == ColumnToggle::Removed && final(columns).deep_view() == old(columns).deep_view().remove(p)
            },
            None => r == ColumnToggle::Inserted && final(columns).deep_view() == old(columns).deep_view().insert(
                insert_index(old(columns).deep_view(), column@),
                column@,
            ),
        },
{
    let ghost before = columns.deep_view();
    match find_column(columns, column) {
        Some(p) => {
            if columns.len() == 1 {
                ColumnToggle::KeptLast
            } else {
                proof {
                    lemma_position_of(before, column@);
                }
                columns.remove(p);
                assert(columns.deep_view() =~= before.remove(p as int));
                ColumnToggle::Removed
            }
        },
        None => {
            let at = canonical_insert_index(columns.as_slice(), column);
            proof {
                crate::app::lemma_insert_index(before, column@);
            }
            columns.insert(at, string_of(column));
            assert(columns.deep_view() =~= before.insert(at as int, column@));
            ColumnToggle::Inserted
        },
    }
}

/// `cols` with the entries at `a` and `a + 1` exchanged.
pub open spec fn swap_next(cols: Seq<Seq<char>>, a: int) -> Seq<Seq<char>> {
    cols.update(a, cols[a + 1]).update(a + 1, cols[a])
}

/// Moves the entry at `a + 1` to `a`, which exchanges the two.
fn swap_with_next(columns: &mut Vec<String>, a: usize)
    requires
        a + 1 < old(columns)@.len(),
    ensures
        final(columns).deep_view() == swap_next(old(columns).deep_view(), a as int),
{
    let ghost before = columns.deep_view();
    let n = columns.len();
    assert(a + 1 < n);
    let item = columns.remove(a + 1);
    columns.insert(a, item);
    assert(columns.deep_view() =~= swap_next(before, a as int));
}

/// Moves `column` one place to the left; false when it is not shown or is
/// already first.
pub fn move_column_up(columns: &mut Vec<String>, column: &str) -> (moved: bool)
    ensures
        match position_of(old(columns).deep_view(), column@) {
            Some(p) => if p > 0 {
                moved && final(columns).deep_view() == swap_next(old(columns).deep_view(), p - 1)
            } else {
                !moved && final(columns).deep_view() == old(columns).deep_view()
            },
            None => !moved && final(columns).deep_view() == old(columns).deep_view(),
        },
{
    proof {
        lemma_position_of(columns.deep_view(), column@);
    }
    match find_column(columns, column) {
        Some(p) => {
            if p > 0 {
                swap_with_next(columns, p - 1);
                true
            } else {
                false
            }
        },
        None => false,
    }
}

/// Moves `column` one place to the right; false when it is not shown or is
/// already last.
pub fn move_column_down(columns: &mut Vec<String>, column: &str) -> (moved: bool)
    ensures
        match position_of(old(columns).deep_view(), column@) {
            Some(p) => if p + 1 < old(columns)@.len() {
                moved && final(columns).deep_view() == swap_next(old(columns).deep_view(), p)
            } else {
                !moved && final(columns).deep_view() == old(columns).deep_view()
            },
            None => !moved && final(columns).deep_view() == old(columns).deep_view(),
        },
{
    proof {
        lemma_position_of(columns.deep_view(), column@);
    }
    match find_column(columns, column) {
        Some(p) => {
            if p < columns.len() - 1 {
                swap_with_next(columns, p);
                true
            } else {
                false
            }
        },
        None => false,
    }
}

/// The tab after `active`, wrapping; unchanged with fewer than two tabs.
pub fn next_tab_index(active: usize, tab_count: usize) -> (r: usize)
    requires
        tab_count <= 1 || active < tab_count,
    ensures
        r == if tab_count <= 1 { active as int } else { (active + 1) % (tab_count as int) },
{
    if tab_count <= 1 {
        active
    } else {
        (active + 1) % tab_count
    }
}

/// The tab before `active`, wrapping; unchanged with fewer than two tabs.
pub fn prev_tab_index(active: usize, tab_count: usize) -> (r: usize)
    requires
        tab_count <= 1 || active < tab_count,
    ensures
        r == if tab_count <= 1 {
            active as int
        } else if active == 0 {
            tab_count - 1
        } else {
            active - 1
        },
{
    if tab_count <= 1 {
        active
    } else if active == 0 {
        tab_count - 1
    } else {
        active - 1
    }
}

/// Showing a hidden column and hiding it again gives back the list.
pub proof fn show_then_hide_restores(cols: Seq<Seq<char>>, column: Seq<char>)
    requires
        position_of(cols, column) is None,
    ensures
        position_of(cols.insert(insert_index(cols, column), column), column) == Some(insert_index(cols, column)),
        cols.insert(insert_index(cols, column), column).remove(insert_index(cols, column)) == cols,
{
    crate::app::lemma_insert_index(cols, column);
    lemma_position_of(cols, column);
    let k = insert_index(cols, column);
    let t = cols.insert(k, column);
    assert forall|i: int| 0 <= i < k implies t[i] != column by {
        assert(t[i] == cols[i]);
    }
    lemma_position_found(t, column, k);
    assert(t.remove(k) =~= cols);
}

proof fn lemma_position_found(cols: Seq<Seq<char>>, column: Seq<char>, k: int)
    requires
        0 <= k < cols.len(),
        cols[k] == column,
        forall|i: int| 0 <= i < k ==> cols[i] != column,
    ensures
        position_of(cols, column) == Some(k),
    decreases k,
{
    if k > 0 {
        assert(cols[0] != column);
        let t = cols.drop_first();
        assert forall|i: int| 0 <= i < k - 1 implies t[i] != column by {
            assert(t[i] == cols[i + 1]);
        }
        lemma_position_found(t, column, k - 1);
    }
}

/// In a list that holds each column once, moving a column right and then
/// left again gives back the list.
pub proof fn move_down_then_up_restores(cols: Seq<Seq<char>>, column: Seq<char>)
    requires
        cols.no_duplicates(),
        position_of(cols, column) matches Some(p) && p + 1 < cols.len(),
    ensures
        position_of(swap_next(cols, position_of(cols, column)->0), column) == Some(position_of(cols, column)->0 + 1),
        swap_next(swap_next(cols, position_of(cols, column)->0), position_of(cols, column)->0) == cols,
{
    lemma_position_of(cols, column);
    let p = position_of(cols, column)->0;
    let t = swap_next(cols, p);
    assert forall|i: int| 0 <= i < p + 1 implies t[i] != column by {
        if i < p {
            assert(t[i] == cols[i]);
        } else {
            assert(t[i] == cols[p + 1]);
        }
    }
    lemma_position_found(t, column, p + 1);
    assert(swap_next(t, p) =~= cols);
}

/// Stepping to the next tab and back returns to the same tab.
pub proof fn next_then_prev_tab(active: int, tab_count: int)
    requires
        0 <= active < tab_count,
    ensures
        ({
            let n = if tab_count <= 1 { active } else { (active + 1) % tab_count };
            (if tab_count <= 1 { n } else if n == 0 { tab_count - 1 } else { n - 1 }) == active
        }),
{
    if tab_count > 1 {
        if active + 1 < tab_count {
            assert((active + 1) % tab_count == active + 1) by (nonlinear_arith)
                requires
                    0 <= active + 1 < tab_count,
            ;
        } else {
            assert((active + 1) % tab_count == 0) by (nonlinear_arith)
                requires
                    active + 1 == tab_count,
                    tab_count > 1,
            ;
        }
    }
}

} // verus!
