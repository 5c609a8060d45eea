//! What mouse clicks on the main screen do: telling double clicks from
//! single ones, and the action a click asks for on each screen element.

use vstd::prelude::*;
use crate::app::{SortColumn, UIAction, UIElement};

verus! {

/// What a left click is, given the last click still remembered (`last`, with
/// the milliseconds since it) and where this one landed: the second click
/// on the same cell within `threshold_ms` makes a double click.
pub open spec fn spec_left_click(last: Option<((u16, u16), u128)>, pos: (u16, u16), threshold_ms: u64) -> UIAction {
    match last {
        Some((at, since_ms)) => if at == pos && since_ms < threshold_ms {
            UIAction::DoubleClick
        } else {
            UIAction::Click
        },
        None => UIAction::Click,
    }
}

/// Classify a left click. The click is remembered for the next one (`true`
/// in the result) unless it completed a double click, which starts the
/// next sequence afresh.
pub fn classify_left_click(last: Option<((u16, u16), u128)>, pos: (u16, u16), threshold_ms: u64) -> (r: (
    UIAction,
    bool,
))
    ensures
        r.0 == spec_left_click(last, pos, threshold_ms),
        r.1 == (r.0 == UIAction::Click),
{
    let double = match last {
        Some((at, since_ms)) => at.0 == pos.0 && at.1 == pos.1 && since_ms < threshold_ms as u128,
        None => false,
    };
    if double {
        (UIAction::DoubleClick, false)
    } else {
        (UIAction::Click, true)
    }
}

/// What a click asks the application to do.
#[derive(Clone, Copy, Debug, PartialEq, Eq, Structural)]
pub enum ClickAction {
    /// Step the CPU meter mode and save the configuration.
    CycleCpuMeter,
    /// Step the memory (and swap) meter mode and save the configuration.
    CycleMemoryMeter,
    /// Reverse the sort order of the current sort column.
    ReverseSort,
    /// Sort by this column, descending.
    SortBy(SortColumn),
    /// Select the row at this position of the list.
    Select(usize),
    /// Select the row and open the process information.
    SelectAndOpenInfo(usize),
    /// Select the row and toggle the tags of the process's whole branch.
    SelectAndTagBranch(usize, u32),
    /// Select the row and toggle the process's tag.
    SelectAndToggleTag(usize, u32),
    /// Select the row and open the terminate dialog.
    SelectAndKill(usize),
    /// Press this function key.
    FunctionKey(u8),
    ToggleHeader,
    OpenSetup,
    Nothing,
}

/// The action for `action` on `element`. A process row names the visible
/// row; it stands for list position `scroll_offset + index`, which must hold
/// a process (`pids` lists the pids in list order).
pub open spec fn spec_click_action(
    element: Option<UIElement>,
    action: UIAction,
    sort_column: SortColumn,
    tree_view: bool,
    scroll_offset: int,
    pids: Seq<u32>,
) -> ClickAction {
    match element {
        None => ClickAction::Nothing,
        Some(e) => match e {
            UIElement::CpuMeter(_) => if action == UIAction::Click {
                ClickAction::CycleCpuMeter
            } else {
                ClickAction::Nothing
            },
            UIElement::MemoryMeter | UIElement::SwapMeter => if action == UIAction::Click {
                ClickAction::CycleMemoryMeter
            } else {
                ClickAction::Nothing
            },
            UIElement::ColumnHeader(col) => if action != UIAction::Click {
                ClickAction::Nothing
            } else if col == sort_column {
                ClickAction::ReverseSort
            } else {
                ClickAction::SortBy(col)
            },
            UIElement::ProcessRow { index, pid: _ } => {
                let at = scroll_offset + index;
                if at >= pids.len() {
                    ClickAction::Nothing
                } else {
                    match action {
                        UIAction::Click => ClickAction::Select(at as usize),
                        UIAction::DoubleClick => if tree_view {
                            ClickAction::SelectAndTagBranch(at as usize, pids[at])
                        } else {
                            ClickAction::SelectAndOpenInfo(at as usize)
                        },
                        UIAction::RightClick => ClickAction::SelectAndToggleTag(at as usize, pids[at]),
                        UIAction::MiddleClick => ClickAction::SelectAndKill(at as usize),
                    }
                }
            },
            UIElement::FunctionKey(k) => if action == UIAction::Click {
                ClickAction::FunctionKey(k)
            } else {
                ClickAction::Nothing
            },
            UIElement::Header => if action == UIAction::DoubleClick {
                ClickAction::ToggleHeader
            } else {
                ClickAction::Nothing
            },
            UIElement::Footer => if action == UIAction::DoubleClick {
                ClickAction::OpenSetup
            } else {
                ClickAction::Nothing
            },
            _ => ClickAction::Nothing,
        },
    }
}

/// What a click on `element` does (see [`spec_click_action`]).
pub fn click_action(
    element: Option<UIElement>,
    action: UIAction,
    sort_column: SortColumn,
    tree_view: bool,
    scroll_offset: usize,
    pids: &[u32],
) -> (r: ClickAction)
    ensures
        r == spec_click_action(element, action, sort_column, tree_view, scroll_offset as int, pids@),
{
    match element {
        None => ClickAction::Nothing,
        Some(e) => match e {
            UIElement::CpuMeter(_) => if action == UIAction::Click {
                ClickAction::CycleCpuMeter
            } else {
                ClickAction::Nothing
            },
            UIElement::MemoryMeter | UIElement::SwapMeter => if action == UIAction::Click {
                ClickAction::CycleMemoryMeter
            } else {
                ClickAction::Nothing
            },
            UIElement::ColumnHeader(col) => if action != UIAction::Click {
                ClickAction::Nothing
            } else if col == sort_column {
                ClickAction::ReverseSort
            } else {
                ClickAction::SortBy(col)
            },
            UIElement::ProcessRow { index, pid: _ } => {
                if index >= pids.len() || scroll_offset >= pids.len() - index {
                    ClickAction::Nothing
                } else {
                    let at = scroll_offset + index;
                    match action {
                        UIAction::Click => ClickAction::Select(at),
                        UIAction::DoubleClick => if tree_view {
                            ClickAction::SelectAndTagBranch(at, pids[at])
                        } else {
                            ClickAction::SelectAndOpenInfo(at)
                        },
                        UIAction::RightClick => ClickAction::SelectAndToggleTag(at, pids[at]),
                        UIAction::MiddleClick => ClickAction::SelectAndKill(at),
                    }
                }
            },
            UIElement::FunctionKey(k) => if action == UIAction::Click {
                ClickAction::FunctionKey(k)
            } else {
                ClickAction::Nothing
            },
            UIElement::Header => if action == UIAction::DoubleClick {
                ClickAction::ToggleHeader
            } else {
                ClickAction::Nothing
            },
            UIElement::Footer => if action == UIAction::DoubleClick {
                ClickAction::OpenSetup
            } else {
                ClickAction::Nothing
            },
            _ => ClickAction::Nothing,
        },
    }
}

} // verus!
