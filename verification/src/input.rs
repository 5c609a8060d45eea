//! What the keys do in the dialogs that edit plain state: scrolling a
//! dialog, and the Setup screen, which edits the configuration.

use vstd::prelude::*;
use crate::app::{canonical_columns, priority_classes, FocusRegion, SortColumn, WindowsPriorityClass};
use crate::config::{is_default_config, ColorScheme, Config, MeterMode};

verus! {

/// A key as the handlers read it.
#[derive(Clone, Copy, Debug, PartialEq, Eq, Structural)]
pub enum KeyCode {
    Char(char),
    F(u8),
    Up,
    Down,
    Left,
    Right,
    PageUp,
    PageDown,
    Home,
    End,
    Enter,
    Esc,
    Tab,
    BackTab,
    Backspace,
    Delete,
    /// Any key the handlers do not read.
    Other,
}

// ============================================================================
// Scrolling dialogs
// ============================================================================

/// The scroll offset after `key`, or `None` when `key` does not scroll:
/// one line with the arrows (or `k`/`j`), ten with the page keys, back to
/// the top with Home; never above the top.
pub open spec fn scrolled(scroll: int, key: KeyCode) -> Option<int> {
    match key {
        KeyCode::Up => Some(if scroll >= 1 { scroll - 1 } else { 0 }),
        KeyCode::Char('k') => Some(if scroll >= 1 { scroll - 1 } else { 0 }),
        KeyCode::Down => Some(scroll + 1),
        KeyCode::Char('j') => Some(scroll + 1),
        KeyCode::PageUp => Some(if scroll >= 10 { scroll - 10 } else { 0 }),
        KeyCode::PageDown => Some(scroll + 10),
        KeyCode::Home => Some(0),
        _ => None,
    }
}

/// Handle scroll keys for dialogs. Returns true if the key was handled.
pub fn handle_scroll_keys(scroll: &mut usize, key: KeyCode) -> (handled: bool)
    requires
        (key == KeyCode::Down || key == KeyCode::Char('j')) ==> *old(scroll) < usize::MAX,
        key == KeyCode::PageDown ==> *old(scroll) + 10 <= usize::MAX,
    ensures
        handled == scrolled(*old(scroll) as int, key) is Some,
        match scrolled(*old(scroll) as int, key) {
            Some(s) => *final(scroll) == s,
            None => *final(scroll) == *old(scroll),
        },
{
    match key {
        KeyCode::Up => {
            *scroll = scroll.saturating_sub(1);
            true
        },
        KeyCode::Char('k') => {
            *scroll = scroll.saturating_sub(1);
            true
        },
        KeyCode::Down => {
            *scroll = *scroll + 1;
            true
        },
        KeyCode::Char('j') => {
            *scroll = *scroll + 1;
            true
        },
        KeyCode::PageUp => {
            *scroll = scroll.saturating_sub(10);
            true
        },
        KeyCode::PageDown => {
            *scroll = *scroll + 10;
            true
        },
        KeyCode::Home => {
            *scroll = 0;
            true
        },
        _ => false,
    }
}

/// A line down and a line up again come back to the same place.
pub proof fn scroll_down_then_up(scroll: nat)
    ensures
        scrolled(scrolled(scroll as int, KeyCode::Down).unwrap(), KeyCode::Up) == Some(scroll as int),
        scrolled(scrolled(scroll as int, KeyCode::PageDown).unwrap(), KeyCode::PageUp) == Some(
            scroll as int,
        ),
{
}

// ============================================================================
// Setup values
// ============================================================================

/// The refresh rates Setup steps through, in milliseconds.
pub open spec fn is_refresh_step(ms: u64) -> bool {
    ms == 100 || ms == 250 || ms == 500 || ms == 1000 || ms == 1500 || ms == 2000 || ms == 5000
}

/// The next refresh rate up, wrapping from 5000 ms to 100 ms; a rate off the
/// steps goes to 100 ms.
pub open spec fn spec_next_refresh_rate(ms: u64) -> u64 {
    if ms == 100 {
        250
    } else if ms == 250 {
        500
    } else if ms == 500 {
        1000
    } else if ms == 1000 {
        1500
    } else if ms == 1500 {
        2000
    } else if ms == 2000 {
        5000
    } else {
        100
    }
}

/// The next refresh rate down, wrapping from 100 ms to 5000 ms; a rate off
/// the steps goes to 5000 ms.
pub open spec fn spec_prev_refresh_rate(ms: u64) -> u64 {
    if ms == 5000 {
        2000
    } else if ms == 2000 {
        1500
    } else if ms == 1500 {
        1000
    } else if ms == 1000 {
        500
    } else if ms == 500 {
        250
    } else if ms == 250 {
        100
    } else {
        5000
    }
}

/// Cycle refresh rate: 100 -> 250 -> 500 -> 1000 -> 1500 -> 2000 -> 5000 -> 100.
pub fn next_refresh_rate(ms: u64) -> (r: u64)
    ensures
        r == spec_next_refresh_rate(ms),
{
    match ms {
        100 => 250,
        250 => 500,
        500 => 1000,
        1000 => 1500,
        1500 => 2000,
        2000 => 5000,
        _ => 100,
    }
}

/// The refresh-rate cycle backwards: 5000 -> 2000 -> ... -> 100 -> 5000.
pub fn prev_refresh_rate(ms: u64) -> (r: u64)
    ensures
        r == spec_prev_refresh_rate(ms),
{
    match ms {
        5000 => 2000,
        2000 => 1500,
        1500 => 1000,
        1000 => 500,
        500 => 250,
        250 => 100,
        _ => 5000,
    }
}

/// On the steps, a step up and a step down undo each other; any rate is on
/// the steps after one step either way.
pub proof fn refresh_rate_steps_undo(ms: u64)
    ensures
        is_refresh_step(spec_next_refresh_rate(ms)),
        is_refresh_step(spec_prev_refresh_rate(ms)),
        is_refresh_step(ms) ==> spec_prev_refresh_rate(spec_next_refresh_rate(ms)) == ms,
        is_refresh_step(ms) ==> spec_next_refresh_rate(spec_prev_refresh_rate(ms)) == ms,
{
}

/// The meter mode before `mode`: the Bar, Text, Graph, Hidden cycle backwards.
pub open spec fn spec_prev_meter_mode(mode: MeterMode) -> MeterMode {
    match mode {
        MeterMode::Bar => MeterMode::Hidden,
        MeterMode::Text => MeterMode::Bar,
        MeterMode::Graph => MeterMode::Text,
        MeterMode::Hidden => MeterMode::Graph,
    }
}

/// Cycle meter mode backward.
pub fn prev_meter_mode(mode: MeterMode) -> (r: MeterMode)
    ensures
        r == spec_prev_meter_mode(mode),
{
    match mode {
        MeterMode::Bar => MeterMode::Hidden,
        MeterMode::Text => MeterMode::Bar,
        MeterMode::Graph => MeterMode::Text,
        MeterMode::Hidden => MeterMode::Graph,
    }
}

/// Stepping a meter mode forward and back (or back and forward) returns it.
pub proof fn meter_mode_steps_undo(mode: MeterMode)
    ensures
        spec_prev_meter_mode(mode.spec_next()) == mode,
        spec_prev_meter_mode(mode).spec_next() == mode,
{
}

// ============================================================================
// The Setup screen
// ============================================================================

/// The last row of the Setup screen.
pub const SETUP_LAST_ROW: usize = 12;

/// What the application has to do after a Setup key, beyond the changes to
/// the configuration and the selected row.
#[derive(Clone, Copy, Debug, PartialEq, Eq, Structural)]
pub enum SetupOutcome {
    /// Nothing more.
    Stay,
    /// Save the configuration and leave Setup.
    Close,
    /// Rebuild the process list (the program-path setting changed).
    RefreshDisplay,
    /// Toggle the tree view and make the new state the default.
    ToggleTreeView,
    /// Open the color-scheme list at this row.
    OpenColorScheme(usize),
    /// Open the column configuration.
    OpenColumnConfig,
    /// The settings were reset: re-derive the theme and columns, save, and
    /// say so.
    SettingsReset,
}

/// The settings the Setup screen edits in place.
#[derive(Clone, Copy, Debug, PartialEq, Eq, Structural)]
pub struct SetupSettings {
    pub refresh_rate_ms: u64,
    pub tree_view_default: bool,
    pub cpu_meter_mode: MeterMode,
    pub memory_meter_mode: MeterMode,
    pub show_kernel_threads: bool,
    pub show_user_threads: bool,
    pub show_program_path: bool,
    pub highlight_new_processes: bool,
    pub highlight_large_numbers: bool,
    pub confirm_kill: bool,
}

/// The Setup-edited settings of `c`.
pub open spec fn setup_settings(c: Config) -> SetupSettings {
    SetupSettings {
        refresh_rate_ms: c.refresh_rate_ms,
        tree_view_default: c.tree_view_default,
        cpu_meter_mode: c.cpu_meter_mode,
        memory_meter_mode: c.memory_meter_mode,
        show_kernel_threads: c.show_kernel_threads,
        show_user_threads: c.show_user_threads,
        show_program_path: c.show_program_path,
        highlight_new_processes: c.highlight_new_processes,
        highlight_large_numbers: c.highlight_large_numbers,
        confirm_kill: c.confirm_kill,
    }
}

/// `c` and `d` agree on every setting the Setup screen does not edit in
/// place.
pub open spec fn same_beyond_setup(c: Config, d: Config) -> bool {
    &&& c.color_scheme == d.color_scheme
    &&& c.highlight_running == d.highlight_running
    &&& c.highlight_duration_ms == d.highlight_duration_ms
    &&& c.highlight_basename == d.highlight_basename
    &&& c.show_cpu_meters == d.show_cpu_meters
    &&& c.show_memory_meter == d.show_memory_meter
    &&& c.show_swap_meter == d.show_swap_meter
    &&& c.show_tasks_meter == d.show_tasks_meter
    &&& c.show_uptime_meter == d.show_uptime_meter
    &&& c.show_load_average == d.show_load_average
    &&& c.show_network_io == d.show_network_io
    &&& c.show_disk_io == d.show_disk_io
    &&& c.show_clock == d.show_clock
    &&& c.show_hostname == d.show_hostname
    &&& c.show_battery == d.show_battery
    &&& c.visible_columns@ == d.visible_columns@
    &&& c.mouse_enabled == d.mouse_enabled
    &&& c.readonly == d.readonly
    &&& c.collapsed_pids@ == d.collapsed_pids@
}

/// The settings after Enter (or Space) on Setup row `row`.
pub open spec fn setup_activated(c: SetupSettings, row: int) -> SetupSettings {
    if row == 0 {
        SetupSettings { refresh_rate_ms: spec_next_refresh_rate(c.refresh_rate_ms), ..c }
    } else if row == 1 {
        SetupSettings { cpu_meter_mode: c.cpu_meter_mode.spec_next(), ..c }
    } else if row == 2 {
        SetupSettings { memory_meter_mode: c.memory_meter_mode.spec_next(), ..c }
    } else if row == 3 {
        SetupSettings { show_kernel_threads: !c.show_kernel_threads, ..c }
    } else if row == 4 {
        SetupSettings { show_user_threads: !c.show_user_threads, ..c }
    } else if row == 5 {
        SetupSettings { show_program_path: !c.show_program_path, ..c }
    } else if row == 6 {
        SetupSettings { highlight_new_processes: !c.highlight_new_processes, ..c }
    } else if row == 7 {
        SetupSettings { highlight_large_numbers: !c.highlight_large_numbers, ..c }
    } else if row == 9 {
        SetupSettings { confirm_kill: !c.confirm_kill, ..c }
    } else {
        c
    }
}

/// The settings after Left (`right == false`) or Right on Setup row `row`:
/// only the refresh rate and the two meter modes step.
pub open spec fn setup_adjusted(c: SetupSettings, row: int, right: bool) -> SetupSettings {
    if row == 0 {
        SetupSettings {
            refresh_rate_ms: if right {
                spec_next_refresh_rate(c.refresh_rate_ms)
            } else {
                spec_prev_refresh_rate(c.refresh_rate_ms)
            },
            ..c
        }
    } else if row == 1 {
        SetupSettings {
            cpu_meter_mode: if right {
                c.cpu_meter_mode.spec_next()
            } else {
                spec_prev_meter_mode(c.cpu_meter_mode)
            },
            ..c
        }
    } else if row == 2 {
        SetupSettings {
            memory_meter_mode: if right {
                c.memory_meter_mode.spec_next()
            } else {
                spec_prev_meter_mode(c.memory_meter_mode)
            },
            ..c
        }
    } else {
        c
    }
}

/// The color-scheme list row of `scheme`.
pub open spec fn scheme_row(scheme: ColorScheme) -> int {
    match scheme {
        ColorScheme::Default => 0,
        ColorScheme::Monochrome => 1,
        ColorScheme::BlackOnWhite => 2,
        ColorScheme::LightTerminal => 3,
        ColorScheme::Midnight => 4,
        ColorScheme::Blacknight => 5,
        ColorScheme::BrokenGray => 6,
        ColorScheme::Nord => 7,
    }
}

/// What Enter does on Setup row `row` beyond changing the configuration.
pub open spec fn setup_enter_outcome(c: Config, row: int) -> SetupOutcome {
    if row == 5 {
        SetupOutcome::RefreshDisplay
    } else if row == 8 {
        SetupOutcome::ToggleTreeView
    } else if row == 10 {
        SetupOutcome::OpenColorScheme(scheme_row(c.color_scheme) as usize)
    } else if row == 11 {
        SetupOutcome::OpenColumnConfig
    } else if row == 12 {
        SetupOutcome::SettingsReset
    } else {
        SetupOutcome::Stay
    }
}

/// The row of `scheme` in the color-scheme list.
fn color_scheme_row(scheme: ColorScheme) -> (r: usize)
    ensures
        r == scheme_row(scheme),
        ColorScheme::spec_all()[r as int] == scheme,
{
    let all = ColorScheme::all();
    let mut i: usize = 0;
    while i < all.len()
        invariant
            all@ == ColorScheme::spec_all(),
            0 <= i <= all@.len(),
            i <= scheme_row(scheme),
        decreases all.len() - i,
    {
        if all[i] == scheme {
            return i;
        }
        i = i + 1;
    }
    0
}

/// The Setup-edited settings of `config`.
fn read_setup_settings(config: &Config) -> (s: SetupSettings)
    ensures
        s == setup_settings(*config),
{
    SetupSettings {
        refresh_rate_ms: config.refresh_rate_ms,
        tree_view_default: config.tree_view_default,
        cpu_meter_mode: config.cpu_meter_mode,
        memory_meter_mode: config.memory_meter_mode,
        show_kernel_threads: config.show_kernel_threads,
        show_user_threads: config.show_user_threads,
        show_program_path: config.show_program_path,
        highlight_new_processes: config.highlight_new_processes,
        highlight_large_numbers: config.highlight_large_numbers,
        confirm_kill: config.confirm_kill,
    }
}

/// `c` with `s` as its Setup-edited settings.
fn with_setup_settings(c: Config, s: SetupSettings) -> (r: Config)
    ensures
        same_beyond_setup(r, c),
        setup_settings(r) == s,
{
    Config {
        refresh_rate_ms: s.refresh_rate_ms,
        tree_view_default: s.tree_view_default,
        cpu_meter_mode: s.cpu_meter_mode,
        memory_meter_mode: s.memory_meter_mode,
        show_kernel_threads: s.show_kernel_threads,
        show_user_threads: s.show_user_threads,
        show_program_path: s.show_program_path,
        highlight_new_processes: s.highlight_new_processes,
        highlight_large_numbers: s.highlight_large_numbers,
        confirm_kill: s.confirm_kill,
        ..c
    }
}

/// Store `s` as the Setup-edited settings of `config`.
fn store_setup_settings(config: &mut Config, s: SetupSettings)
    ensures
        same_beyond_setup(*final(config), *old(config)),
        setup_settings(*final(config)) == s,
{
    let mut taken = Config::default();
    std::mem::swap(config, &mut taken);
    *config = with_setup_settings(taken, s);
}

/// The settings after Enter on Setup row `row` (see [`setup_activated`]).
fn activate_setting(s: SetupSettings, row: usize) -> (r: SetupSettings)
    ensures
        r == setup_activated(s, row as int),
{
    match row {
        0 => SetupSettings { refresh_rate_ms: next_refresh_rate(s.refresh_rate_ms), ..s },
        1 => SetupSettings { cpu_meter_mode: s.cpu_meter_mode.next(), ..s },
        2 => SetupSettings { memory_meter_mode: s.memory_meter_mode.next(), ..s },
        3 => SetupSettings { show_kernel_threads: !s.show_kernel_threads, ..s },
        4 => SetupSettings { show_user_threads: !s.show_user_threads, ..s },
        5 => SetupSettings { show_program_path: !s.show_program_path, ..s },
        6 => SetupSettings { highlight_new_processes: !s.highlight_new_processes, ..s },
        7 => SetupSettings { highlight_large_numbers: !s.highlight_large_numbers, ..s },
        9 => SetupSettings { confirm_kill: !s.confirm_kill, ..s },
        _ => s,
    }
}

/// The settings after Left or Right on Setup row `row` (see
/// [`setup_adjusted`]).
fn adjust_setting(s: SetupSettings, row: usize, right: bool) -> (r: SetupSettings)
    ensures
        r == setup_adjusted(s, row as int, right),
{
    match row {
        0 => SetupSettings {
            refresh_rate_ms: if right {
                next_refresh_rate(s.refresh_rate_ms)
            } else {
                prev_refresh_rate(s.refresh_rate_ms)
            },
            ..s
        },
        1 => SetupSettings {
            cpu_meter_mode: if right { s.cpu_meter_mode.next() } else { prev_meter_mode(s.cpu_meter_mode) },
            ..s
        },
        2 => SetupSettings {
            memory_meter_mode: if right {
                s.memory_meter_mode.next()
            } else {
                prev_meter_mode(s.memory_meter_mode)
            },
            ..s
        },
        _ => s,
    }
}

/// Enter (or Space) on Setup row `row`.
fn setup_enter(config: &mut Config, row: usize) -> (outcome: SetupOutcome)
    ensures
        outcome == setup_enter_outcome(*old(config), row as int),
        row == SETUP_LAST_ROW ==> is_default_config(*final(config)),
        row != SETUP_LAST_ROW ==> same_beyond_setup(*final(config), *old(config)),
        row != SETUP_LAST_ROW ==> setup_settings(*final(config)) == setup_activated(
            setup_settings(*old(config)),
            row as int,
        ),
{
    if row == SETUP_LAST_ROW {
        config.reset_to_defaults();
        return SetupOutcome::SettingsReset;
    }
    let outcome = if row == 5 {
        SetupOutcome::RefreshDisplay
    } else if row == 8 {
        SetupOutcome::ToggleTreeView
    } else if row == 10 {
        SetupOutcome::OpenColorScheme(color_scheme_row(config.color_scheme))
    } else if row == 11 {
        SetupOutcome::OpenColumnConfig
    } else {
        SetupOutcome::Stay
    };
    let s = activate_setting(read_setup_settings(config), row);
    store_setup_settings(config, s);
    outcome
}

/// Left (`right == false`) or Right on Setup row `row`.
fn setup_adjust(config: &mut Config, row: usize, right: bool)
    ensures
        same_beyond_setup(*final(config), *old(config)),
        setup_settings(*final(config)) == setup_adjusted(setup_settings(*old(config)), row as int, right),
{
    let s = adjust_setting(read_setup_settings(config), row, right);
    store_setup_settings(config, s);
}

/// Handle a key on the Setup screen: `selected` is the highlighted row.
/// Esc or F2 leaves (saving); the arrows (or `k`/`j`) move between rows;
/// Enter or Space changes the highlighted setting or opens its submenu;
/// Left and Right step the refresh rate and the meter modes.
#[verifier::spinoff_prover]
pub fn handle_setup_key(config: &mut Config, selected: &mut usize, key: KeyCode) -> (outcome: SetupOutcome)
    ensures
        match key {
            KeyCode::Esc | KeyCode::F(2) => {
                &&& outcome == SetupOutcome::Close
                &&& *final(config) == *old(config)
                &&& *final(selected) == *old(selected)
            },
            KeyCode::Up | KeyCode::Char('k') => {
                &&& outcome == SetupOutcome::Stay
                &&& *final(config) == *old(config)
                &&& *final(selected) == if *old(selected) > 0 { *old(selected) - 1 } else { 0 }
            },
            KeyCode::Down | KeyCode::Char('j') => {
                &&& outcome == SetupOutcome::Stay
                &&& *final(config) == *old(config)
                &&& *final(selected) == if *old(selected) < SETUP_LAST_ROW {
                    *old(selected) + 1
                } else {
                    *old(selected) as int
                }
            },
            KeyCode::Enter | KeyCode::Char(' ') => {
                &&& outcome == setup_enter_outcome(*old(config), *old(selected) as int)
                &&& *old(selected) == SETUP_LAST_ROW ==> is_default_config(*final(config))
                &&& *old(selected) != SETUP_LAST_ROW ==> same_beyond_setup(*final(config), *old(config))
                &&& *old(selected) != SETUP_LAST_ROW ==> setup_settings(*final(config)) == setup_activated(
                    setup_settings(*old(config)),
                    *old(selected) as int,
                )
                &&& *final(selected) == *old(selected)
            },
            KeyCode::Left | KeyCode::Right => {
                &&& outcome == SetupOutcome::Stay
                &&& same_beyond_setup(*final(config), *old(config))
                &&& setup_settings(*final(config)) == setup_adjusted(
                    setup_settings(*old(config)),
                    *old(selected) as int,
                    key == KeyCode::Right,
                )
                &&& *final(selected) == *old(selected)
            },
            _ => {
                &&& outcome == SetupOutcome::Stay
                &&& *final(config) == *old(config)
                &&& *final(selected) == *old(selected)
            },
        },
{
    match key {
        KeyCode::Esc | KeyCode::F(2) => SetupOutcome::Close,
        KeyCode::Up | KeyCode::Char('k') => {
            if *selected > 0 {
                *selected = *selected - 1;
            }
            SetupOutcome::Stay
        },
        KeyCode::Down | KeyCode::Char('j') => {
            if *selected < SETUP_LAST_ROW {
                *selected = *selected + 1;
            }
            SetupOutcome::Stay
        },
        KeyCode::Enter | KeyCode::Char(' ') => setup_enter(config, *selected),
        KeyCode::Left | KeyCode::Right => {
            setup_adjust(config, *selected, key == KeyCode::Right);
            SetupOutcome::Stay
        },
        _ => SetupOutcome::Stay,
    }
}

// ============================================================================
// The main screen
// ============================================================================

/// A key press: the key and whether Ctrl and Shift were held.
#[derive(Clone, Copy, Debug, PartialEq, Eq, Structural)]
pub struct KeyPress {
    pub code: KeyCode,
    pub ctrl: bool,
    pub shift: bool,
}

/// What the main screen's key handling reads of the application.
#[derive(Clone, Copy, Debug, PartialEq, Eq, Structural)]
pub struct MainScreen {
    /// The run was limited to a number of refreshes and has had them all.
    pub iterations_done: bool,
    pub focus: FocusRegion,
    pub tree_view: bool,
    /// No process is collapsed in the tree.
    pub nothing_collapsed: bool,
}

/// What a key on the main screen asks the application to do.
#[derive(Clone, Copy, Debug, PartialEq, Eq, Structural)]
pub enum MainAction {
    Quit,
    FocusNext,
    FocusPrev,
    FocusProcessList,
    Redraw,
    SelectUp,
    SelectDown,
    NavigateLeft,
    NavigateRight,
    PageUp,
    PageDown,
    SelectFirst,
    SelectLast,
    /// Tag the selected process and move down.
    TagAndDown,
    UntagAll,
    TagWithChildren,
    TagAllByName,
    TagAllVisible,
    UserSelect,
    ToggleFollow,
    TogglePause,
    ToggleHeader,
    ToggleKernelThreads,
    ToggleUserThreads,
    ToggleProgramPath,
    CommandWrap,
    Affinity,
    ExpandTree,
    CollapseTree,
    CollapseAll,
    ExpandAll,
    CollapseToParent,
    Environment,
    Help,
    Setup,
    Search,
    Filter,
    ToggleTree,
    SortSelect,
    /// Open the priority dialog with the class `step` places above (1) or
    /// below (-1) the process's current one highlighted.
    Priority(i32),
    Kill,
    FindNext,
    /// Activate the focused element (which may quit).
    Activate,
    SortBy(SortColumn),
    ReverseSort,
    PidDigit(char),
    Nothing,
}

/// The action for `key` on the main screen in state `screen`.
pub open spec fn main_action(screen: MainScreen, key: KeyPress) -> MainAction {
    let c = key.code;
    if screen.iterations_done {
        MainAction::Quit
    } else if c == KeyCode::F(10) || c == KeyCode::Char('q') || c == KeyCode::Char('Q') {
        MainAction::Quit
    } else if c == KeyCode::Char('c') && key.ctrl {
        MainAction::Quit
    } else if c == KeyCode::Tab {
        if key.shift { MainAction::FocusPrev } else { MainAction::FocusNext }
    } else if c == KeyCode::BackTab {
        MainAction::FocusPrev
    } else if c == KeyCode::Char('l') && key.ctrl {
        MainAction::Redraw
    } else if c == KeyCode::Up {
        if screen.focus == FocusRegion::ProcessList { MainAction::SelectUp } else { MainAction::FocusProcessList }
    } else if c == KeyCode::Char('k') && !key.ctrl {
        MainAction::SelectUp
    } else if c == KeyCode::Down || c == KeyCode::Char('j') {
        if screen.focus == FocusRegion::ProcessList { MainAction::SelectDown } else { MainAction::FocusProcessList }
    } else if c == KeyCode::Left {
        MainAction::NavigateLeft
    } else if c == KeyCode::Right {
        MainAction::NavigateRight
    } else if c == KeyCode::PageUp {
        MainAction::PageUp
    } else if c == KeyCode::PageDown {
        MainAction::PageDown
    } else if c == KeyCode::Home || c == KeyCode::Char('g') {
        MainAction::SelectFirst
    } else if c == KeyCode::End || c == KeyCode::Char('G') {
        MainAction::SelectLast
    } else if c == KeyCode::Char(' ') {
        MainAction::TagAndDown
    } else if c == KeyCode::Char('U') {
        MainAction::UntagAll
    } else if c == KeyCode::Char('c') {
        MainAction::TagWithChildren
    } else if c == KeyCode::Char('t') && key.ctrl {
        MainAction::TagAllByName
    } else if c == KeyCode::Char('a') && key.ctrl {
        MainAction::TagAllVisible
    } else if c == KeyCode::Char('u') {
        MainAction::UserSelect
    } else if c == KeyCode::Char('F') {
        MainAction::ToggleFollow
    } else if c == KeyCode::Char('Z') {
        MainAction::TogglePause
    } else if c == KeyCode::Char('#') {
        MainAction::ToggleHeader
    } else if c == KeyCode::Char('K') {
        MainAction::ToggleKernelThreads
    } else if c == KeyCode::Char('H') {
        MainAction::ToggleUserThreads
    } else if c == KeyCode::Char('p') {
        MainAction::ToggleProgramPath
    } else if c == KeyCode::Char('w') {
        MainAction::CommandWrap
    } else if c == KeyCode::Char('a') {
        MainAction::Affinity
    } else if c == KeyCode::Char('+') || c == KeyCode::Char('=') {
        if screen.tree_view { MainAction::ExpandTree } else { MainAction::Nothing }
    } else if c == KeyCode::Char('-') {
        if screen.tree_view { MainAction::CollapseTree } else { MainAction::Nothing }
    } else if c == KeyCode::Char('*') {
        if !screen.tree_view {
            MainAction::Nothing
        } else if screen.nothing_collapsed {
            MainAction::CollapseAll
        } else {
            MainAction::ExpandAll
        }
    } else if c == KeyCode::Backspace {
        if screen.tree_view { MainAction::CollapseToParent } else { MainAction::Nothing }
    } else if c == KeyCode::Char('e') {
        MainAction::Environment
    } else if c == KeyCode::F(1) || c == KeyCode::Char('?') {
        MainAction::Help
    } else if c == KeyCode::F(2) || c == KeyCode::Char('S') {
        MainAction::Setup
    } else if c == KeyCode::F(3) || c == KeyCode::Char('/') {
        MainAction::Search
    } else if c == KeyCode::F(4) || c == KeyCode::Char('\\') {
        MainAction::Filter
    } else if c == KeyCode::F(5) || c == KeyCode::Char('t') {
        MainAction::ToggleTree
    } else if c == KeyCode::F(6) || c == KeyCode::Char('>') || c == KeyCode::Char('.') || c == KeyCode::Char('<')
        || c == KeyCode::Char(',') {
        MainAction::SortSelect
    } else if c == KeyCode::F(7) || c == KeyCode::Char(']') {
        MainAction::Priority(1i32)
    } else if c == KeyCode::F(8) || c == KeyCode::Char('[') {
        MainAction::Priority(-1i32)
    } else if c == KeyCode::F(9) || c == KeyCode::Char('k') {
        MainAction::Kill
    } else if c == KeyCode::Char('n') {
        MainAction::FindNext
    } else if c == KeyCode::Enter {
        MainAction::Activate
    } else if c == KeyCode::Char('N') {
        MainAction::SortBy(SortColumn::Pid)
    } else if c == KeyCode::Char('P') {
        MainAction::SortBy(SortColumn::Cpu)
    } else if c == KeyCode::Char('M') {
        MainAction::SortBy(SortColumn::Mem)
    } else if c == KeyCode::Char('T') {
        MainAction::SortBy(SortColumn::Time)
    } else if c == KeyCode::Char('I') {
        MainAction::ReverseSort
    } else {
        match c {
            KeyCode::Char(d) => if '0' <= d && d <= '9' { MainAction::PidDigit(d) } else { MainAction::Nothing },
            _ => MainAction::Nothing,
        }
    }
}

/// What a key does on the main screen.
pub fn handle_main_key(screen: MainScreen, key: KeyPress) -> (action: MainAction)
    ensures
        action == main_action(screen, key),
{
    let c = key.code;
    if screen.iterations_done {
        return MainAction::Quit;
    }
    match c {
        KeyCode::F(10) | KeyCode::Char('q') | KeyCode::Char('Q') => MainAction::Quit,
        KeyCode::Char('c') if key.ctrl => MainAction::Quit,
        KeyCode::Tab => if key.shift { MainAction::FocusPrev } else { MainAction::FocusNext },
        KeyCode::BackTab => MainAction::FocusPrev,
        KeyCode::Char('l') if key.ctrl => MainAction::Redraw,
        KeyCode::Up => if screen.focus == FocusRegion::ProcessList {
            MainAction::SelectUp
        } else {
            MainAction::FocusProcessList
        },
        KeyCode::Char('k') if !key.ctrl => MainAction::SelectUp,
        KeyCode::Down | KeyCode::Char('j') => if screen.focus == FocusRegion::ProcessList {
            MainAction::SelectDown
        } else {
            MainAction::FocusProcessList
        },
        KeyCode::Left => MainAction::NavigateLeft,
        KeyCode::Right => MainAction::NavigateRight,
        KeyCode::PageUp => MainAction::PageUp,
        KeyCode::PageDown => MainAction::PageDown,
        KeyCode::Home | KeyCode::Char('g') => MainAction::SelectFirst,
        KeyCode::End | KeyCode::Char('G') => MainAction::SelectLast,
        KeyCode::Char(' ') => MainAction::TagAndDown,
        KeyCode::Char('U') => MainAction::UntagAll,
        KeyCode::Char('c') => MainAction::TagWithChildren,
        KeyCode::Char('t') if key.ctrl => MainAction::TagAllByName,
        KeyCode::Char('a') if key.ctrl => MainAction::TagAllVisible,
        KeyCode::Char('u') => MainAction::UserSelect,
        KeyCode::Char('F') => MainAction::ToggleFollow,
        KeyCode::Char('Z') => MainAction::TogglePause,
        KeyCode::Char('#') => MainAction::ToggleHeader,
        KeyCode::Char('K') => MainAction::ToggleKernelThreads,
        KeyCode::Char('H') => MainAction::ToggleUserThreads,
        KeyCode::Char('p') => MainAction::ToggleProgramPath,
        KeyCode::Char('w') => MainAction::CommandWrap,
        KeyCode::Char('a') => MainAction::Affinity,
        KeyCode::Char('+') | KeyCode::Char('=') => if screen.tree_view {
            MainAction::ExpandTree
        } else {
            MainAction::Nothing
        },
        KeyCode::Char('-') => if screen.tree_view { MainAction::CollapseTree } else { MainAction::Nothing },
        KeyCode::Char('*') => if !screen.tree_view {
            MainAction::Nothing
        } else if screen.nothing_collapsed {
            MainAction::CollapseAll
        } else {
            MainAction::ExpandAll
        },
        KeyCode::Backspace => if screen.tree_view { MainAction::CollapseToParent } else { MainAction::Nothing },
        KeyCode::Char('e') => MainAction::Environment,
        KeyCode::F(1) | KeyCode::Char('?') => MainAction::Help,
        KeyCode::F(2) | KeyCode::Char('S') => MainAction::Setup,
        KeyCode::F(3) | KeyCode::Char('/') => MainAction::Search,
        KeyCode::F(4) | KeyCode::Char('\\') => MainAction::Filter,
        KeyCode::F(5) | KeyCode::Char('t') => MainAction::ToggleTree,
        KeyCode::F(6) | KeyCode::Char('>') | KeyCode::Char('.') | KeyCode::Char('<') | KeyCode::Char(',') => {
            MainAction::SortSelect
        },
        KeyCode::F(7) | KeyCode::Char(']') => MainAction::Priority(1),
        KeyCode::F(8) | KeyCode::Char('[') => MainAction::Priority(-1),
        KeyCode::F(9) | KeyCode::Char('k') => MainAction::Kill,
        KeyCode::Char('n') => MainAction::FindNext,
        KeyCode::Enter => MainAction::Activate,
        KeyCode::Char('N') => MainAction::SortBy(SortColumn::Pid),
        KeyCode::Char('P') => MainAction::SortBy(SortColumn::Cpu),
        KeyCode::Char('M') => MainAction::SortBy(SortColumn::Mem),
        KeyCode::Char('T') => MainAction::SortBy(SortColumn::Time),
        KeyCode::Char('I') => MainAction::ReverseSort,
        KeyCode::Char(d) if '0' <= d && d <= '9' => MainAction::PidDigit(d),
        _ => MainAction::Nothing,
    }
}

/// F10, `q` and `Q` always quit the main screen, and so does Ctrl+C.
pub proof fn quit_keys_quit(screen: MainScreen, ctrl: bool, shift: bool)
    ensures
        main_action(screen, KeyPress { code: KeyCode::F(10), ctrl, shift }) == MainAction::Quit,
        main_action(screen, KeyPress { code: KeyCode::Char('q'), ctrl, shift }) == MainAction::Quit,
        main_action(screen, KeyPress { code: KeyCode::Char('Q'), ctrl, shift }) == MainAction::Quit,
        main_action(screen, KeyPress { code: KeyCode::Char('c'), ctrl: true, shift }) == MainAction::Quit,
{
}

// ============================================================================
// Small dialogs
// ============================================================================

/// A list cursor moved by a key: up (or `k`) and down (or `j`) by one,
/// staying within the `len` rows; Home and End when `ends` allows them.
pub open spec fn list_moved(index: int, len: int, key: KeyCode, ends: bool) -> int {
    if key == KeyCode::Up || key == KeyCode::Char('k') {
        if index > 0 { index - 1 } else { index }
    } else if key == KeyCode::Down || key == KeyCode::Char('j') {
        if index < len - 1 { index + 1 } else { index }
    } else if ends && key == KeyCode::Home {
        0
    } else if ends && key == KeyCode::End {
        len - 1
    } else {
        index
    }
}

/// What a key does in the sort-column list.
#[derive(Clone, Copy, Debug, PartialEq, Eq, Structural)]
pub enum SortSelectOutcome {
    Stay,
    /// Close the list without sorting.
    Close,
    /// Sort by this column and close the list.
    Choose(SortColumn),
}

/// A key in the sort-column list, `index` being the highlighted row: Esc
/// closes, Enter sorts by the highlighted column (a row past the end sorts
/// by nothing), and the arrows, `k`/`j`, Home and End move.
pub fn sort_select_key(index: &mut usize, key: KeyCode) -> (outcome: SortSelectOutcome)
    ensures
        outcome == if key == KeyCode::Esc {
            SortSelectOutcome::Close
        } else if key == KeyCode::Enter {
            if *old(index) < canonical_columns().len() {
                SortSelectOutcome::Choose(canonical_columns()[*old(index) as int])
            } else {
                SortSelectOutcome::Close
            }
        } else {
            SortSelectOutcome::Stay
        },
        *final(index) == if key == KeyCode::Esc || key == KeyCode::Enter {
            *old(index) as int
        } else {
            list_moved(*old(index) as int, canonical_columns().len() as int, key, true)
        },
{
    let columns = SortColumn::all();
    match key {
        KeyCode::Esc => SortSelectOutcome::Close,
        KeyCode::Enter => if *index < columns.len() {
            SortSelectOutcome::Choose(columns[*index])
        } else {
            SortSelectOutcome::Close
        },
        KeyCode::Up | KeyCode::Char('k') => {
            if *index > 0 {
                *index = *index - 1;
            }
            SortSelectOutcome::Stay
        },
        KeyCode::Down | KeyCode::Char('j') => {
            if *index < columns.len() - 1 {
                *index = *index + 1;
            }
            SortSelectOutcome::Stay
        },
        KeyCode::Home => {
            *index = 0;
            SortSelectOutcome::Stay
        },
        KeyCode::End => {
            *index = columns.len() - 1;
            SortSelectOutcome::Stay
        },
        _ => SortSelectOutcome::Stay,
    }
}

/// The signal for a polite termination request.
pub const SIGNAL_TERMINATE: u32 = 15;

/// The signal for a forced kill.
pub const SIGNAL_KILL: u32 = 9;

/// What a key does in the terminate confirmation.
#[derive(Clone, Copy, Debug, PartialEq, Eq, Structural)]
pub enum KillChoice {
    Nothing,
    /// Close without terminating anything.
    Cancel,
    /// Send this signal to the tagged processes (or the target) and close.
    Terminate(u32),
}

/// What `key` means in the terminate confirmation: Esc, Delete, Backspace
/// and `n` cancel; Enter, Space and `y` terminate; `9` kills.
pub open spec fn spec_kill_choice(key: KeyCode) -> KillChoice {
    if key == KeyCode::Esc || key == KeyCode::Delete || key == KeyCode::Backspace || key == KeyCode::Char('n')
        || key == KeyCode::Char('N') {
        KillChoice::Cancel
    } else if key == KeyCode::Enter || key == KeyCode::Char(' ') || key == KeyCode::Char('y') || key
        == KeyCode::Char('Y') {
        KillChoice::Terminate(SIGNAL_TERMINATE)
    } else if key == KeyCode::Char('9') {
        KillChoice::Terminate(SIGNAL_KILL)
    } else {
        KillChoice::Nothing
    }
}

/// A key in the terminate confirmation.
pub fn kill_dialog_key(key: KeyCode) -> (choice: KillChoice)
    ensures
        choice == spec_kill_choice(key),
{
    match key {
        KeyCode::Esc | KeyCode::Delete | KeyCode::Backspace => KillChoice::Cancel,
        KeyCode::Char('n') | KeyCode::Char('N') => KillChoice::Cancel,
        KeyCode::Enter | KeyCode::Char(' ') => KillChoice::Terminate(SIGNAL_TERMINATE),
        KeyCode::Char('y') | KeyCode::Char('Y') => KillChoice::Terminate(SIGNAL_TERMINATE),
        KeyCode::Char('9') => KillChoice::Terminate(SIGNAL_KILL),
        _ => KillChoice::Nothing,
    }
}

/// What a key does in the priority dialog.
#[derive(Clone, Copy, Debug, PartialEq, Eq, Structural)]
pub enum PriorityOutcome {
    Stay,
    Close,
    /// Give the selected process this priority class and close.
    Apply(WindowsPriorityClass),
    ToggleEfficiency,
}

/// A key in the priority dialog, `index` being the highlighted class (from
/// lowest to highest priority): Esc closes, Enter applies the class, Up and
/// Left move to a lower class, Down and Right to a higher one, `e` toggles
/// efficiency mode.
pub fn priority_dialog_key(index: &mut usize, key: KeyCode) -> (outcome: PriorityOutcome)
    ensures
        outcome == if key == KeyCode::Esc {
            PriorityOutcome::Close
        } else if key == KeyCode::Enter {
            PriorityOutcome::Apply(WindowsPriorityClass::spec_from_index(*old(index) as int))
        } else if key == KeyCode::Char('e') || key == KeyCode::Char('E') {
            PriorityOutcome::ToggleEfficiency
        } else {
            PriorityOutcome::Stay
        },
        *final(index) == if key == KeyCode::Up || key == KeyCode::Left {
            if *old(index) > 0 { *old(index) - 1 } else { *old(index) as int }
        } else if key == KeyCode::Down || key == KeyCode::Right {
            if *old(index) < priority_classes().len() - 1 { *old(index) + 1 } else { *old(index) as int }
        } else {
            *old(index) as int
        },
{
    let max_index = WindowsPriorityClass::all().len() - 1;
    match key {
        KeyCode::Esc => PriorityOutcome::Close,
        KeyCode::Enter => PriorityOutcome::Apply(WindowsPriorityClass::from_index(*index)),
        KeyCode::Up | KeyCode::Left => {
            if *index > 0 {
                *index = *index - 1;
            }
            PriorityOutcome::Stay
        },
        KeyCode::Down | KeyCode::Right => {
            if *index < max_index {
                *index = *index + 1;
            }
            PriorityOutcome::Stay
        },
        KeyCode::Char('e') | KeyCode::Char('E') => PriorityOutcome::ToggleEfficiency,
        _ => PriorityOutcome::Stay,
    }
}

/// What a key does in the colour-scheme list.
#[derive(Clone, Copy, Debug, PartialEq, Eq, Structural)]
pub enum ColorSchemeOutcome {
    Stay,
    /// Back to the Setup screen without a change.
    Back,
    /// Use this scheme, save the configuration and go back to Setup.
    Choose(ColorScheme),
}

/// A key in the colour-scheme list, `index` being the highlighted row: Esc
/// goes back, Enter picks the highlighted scheme (a row past the end picks
/// none), the arrows and `k`/`j` move within the list.
pub fn color_scheme_key(index: &mut usize, key: KeyCode) -> (outcome: ColorSchemeOutcome)
    ensures
        outcome == if key == KeyCode::Esc {
            ColorSchemeOutcome::Back
        } else if key == KeyCode::Enter {
            if *old(index) < ColorScheme::spec_all().len() {
                ColorSchemeOutcome::Choose(ColorScheme::spec_all()[*old(index) as int])
            } else {
                ColorSchemeOutcome::Back
            }
        } else {
            ColorSchemeOutcome::Stay
        },
        *final(index) == if key == KeyCode::Esc || key == KeyCode::Enter {
            *old(index) as int
        } else {
            list_moved(*old(index) as int, ColorScheme::spec_all().len() as int, key, false)
        },
{
    let schemes = ColorScheme::all();
    match key {
        KeyCode::Esc => ColorSchemeOutcome::Back,
        KeyCode::Enter => if *index < schemes.len() {
            ColorSchemeOutcome::Choose(schemes[*index])
        } else {
            ColorSchemeOutcome::Back
        },
        KeyCode::Up | KeyCode::Char('k') => {
            if *index > 0 {
                *index = *index - 1;
            }
            ColorSchemeOutcome::Stay
        },
        KeyCode::Down | KeyCode::Char('j') => {
            if *index < schemes.len() - 1 {
                *index = *index + 1;
            }
            ColorSchemeOutcome::Stay
        },
        _ => ColorSchemeOutcome::Stay,
    }
}

// ============================================================================
// Keyboard focus on the header, the list and the function-key bar
// ============================================================================

/// The function keys on the footer bar: F1 to F10.
pub const FOOTER_KEYS: usize = 10;

/// What Left or Right does in a focus region.
#[derive(Clone, Copy, Debug, PartialEq, Eq, Structural)]
pub enum FocusStep {
    /// Cycle the CPU meter mode (and save the change).
    NextCpuMeterMode,
    /// Cycle the memory meter mode (and save the change).
    NextMemoryMeterMode,
    Stay,
    /// Focus this footer key instead.
    FooterKey(usize),
}

/// Left: the header cycles the CPU meter, the footer moves one key left
/// (from F1 round to F10), the list ignores it.
pub fn navigate_left(region: FocusRegion, focus_index: usize) -> (step: FocusStep)
    ensures
        step == match region {
            FocusRegion::Header => FocusStep::NextCpuMeterMode,
            FocusRegion::ProcessList => FocusStep::Stay,
            FocusRegion::Footer => FocusStep::FooterKey(
                if focus_index > 0 { (focus_index - 1) as usize } else { (FOOTER_KEYS - 1) as usize },
            ),
        },
{
    match region {
        FocusRegion::Header => FocusStep::NextCpuMeterMode,
        FocusRegion::ProcessList => FocusStep::Stay,
        FocusRegion::Footer => FocusStep::FooterKey(if focus_index > 0 { focus_index - 1 } else { FOOTER_KEYS - 1 }),
    }
}

/// Right: the header cycles the memory meter, the footer moves one key
/// right (from F10 round to F1), the list ignores it.
pub fn navigate_right(region: FocusRegion, focus_index: usize) -> (step: FocusStep)
    ensures
        step == match region {
            FocusRegion::Header => FocusStep::NextMemoryMeterMode,
            FocusRegion::ProcessList => FocusStep::Stay,
            FocusRegion::Footer => FocusStep::FooterKey(
                if focus_index < FOOTER_KEYS - 1 { (focus_index + 1) as usize } else { 0 },
            ),
        },
{
    match region {
        FocusRegion::Header => FocusStep::NextMemoryMeterMode,
        FocusRegion::ProcessList => FocusStep::Stay,
        FocusRegion::Footer => FocusStep::FooterKey(if focus_index < FOOTER_KEYS - 1 { focus_index + 1 } else { 0 }),
    }
}

/// On the footer, Left then Right (or Right then Left) comes back to the
/// same key.
pub proof fn footer_steps_undo(i: usize)
    requires
        i < FOOTER_KEYS,
    ensures
        ({
            let l = if i > 0 { (i - 1) as usize } else { (FOOTER_KEYS - 1) as usize };
            (if l < FOOTER_KEYS - 1 { (l + 1) as usize } else { 0 }) == i
        }),
        ({
            let r = if i < FOOTER_KEYS - 1 { (i + 1) as usize } else { 0 };
            (if r > 0 { (r - 1) as usize } else { (FOOTER_KEYS - 1) as usize }) == i
        }),
{
}

/// The action of function key F`key` (F7 opens the priority dialog one
/// class up, F8 one class down).
pub open spec fn function_key_spec(key: u8) -> MainAction {
    if key == 1 {
        MainAction::Help
    } else if key == 2 {
        MainAction::Setup
    } else if key == 3 {
        MainAction::Search
    } else if key == 4 {
        MainAction::Filter
    } else if key == 5 {
        MainAction::ToggleTree
    } else if key == 6 {
        MainAction::SortSelect
    } else if key == 7 {
        MainAction::Priority(1i32)
    } else if key == 8 {
        MainAction::Priority(-1i32)
    } else if key == 9 {
        MainAction::Kill
    } else if key == 10 {
        MainAction::Quit
    } else {
        MainAction::Nothing
    }
}

pub fn function_key_action(key: u8) -> (action: MainAction)
    ensures
        action == function_key_spec(key),
{
    match key {
        1 => MainAction::Help,
        2 => MainAction::Setup,
        3 => MainAction::Search,
        4 => MainAction::Filter,
        5 => MainAction::ToggleTree,
        6 => MainAction::SortSelect,
        7 => MainAction::Priority(1),
        8 => MainAction::Priority(-1),
        9 => MainAction::Kill,
        10 => MainAction::Quit,
        _ => MainAction::Nothing,
    }
}

/// A function key does what the same key does when pressed on the main
/// screen.
pub proof fn function_keys_match_key_presses(screen: MainScreen, key: u8)
    requires
        1 <= key <= 10,
        !screen.iterations_done,
    ensures
        function_key_spec(key) == main_action(screen, KeyPress { code: KeyCode::F(key), ctrl: false, shift: false }),
{
}

/// What Enter does in a focus region.
#[derive(Clone, Copy, Debug, PartialEq, Eq, Structural)]
pub enum Activation {
    ToggleHeader,
    ProcessInfo,
    /// Act as this function key (F1 to F10).
    FunctionKey(u8),
}

/// Enter: the header hides or shows itself, the list opens the process
/// details, the footer presses the focused function key.
pub fn activate_focused(region: FocusRegion, focus_index: usize) -> (a: Activation)
    requires
        focus_index < FOOTER_KEYS,
    ensures
        a == match region {
            FocusRegion::Header => Activation::ToggleHeader,
            FocusRegion::ProcessList => Activation::ProcessInfo,
            FocusRegion::Footer => Activation::FunctionKey((focus_index + 1) as u8),
        },
{
    match region {
        FocusRegion::Header => Activation::ToggleHeader,
        FocusRegion::ProcessList => Activation::ProcessInfo,
        FocusRegion::Footer => Activation::FunctionKey((focus_index + 1) as u8),
    }
}

/// The class highlighted when the priority dialog opens: the process's
/// current class moved by `step`, kept within the list of classes.
pub open spec fn preselected_class(base_priority: i32, step: i32) -> int {
    let t = WindowsPriorityClass::spec_from_base_priority(base_priority).rank() + step;
    let max = priority_classes().len() - 1;
    if t < 0 { 0 } else if t > max { max } else { t }
}

pub fn priority_preselect(base_priority: i32, step: i32) -> (r: usize)
    ensures
        r as int == preselected_class(base_priority, step),
        r < priority_classes().len(),
{
    let current = WindowsPriorityClass::from_base_priority(base_priority).index();
    let max = WindowsPriorityClass::all().len() - 1;
    let t: i64 = current as i64 + step as i64;
    if t < 0 {
        0
    } else if t > max as i64 {
        max
    } else {
        t as usize
    }
}

/// The htop sort shortcuts pick four different columns, whatever the
/// focus and modifiers: `N` the PID, `P` CPU%, `M` MEM%, `T` TIME+; `I`
/// reverses the order.
pub proof fn sort_shortcuts_as_in_htop(screen: MainScreen, ctrl: bool, shift: bool)
    requires
        !screen.iterations_done,
    ensures
        main_action(screen, KeyPress { code: KeyCode::Char('N'), ctrl, shift }) == MainAction::SortBy(SortColumn::Pid),
        main_action(screen, KeyPress { code: KeyCode::Char('P'), ctrl, shift }) == MainAction::SortBy(SortColumn::Cpu),
        main_action(screen, KeyPress { code: KeyCode::Char('M'), ctrl, shift }) == MainAction::SortBy(SortColumn::Mem),
        main_action(screen, KeyPress { code: KeyCode::Char('T'), ctrl, shift }) == MainAction::SortBy(SortColumn::Time),
        main_action(screen, KeyPress { code: KeyCode::Char('I'), ctrl, shift }) == MainAction::ReverseSort,
{
}

/// On the refresh-rate and meter-mode rows, Right then Left (or Left then
/// Right) leaves the settings as they were, for a refresh rate on the
/// steps.
pub proof fn setup_right_then_left_undo(c: SetupSettings, row: int)
    requires
        is_refresh_step(c.refresh_rate_ms),
    ensures
        setup_adjusted(setup_adjusted(c, row, true), row, false) == c,
        setup_adjusted(setup_adjusted(c, row, false), row, true) == c,
{
    refresh_rate_steps_undo(c.refresh_rate_ms);
    meter_mode_steps_undo(c.cpu_meter_mode);
    meter_mode_steps_undo(c.memory_meter_mode);
}

/// Enter on a toggle row twice leaves the settings as they were.
pub proof fn setup_toggle_twice(c: SetupSettings, row: int)
    requires
        3 <= row <= 9,
        row != 8,
    ensures
        setup_activated(setup_activated(c, row), row) == c,
{
}

} // verus!
