use htop_win::app::{FocusRegion, SortColumn, WindowsPriorityClass};
use htop_win::config::{ColorScheme, Config, MeterMode};
use htop_win::input::{
    activate_focused, function_key_action, navigate_left, navigate_right, Activation, FocusStep,
    color_scheme_key, handle_main_key, handle_scroll_keys, handle_setup_key, kill_dialog_key, next_refresh_rate,
    prev_meter_mode, prev_refresh_rate, priority_dialog_key, sort_select_key, KeyCode, KeyPress,
    ColorSchemeOutcome, KillChoice, MainAction, MainScreen, PriorityOutcome, SetupOutcome, SortSelectOutcome,
};

fn screen() -> MainScreen {
    MainScreen {
        iterations_done: false,
        focus: FocusRegion::ProcessList,
        tree_view: false,
        nothing_collapsed: true,
    }
}

fn press(code: KeyCode) -> KeyPress {
    KeyPress { code, ctrl: false, shift: false }
}

fn ctrl(c: char) -> KeyPress {
    KeyPress { code: KeyCode::Char(c), ctrl: true, shift: false }
}

#[test]
fn main_screen_quit_keys() {
    for key in [press(KeyCode::F(10)), press(KeyCode::Char('q')), press(KeyCode::Char('Q')), ctrl('c')] {
        assert_eq!(handle_main_key(screen(), key), MainAction::Quit);
    }
    let done = MainScreen { iterations_done: true, ..screen() };
    assert_eq!(handle_main_key(done, press(KeyCode::Char('x'))), MainAction::Quit);
    assert_eq!(handle_main_key(screen(), press(KeyCode::Char('c'))), MainAction::TagWithChildren);
}

#[test]
fn main_screen_ctrl_changes_letters() {
    assert_eq!(handle_main_key(screen(), press(KeyCode::Char('k'))), MainAction::SelectUp);
    assert_eq!(handle_main_key(screen(), ctrl('k')), MainAction::Kill);
    assert_eq!(handle_main_key(screen(), press(KeyCode::Char('t'))), MainAction::ToggleTree);
    assert_eq!(handle_main_key(screen(), ctrl('t')), MainAction::TagAllByName);
    assert_eq!(handle_main_key(screen(), press(KeyCode::Char('a'))), MainAction::Affinity);
    assert_eq!(handle_main_key(screen(), ctrl('a')), MainAction::TagAllVisible);
    assert_eq!(handle_main_key(screen(), ctrl('l')), MainAction::Redraw);
    assert_eq!(handle_main_key(screen(), press(KeyCode::Char('l'))), MainAction::Nothing);
}

#[test]
fn main_screen_arrows_follow_the_focus() {
    assert_eq!(handle_main_key(screen(), press(KeyCode::Down)), MainAction::SelectDown);
    let header = MainScreen { focus: FocusRegion::Header, ..screen() };
    assert_eq!(handle_main_key(header, press(KeyCode::Up)), MainAction::FocusProcessList);
    assert_eq!(handle_main_key(header, press(KeyCode::Char('k'))), MainAction::SelectUp);
    let back = KeyPress { code: KeyCode::Tab, ctrl: false, shift: true };
    assert_eq!(handle_main_key(screen(), back), MainAction::FocusPrev);
    assert_eq!(handle_main_key(screen(), press(KeyCode::Tab)), MainAction::FocusNext);
}

#[test]
fn main_screen_tree_keys_need_the_tree_view() {
    assert_eq!(handle_main_key(screen(), press(KeyCode::Char('+'))), MainAction::Nothing);
    let tree = MainScreen { tree_view: true, ..screen() };
    assert_eq!(handle_main_key(tree, press(KeyCode::Char('='))), MainAction::ExpandTree);
    assert_eq!(handle_main_key(tree, press(KeyCode::Char('*'))), MainAction::CollapseAll);
    let collapsed = MainScreen { nothing_collapsed: false, ..tree };
    assert_eq!(handle_main_key(collapsed, press(KeyCode::Char('*'))), MainAction::ExpandAll);
    assert_eq!(handle_main_key(tree, press(KeyCode::Backspace)), MainAction::CollapseToParent);
}

#[test]
fn main_screen_function_keys_sorts_and_digits() {
    assert_eq!(handle_main_key(screen(), press(KeyCode::F(1))), MainAction::Help);
    assert_eq!(handle_main_key(screen(), press(KeyCode::F(3))), MainAction::Search);
    assert_eq!(handle_main_key(screen(), press(KeyCode::Char('\\'))), MainAction::Filter);
    assert_eq!(handle_main_key(screen(), press(KeyCode::Char('<'))), MainAction::SortSelect);
    assert_eq!(handle_main_key(screen(), press(KeyCode::Char('['))), MainAction::Priority(-1));
    assert_eq!(handle_main_key(screen(), press(KeyCode::F(9))), MainAction::Kill);
    assert_eq!(
        handle_main_key(screen(), press(KeyCode::Char('M'))),
        MainAction::SortBy(SortColumn::Mem)
    );
    assert_eq!(handle_main_key(screen(), press(KeyCode::Char('7'))), MainAction::PidDigit('7'));
    assert_eq!(handle_main_key(screen(), press(KeyCode::Delete)), MainAction::Nothing);
}

#[test]
fn scroll_keys_move_by_lines_and_pages_without_going_above_the_top() {
    let mut scroll = 5;
    assert!(handle_scroll_keys(&mut scroll, KeyCode::Down));
    assert!(handle_scroll_keys(&mut scroll, KeyCode::Char('j')));
    assert_eq!(scroll, 7);
    assert!(handle_scroll_keys(&mut scroll, KeyCode::PageUp));
    assert_eq!(scroll, 0);
    assert!(handle_scroll_keys(&mut scroll, KeyCode::Char('k')));
    assert_eq!(scroll, 0);
    assert!(handle_scroll_keys(&mut scroll, KeyCode::PageDown));
    assert_eq!(scroll, 10);
    assert!(handle_scroll_keys(&mut scroll, KeyCode::Home));
    assert_eq!(scroll, 0);
    assert!(!handle_scroll_keys(&mut scroll, KeyCode::Enter));
    assert!(!handle_scroll_keys(&mut scroll, KeyCode::Char('x')));
    assert_eq!(scroll, 0);
}

#[test]
fn refresh_rate_cycles_through_the_steps_both_ways() {
    let mut rate = 100;
    let mut seen = vec![rate];
    for _ in 0..7 {
        rate = next_refresh_rate(rate);
        seen.push(rate);
    }
    assert_eq!(seen, [100, 250, 500, 1000, 1500, 2000, 5000, 100]);
    for step in [100, 250, 500, 1000, 1500, 2000, 5000] {
        assert_eq!(prev_refresh_rate(next_refresh_rate(step)), step);
    }
    assert_eq!(next_refresh_rate(42), 100);
    assert_eq!(prev_refresh_rate(42), 5000);
    assert_eq!(prev_refresh_rate(100), 5000);
}

#[test]
fn meter_mode_steps_back() {
    for mode in [MeterMode::Bar, MeterMode::Text, MeterMode::Graph, MeterMode::Hidden] {
        assert_eq!(prev_meter_mode(mode.next()), mode);
    }
    assert_eq!(prev_meter_mode(MeterMode::Bar), MeterMode::Hidden);
}

#[test]
fn setup_rows_toggle_their_settings() {
    let mut config = Config::default();
    let mut selected = 0;
    assert_eq!(handle_setup_key(&mut config, &mut selected, KeyCode::Enter), SetupOutcome::Stay);
    assert_eq!(config.refresh_rate_ms, 2000);
    assert_eq!(handle_setup_key(&mut config, &mut selected, KeyCode::Left), SetupOutcome::Stay);
    assert_eq!(config.refresh_rate_ms, 1500);

    for _ in 0..3 {
        handle_setup_key(&mut config, &mut selected, KeyCode::Down);
    }
    assert_eq!(selected, 3);
    let before = config.show_kernel_threads;
    handle_setup_key(&mut config, &mut selected, KeyCode::Char(' '));
    assert_eq!(config.show_kernel_threads, !before);

    selected = 5;
    assert_eq!(
        handle_setup_key(&mut config, &mut selected, KeyCode::Enter),
        SetupOutcome::RefreshDisplay
    );
    selected = 8;
    assert_eq!(
        handle_setup_key(&mut config, &mut selected, KeyCode::Enter),
        SetupOutcome::ToggleTreeView
    );
    config.color_scheme = ColorScheme::Midnight;
    selected = 10;
    assert_eq!(
        handle_setup_key(&mut config, &mut selected, KeyCode::Enter),
        SetupOutcome::OpenColorScheme(4)
    );
    selected = 11;
    assert_eq!(
        handle_setup_key(&mut config, &mut selected, KeyCode::Enter),
        SetupOutcome::OpenColumnConfig
    );
}

#[test]
fn setup_selection_stays_within_the_rows() {
    let mut config = Config::default();
    let mut selected = 0;
    handle_setup_key(&mut config, &mut selected, KeyCode::Up);
    assert_eq!(selected, 0);
    for _ in 0..20 {
        handle_setup_key(&mut config, &mut selected, KeyCode::Char('j'));
    }
    assert_eq!(selected, 12);
    assert_eq!(handle_setup_key(&mut config, &mut selected, KeyCode::Esc), SetupOutcome::Close);
    assert_eq!(handle_setup_key(&mut config, &mut selected, KeyCode::F(2)), SetupOutcome::Close);
    assert_eq!(selected, 12);
}

#[test]
fn setup_reset_row_restores_defaults() {
    let mut config = Config::default();
    config.refresh_rate_ms = 250;
    config.confirm_kill = !config.confirm_kill;
    config.color_scheme = ColorScheme::Nord;
    let mut selected = 12;
    assert_eq!(
        handle_setup_key(&mut config, &mut selected, KeyCode::Enter),
        SetupOutcome::SettingsReset
    );
    let defaults = Config::default();
    assert_eq!(config.refresh_rate_ms, defaults.refresh_rate_ms);
    assert_eq!(config.confirm_kill, defaults.confirm_kill);
    assert_eq!(config.color_scheme, defaults.color_scheme);
}

#[test]
fn setup_meter_rows_step_both_ways() {
    let mut config = Config::default();
    let mut selected = 1;
    let start = config.cpu_meter_mode;
    handle_setup_key(&mut config, &mut selected, KeyCode::Right);
    assert_eq!(config.cpu_meter_mode, start.next());
    handle_setup_key(&mut config, &mut selected, KeyCode::Left);
    assert_eq!(config.cpu_meter_mode, start);
    selected = 2;
    handle_setup_key(&mut config, &mut selected, KeyCode::Left);
    assert_eq!(config.memory_meter_mode, prev_meter_mode(Config::default().memory_meter_mode));
}

#[test]
fn sort_list_moves_and_chooses() {
    let columns = SortColumn::all();
    let mut index = 0;
    assert_eq!(sort_select_key(&mut index, KeyCode::Up), SortSelectOutcome::Stay);
    assert_eq!(index, 0);
    sort_select_key(&mut index, KeyCode::Char('j'));
    sort_select_key(&mut index, KeyCode::Down);
    assert_eq!(index, 2);
    assert_eq!(sort_select_key(&mut index, KeyCode::Enter), SortSelectOutcome::Choose(columns[2]));
    sort_select_key(&mut index, KeyCode::End);
    assert_eq!(index, columns.len() - 1);
    sort_select_key(&mut index, KeyCode::Down);
    assert_eq!(index, columns.len() - 1);
    sort_select_key(&mut index, KeyCode::Home);
    assert_eq!(index, 0);
    assert_eq!(sort_select_key(&mut index, KeyCode::Esc), SortSelectOutcome::Close);
    let mut past = columns.len();
    assert_eq!(sort_select_key(&mut past, KeyCode::Enter), SortSelectOutcome::Close);
}

#[test]
fn terminate_confirmation_keys() {
    for key in [KeyCode::Esc, KeyCode::Delete, KeyCode::Backspace, KeyCode::Char('n'), KeyCode::Char('N')] {
        assert_eq!(kill_dialog_key(key), KillChoice::Cancel);
    }
    for key in [KeyCode::Enter, KeyCode::Char(' '), KeyCode::Char('y'), KeyCode::Char('Y')] {
        assert_eq!(kill_dialog_key(key), KillChoice::Terminate(15));
    }
    assert_eq!(kill_dialog_key(KeyCode::Char('9')), KillChoice::Terminate(9));
    assert_eq!(kill_dialog_key(KeyCode::Char('x')), KillChoice::Nothing);
}

#[test]
fn priority_dialog_steps_through_the_classes() {
    let mut index = 2;
    priority_dialog_key(&mut index, KeyCode::Right);
    priority_dialog_key(&mut index, KeyCode::Down);
    assert_eq!(index, 4);
    assert_eq!(priority_dialog_key(&mut index, KeyCode::Enter), PriorityOutcome::Apply(WindowsPriorityClass::High));
    for _ in 0..5 {
        priority_dialog_key(&mut index, KeyCode::Right);
    }
    assert_eq!(index, 5);
    for _ in 0..9 {
        priority_dialog_key(&mut index, KeyCode::Left);
    }
    assert_eq!(index, 0);
    assert_eq!(priority_dialog_key(&mut index, KeyCode::Char('E')), PriorityOutcome::ToggleEfficiency);
    assert_eq!(priority_dialog_key(&mut index, KeyCode::Esc), PriorityOutcome::Close);
    let mut odd = 17;
    assert_eq!(priority_dialog_key(&mut odd, KeyCode::Enter), PriorityOutcome::Apply(WindowsPriorityClass::Normal));
}

#[test]
fn color_scheme_list_moves_picks_and_goes_back() {
    let mut index = 0usize;
    assert_eq!(color_scheme_key(&mut index, KeyCode::Up), ColorSchemeOutcome::Stay);
    assert_eq!(index, 0);
    color_scheme_key(&mut index, KeyCode::Down);
    color_scheme_key(&mut index, KeyCode::Char('j'));
    assert_eq!(index, 2);
    assert_eq!(color_scheme_key(&mut index, KeyCode::Enter), ColorSchemeOutcome::Choose(ColorScheme::BlackOnWhite));
    let last = ColorScheme::all().len() - 1;
    for _ in 0..20 {
        color_scheme_key(&mut index, KeyCode::Down);
    }
    assert_eq!(index, last);
    assert_eq!(color_scheme_key(&mut index, KeyCode::Esc), ColorSchemeOutcome::Back);
    let mut past = last + 1;
    assert_eq!(color_scheme_key(&mut past, KeyCode::Enter), ColorSchemeOutcome::Back);
}

#[test]
fn footer_focus_wraps_and_header_cycles_meters() {
    assert_eq!(navigate_left(FocusRegion::Footer, 0), FocusStep::FooterKey(9));
    assert_eq!(navigate_left(FocusRegion::Footer, 4), FocusStep::FooterKey(3));
    assert_eq!(navigate_right(FocusRegion::Footer, 9), FocusStep::FooterKey(0));
    assert_eq!(navigate_right(FocusRegion::Footer, 3), FocusStep::FooterKey(4));
    assert_eq!(navigate_left(FocusRegion::Header, 0), FocusStep::NextCpuMeterMode);
    assert_eq!(navigate_right(FocusRegion::Header, 0), FocusStep::NextMemoryMeterMode);
    assert_eq!(navigate_left(FocusRegion::ProcessList, 2), FocusStep::Stay);
    for i in 0..10 {
        let FocusStep::FooterKey(l) = navigate_left(FocusRegion::Footer, i) else { panic!() };
        assert_eq!(navigate_right(FocusRegion::Footer, l), FocusStep::FooterKey(i));
    }
}

#[test]
fn activating_focus_presses_the_focused_function_key() {
    assert_eq!(activate_focused(FocusRegion::Header, 0), Activation::ToggleHeader);
    assert_eq!(activate_focused(FocusRegion::ProcessList, 0), Activation::ProcessInfo);
    assert_eq!(activate_focused(FocusRegion::Footer, 9), Activation::FunctionKey(10));
    assert_eq!(function_key_action(10), MainAction::Quit);
    assert_eq!(function_key_action(6), MainAction::SortSelect);
    assert_eq!(function_key_action(8), MainAction::Priority(-1));
    assert_eq!(function_key_action(11), MainAction::Nothing);
    for k in 1..=10u8 {
        let press = KeyPress { code: KeyCode::F(k), ctrl: false, shift: false };
        assert_eq!(function_key_action(k), handle_main_key(screen(), press));
    }
}

#[test]
fn priority_keys_preselect_one_class_up_or_down() {
    use_priority();
}

fn use_priority() {
    assert_eq!(handle_main_key(screen(), press(KeyCode::F(7))), MainAction::Priority(1));
    assert_eq!(handle_main_key(screen(), press(KeyCode::Char(']'))), MainAction::Priority(1));
    assert_eq!(handle_main_key(screen(), press(KeyCode::F(8))), MainAction::Priority(-1));
    let normal = htop_win::input::priority_preselect(8, 0);
    assert_eq!(WindowsPriorityClass::from_index(normal), WindowsPriorityClass::Normal);
    assert_eq!(htop_win::input::priority_preselect(8, 1), normal + 1);
    assert_eq!(htop_win::input::priority_preselect(8, -1), normal - 1);
    assert_eq!(htop_win::input::priority_preselect(24, 1), WindowsPriorityClass::all().len() - 1);
    assert_eq!(htop_win::input::priority_preselect(4, -1), 0);
}
