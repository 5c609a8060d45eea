use htop_win::cli::{apply_config_overrides, Args};
use htop_win::config::{ColorScheme, Config, MeterMode};
use htop_win::json::Value;

#[test]
fn test_default_config() {
    let config = Config::default();
    assert_eq!(config.refresh_rate_ms, 1500);
    assert!(!config.tree_view_default);
    assert!(config.show_cpu_meters);
}

#[test]
fn test_serialization() {
    let config = Config::default();
    let json_value = config.to_json();
    let loaded = Config::from_json(&json_value);
    assert_eq!(loaded.refresh_rate_ms, config.refresh_rate_ms);
    assert_eq!(loaded.tree_view_default, config.tree_view_default);
    assert_eq!(loaded.visible_columns, config.visible_columns);
}

#[test]
fn cli_readonly_is_not_written_into_persisted_config() {
    let args = Args {
        readonly: true,
        ..Args::default()
    };
    let mut config = Config::default();

    apply_config_overrides(&mut config, &args);

    assert!(!config.readonly);
}

#[test]
fn command_line_overrides_clamp_and_saturate() {
    let args = Args {
        delay: Some(5),
        tree: true,
        no_color: true,
        highlight_changes: Some(u64::MAX),
        ..Args::default()
    };
    let mut config = Config::default();
    apply_config_overrides(&mut config, &args);
    assert_eq!(config.refresh_rate_ms, 100);
    assert!(config.tree_view_default);
    assert_eq!(config.color_scheme, ColorScheme::Monochrome);
    assert!(config.highlight_new_processes);
    assert_eq!(config.highlight_duration_ms, u64::MAX);

    let mut config = Config::default();
    apply_config_overrides(&mut config, &Args { delay: Some(2500), highlight_changes: Some(3), ..Args::default() });
    assert_eq!(config.refresh_rate_ms, 2500);
    assert_eq!(config.highlight_duration_ms, 3000);
}

#[test]
fn changed_settings_survive_the_json_round_trip() {
    let mut config = Config::default();
    config.refresh_rate_ms = 250;
    config.color_scheme = ColorScheme::Nord;
    config.cpu_meter_mode = MeterMode::Graph;
    config.memory_meter_mode = MeterMode::Hidden;
    config.confirm_kill = false;
    config.toggle_column("PPID");
    let loaded = Config::from_json(&config.to_json());
    assert_eq!(loaded.refresh_rate_ms, 250);
    assert_eq!(loaded.color_scheme, ColorScheme::Nord);
    assert_eq!(loaded.cpu_meter_mode, MeterMode::Graph);
    assert_eq!(loaded.memory_meter_mode, MeterMode::Hidden);
    assert!(!loaded.confirm_kill);
    assert_eq!(loaded.visible_columns, config.visible_columns);
}

#[test]
fn missing_or_mistyped_members_fall_back_to_defaults() {
    let value = Value::Object(vec![
        ("refresh_rate_ms".to_string(), Value::Number(-5)),
        ("tree_view_default".to_string(), Value::String("yes".to_string())),
        ("color_scheme".to_string(), Value::String("Nope".to_string())),
        (
            "visible_columns".to_string(),
            Value::Array(vec![Value::String("PID".to_string()), Value::Bool(true), Value::String("Command".to_string())]),
        ),
        ("show_clock".to_string(), Value::Bool(true)),
        ("show_clock".to_string(), Value::Bool(false)),
    ]);
    let config = Config::from_json(&value);
    assert_eq!(config.refresh_rate_ms, 1500);
    assert!(!config.tree_view_default);
    assert_eq!(config.color_scheme, ColorScheme::Default);
    assert_eq!(config.visible_columns, vec!["PID".to_string(), "Command".to_string()]);
    assert!(config.show_clock);
    let from_null = Config::from_json(&Value::Null);
    assert_eq!(from_null.visible_columns, Config::default().visible_columns);
}

#[test]
fn column_editing_moves_and_toggles() {
    let mut config = Config::default();
    assert!(config.is_column_visible("CPU%"));
    assert_eq!(config.column_position("USER"), Some(1));
    assert!(config.move_column_up("USER"));
    assert_eq!(config.column_position("USER"), Some(0));
    assert!(!config.move_column_up("USER"));
    assert!(config.move_column_down("USER"));
    assert_eq!(config.visible_columns, Config::default().visible_columns);
    assert!(!config.move_column_down("Command"));
    config.toggle_column("CPU%");
    assert!(!config.is_column_visible("CPU%"));
    config.toggle_column("CPU%");
    assert_eq!(config.visible_columns.last().map(String::as_str), Some("CPU%"));
    config.toggle_column("ELEV");
    config.toggle_column("ELEV");
    assert!(!config.is_column_visible("ELEV"));
    config.reset_to_defaults();
    assert_eq!(config.visible_columns, Config::default().visible_columns);
}

#[test]
fn meter_modes_cycle_and_read_back() {
    let mut mode = MeterMode::Bar;
    for _ in 0..4 {
        assert_eq!(MeterMode::from_str(mode.as_str()), mode);
        mode = mode.next();
    }
    assert_eq!(mode, MeterMode::Bar);
    assert_eq!(MeterMode::from_str("bogus"), MeterMode::Bar);
    for scheme in ColorScheme::all() {
        assert_eq!(ColorScheme::from_str(scheme.as_str()), *scheme);
    }
}
