use htop_win::app::{
    canonical_insert_index, hardware_default_columns, ScreenTab, SetupItem, SortColumn,
    WindowsPriorityClass, UIBounds, UIRegion, UIElement, ColumnBounds, TerminationRequest,
    TerminationTarget, DisplayRow, clamp_char_boundary, prev_char_boundary, next_char_boundary,
};
use htop_win::config::Config;
use htop_win::system::ProcessIdentity;

fn assert_canonical_order(columns: &[String]) {
    let ranks: Vec<usize> = columns
        .iter()
        .map(|c| SortColumn::display_rank(c))
        .collect();
    let mut sorted = ranks.clone();
    sorted.sort_unstable();
    assert_eq!(
        ranks, sorted,
        "columns not in canonical display order: {:?}",
        columns
    );
}

#[test]
fn destructive_reset_is_last_setup_item() {
    assert_eq!(SetupItem::ALL.last(), Some(&SetupItem::ResetAllSettings));
    assert_eq!(SetupItem::GpuMeterAdapter.index(), SetupItem::ALL.len() - 2);
}

#[test]
fn default_layouts_follow_display_order() {
    assert_canonical_order(&Config::default().visible_columns);
    assert_canonical_order(&ScreenTab::default_io().columns);
}

#[test]
fn display_order_groups_usage_and_keeps_command_last() {
    assert_eq!(
        SortColumn::display_rank("Command"),
        SortColumn::all().len() - 1
    );
    let usage = ["CPU%", "MEM%", "GPU%", "GPU-MEM", "NPU%", "NPU-MEM"];
    let base = SortColumn::display_rank("CPU%");
    for (i, name) in usage.iter().enumerate() {
        assert_eq!(SortColumn::display_rank(name), base + i);
    }
}

#[test]
fn hardware_defaults_add_adapter_columns_after_mem() {
    assert_eq!(
        hardware_default_columns(false, false),
        Config::default().visible_columns
    );

    let full = hardware_default_columns(true, true);
    let mem = full.iter().position(|c| c == "MEM%").unwrap();
    let window: Vec<&str> = full[mem..mem + 5].iter().map(String::as_str).collect();
    assert_eq!(window, ["MEM%", "GPU%", "GPU-MEM", "NPU%", "NPU-MEM"]);
    assert_eq!(full.last().map(String::as_str), Some("Command"));
    assert_canonical_order(&full);

    let gpu_only = hardware_default_columns(true, false);
    assert!(gpu_only.iter().any(|c| c == "GPU-MEM"));
    assert!(!gpu_only.iter().any(|c| c == "NPU%"));
}

#[test]
fn enabling_columns_inserts_at_canonical_position() {
    let defaults = Config::default().visible_columns;
    let mem_pos = defaults.iter().position(|c| c == "MEM%").unwrap();
    assert_eq!(canonical_insert_index(&defaults, "GPU%"), mem_pos + 1);
    let no_command: Vec<String> = defaults
        .iter()
        .filter(|c| *c != "Command")
        .cloned()
        .collect();
    assert_eq!(
        canonical_insert_index(&no_command, "Command"),
        no_command.len()
    );
    assert_eq!(canonical_insert_index(&defaults, "PPID"), 1);
}

#[test]
fn every_column_name_reads_back_and_legacy_ni_is_class() {
    for column in SortColumn::all() {
        assert_eq!(SortColumn::from_name(column.name()), Some(*column));
    }
    assert_eq!(SortColumn::from_name("NI"), Some(SortColumn::PriorityClass));
    assert_eq!(SortColumn::from_name("nope"), None);
    assert_eq!(SortColumn::display_rank("nope"), usize::MAX);
    assert_eq!(SortColumn::display_rank("NI"), 4);
    assert_eq!(SortColumn::Command.width(), 20);
    assert_eq!(SortColumn::IoReadRate.name(), "IO_R/s");
}

#[test]
fn priority_classes_round_trip_through_index_and_base_priority() {
    for (i, class) in WindowsPriorityClass::all().iter().enumerate() {
        assert_eq!(class.index(), i);
        assert_eq!(WindowsPriorityClass::from_index(i), *class);
        assert_eq!(WindowsPriorityClass::from_base_priority(class.base_priority()), *class);
    }
    assert_eq!(WindowsPriorityClass::from_index(99), WindowsPriorityClass::Normal);
    assert_eq!(WindowsPriorityClass::from_base_priority(-1), WindowsPriorityClass::Realtime);
    assert_eq!(WindowsPriorityClass::from_base_priority(16), WindowsPriorityClass::Realtime);
    assert_eq!(WindowsPriorityClass::from_base_priority(12), WindowsPriorityClass::AboveNormal);
    assert_eq!(WindowsPriorityClass::BelowNormal.name(), "Below Normal");
    assert_eq!(WindowsPriorityClass::Realtime.short_name(), "Rltm");
}

#[test]
fn hit_testing_prefers_function_keys_then_regions_then_areas() {
    let mut bounds = UIBounds::default();
    bounds.header_y_end = 3;
    bounds.column_header_y = 4;
    bounds.footer_y_start = 20;
    bounds.columns = vec![
        ColumnBounds { column: Some(SortColumn::Pid), x: 0, width: 7 },
        ColumnBounds { column: Some(SortColumn::Command), x: 7, width: 20 },
    ];
    bounds.add_region(UIRegion::new(UIElement::MemoryMeter, 0, 1, 10, 1));
    bounds.add_function_key(3, 0, 20, 6);
    bounds.add_region(UIRegion::new(UIElement::Footer, 0, 20, 80, 1));
    assert_eq!(bounds.element_at(2, 20), Some(UIElement::FunctionKey(3)));
    assert_eq!(bounds.element_at(20, 20), Some(UIElement::Footer));
    assert_eq!(bounds.element_at(5, 1), Some(UIElement::MemoryMeter));
    assert_eq!(bounds.element_at(50, 1), Some(UIElement::Header));
    assert_eq!(bounds.element_at(3, 4), Some(UIElement::ColumnHeader(SortColumn::Pid)));
    assert_eq!(bounds.element_at(70, 4), Some(UIElement::ColumnHeader(SortColumn::Command)));
    assert_eq!(bounds.element_at(3, 7), Some(UIElement::ProcessRow { index: 2, pid: 0 }));
    assert_eq!(bounds.process_row_index(4), None);
    assert!(!UIRegion::new(UIElement::Header, 65535, 0, 2, 1).contains(0, 0));
    assert!(UIRegion::new(UIElement::Header, 65534, 0, 2, 1).contains(65535, 0));
    bounds.clear_regions();
    assert!(bounds.regions.is_empty() && bounds.function_keys.is_empty());
}

#[test]
fn termination_requests_list_their_targets() {
    let target = |pid: u32| TerminationTarget {
        identity: ProcessIdentity { pid, create_time_100ns: 7 },
        name: format!("p{pid}"),
        command: String::new(),
    };
    let single = TerminationRequest::Single(target(1));
    assert_eq!(single.targets().len(), 1);
    assert_eq!(single.tagged_count(), 0);
    let tagged = TerminationRequest::Tagged(vec![target(1), target(2)]);
    assert_eq!(tagged.tagged_count(), 2);
    assert_eq!(tagged.targets()[1].name, "p2");
    let row = DisplayRow::flat(5);
    assert_eq!(row.index, 5);
    assert_eq!(row, DisplayRow { index: 5, ..DisplayRow::default() });
}

#[test]
fn cursor_moves_by_whole_characters() {
    let text = "aé€b";
    assert_eq!(clamp_char_boundary(text, 2), 1);
    assert_eq!(clamp_char_boundary(text, 99), text.len());
    assert_eq!(prev_char_boundary(text, 6), 3);
    assert_eq!(prev_char_boundary(text, 0), 0);
    assert_eq!(next_char_boundary(text, 1), 3);
    assert_eq!(next_char_boundary(text, 3), 6);
    assert_eq!(next_char_boundary(text, 7), 7);
    assert_eq!(prev_char_boundary(text, next_char_boundary(text, 3)), 3);
}
