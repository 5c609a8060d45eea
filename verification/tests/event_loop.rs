use htop_win::app::SortColumn;
use htop_win::event_loop::{
    collect_requirements, empty_input_wakes, enrichment_requirements, sync_collector,
    update_status_message, CollectorSync, HeaderDemand, ListDemand, UpdateOutcome,
};
use htop_win::system::collect_gates;
use htop_win::system::ProcessEnrichmentRequirements;

fn user_only() -> ProcessEnrichmentRequirements {
    ProcessEnrichmentRequirements { user: true, ..Default::default() }
}

#[test]
fn first_pass_sends_everything_and_a_quiet_pass_sends_nothing() {
    let mut sync = CollectorSync::new(1500, false);
    let update = sync_collector(&mut sync, 1500, false, user_only(), true, collect_gates::CPU);
    assert_eq!(update.rate_ms, None);
    assert_eq!(update.paused, None);
    assert_eq!(update.enrichment, Some(user_only()));
    assert_eq!(update.collect_bits, Some(collect_gates::CPU));
    assert!(!update.wake);

    let again = sync_collector(&mut sync, 1500, false, user_only(), false, collect_gates::CPU);
    assert_eq!(again.enrichment, None);
    assert_eq!(again.collect_bits, None);
    assert!(!again.wake);
}

#[test]
fn collector_wakes_for_rate_changes_resuming_and_missing_metadata() {
    let mut sync = CollectorSync::new(1500, false);
    sync_collector(&mut sync, 1500, false, user_only(), true, 0);

    let faster = sync_collector(&mut sync, 500, false, user_only(), true, 0);
    assert_eq!(faster.rate_ms, Some(500));
    assert!(faster.wake);

    let pause = sync_collector(&mut sync, 500, true, user_only(), true, 0);
    assert_eq!(pause.paused, Some(true));
    assert!(!pause.wake);
    let resume = sync_collector(&mut sync, 500, false, user_only(), true, 0);
    assert_eq!(resume.paused, Some(false));
    assert!(resume.wake);

    let more = ProcessEnrichmentRequirements { exe_path: true, ..user_only() };
    let have_it = sync_collector(&mut sync, 500, false, more, true, 0);
    assert_eq!(have_it.enrichment, Some(more));
    assert!(!have_it.wake);
    let missing = sync_collector(&mut sync, 500, false, user_only(), false, 0);
    assert!(missing.wake);
}

fn header() -> HeaderDemand {
    HeaderDemand {
        show_header: true,
        cpu_meters_shown: false,
        uptime_shown: true,
        network_shown: false,
        battery_shown: false,
        gpu_meter_shown: false,
        npu_meter_shown: false,
        adapters_tracked: false,
    }
}

#[test]
fn uptime_meter_keeps_cpu_collection_alive() {
    assert_ne!(collect_requirements(header()) & collect_gates::CPU, 0);
    let no_uptime = HeaderDemand { uptime_shown: false, ..header() };
    assert_eq!(collect_requirements(no_uptime) & collect_gates::CPU, 0);
    let hidden = HeaderDemand { show_header: false, ..header() };
    assert_eq!(collect_requirements(hidden), 0);
}

#[test]
fn adapters_and_filler_meters_gate_their_subsystems() {
    let all = HeaderDemand {
        network_shown: true,
        battery_shown: true,
        adapters_tracked: true,
        ..header()
    };
    assert_eq!(collect_requirements(all), collect_gates::ALL);
    let npu = HeaderDemand { npu_meter_shown: true, uptime_shown: false, ..header() };
    assert_eq!(collect_requirements(npu), collect_gates::GPU | collect_gates::NPU);
}

fn list() -> ListDemand {
    ListDemand {
        text_filter: false,
        user_filter: false,
        show_kernel_threads: true,
        show_user_threads: true,
        sort_column: SortColumn::Cpu,
        user_picker: false,
        show_program_path: false,
    }
}

#[test]
fn text_filter_requests_only_its_canonical_dependencies() {
    let requirements = enrichment_requirements(ListDemand { text_filter: true, ..list() });
    assert!(requirements.user);
    assert!(requirements.exe_path);
    assert!(!requirements.arch);
    assert!(!requirements.elevation);
    assert!(!requirements.efficiency);
}

#[test]
fn sorting_requests_the_sorted_metadata() {
    assert_eq!(enrichment_requirements(list()), ProcessEnrichmentRequirements::default());
    assert!(enrichment_requirements(ListDemand { sort_column: SortColumn::Arch, ..list() }).arch);
    assert!(!enrichment_requirements(ListDemand { sort_column: SortColumn::Command, ..list() }).exe_path);
    let paths = ListDemand { sort_column: SortColumn::Command, show_program_path: true, ..list() };
    assert!(enrichment_requirements(paths).exe_path);
    assert!(enrichment_requirements(ListDemand { show_user_threads: false, ..list() }).user);
}

#[test]
fn empty_input_wakes_back_off_from_the_third() {
    assert_eq!(empty_input_wakes(0, true, false), (1, false));
    assert_eq!(empty_input_wakes(2, true, false), (3, true));
    assert_eq!(empty_input_wakes(5, true, true), (0, false));
    assert_eq!(empty_input_wakes(5, false, false), (0, false));
}

#[test]
fn update_check_status_lines() {
    let downloaded = UpdateOutcome::Downloaded { version: "1.4.0".to_string() };
    assert_eq!(update_status_message(&downloaded, "1.3.0"), "Update v1.4.0 downloaded. Restart to apply.");
    assert_eq!(update_status_message(&UpdateOutcome::UpToDate, "1.3.0"), "v1.3.0 Up-to-date!");
    let failed = UpdateOutcome::Failed("timed out".to_string());
    assert_eq!(update_status_message(&failed, "1.3.0"), "Update check failed: timed out");
}
