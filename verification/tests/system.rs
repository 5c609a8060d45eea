use std::collections::HashMap;
use std::time::Duration;

use htop_win::bench::{bench_ms, percentile};
use htop_win::event_wait::timeout_millis;
use htop_win::numfmt::{scaled_bytes, scaled_bytes_round0};
use htop_win::system::cache::{
    enforce_exe_cache_limit, evict_expired_entries, exe_cache_cap, exe_entry_is_fresh,
    exe_status_jitter, exe_verdict, fresh_exe_entry, lookup_exe_status, ExeLookup, ExeStat,
    ExeStatusEntry, ExeStatusMap, ModifiedTime, EXE_CACHE_MAX_SIZE, EXE_STATUS_MAX_JITTER_NANOS,
    EXE_STATUS_TTL_NANOS,
};
use htop_win::system::d3dkmt::{classify_adapter, AdapterClass};
use htop_win::system::memory::{format_bytes, memory_totals, used_with_buffers, MemoryLists, MemoryTotals};
use htop_win::system::native::{filetime_to_unix, SystemProcessList};
use htop_win::system::npu::is_compute_only_adapter;
use htop_win::system::{
    aggregate_io_rates, cpu_capacity_100ns, is_displayed_task, network_totals_and_deltas,
    processor_counter_path, processor_layout_from_counts, processor_layout_report,
    tick_processor_count, NetworkCounters, ProcessEnrichmentRequirements, PRIVILEGED_TIME_COUNTER,
    USER_TIME_COUNTER,
};

#[test]
fn timeout_rounds_up_to_whole_milliseconds() {
    assert_eq!(timeout_millis(Duration::ZERO), 0);
    assert_eq!(timeout_millis(Duration::from_micros(1)), 1);
    assert_eq!(timeout_millis(Duration::from_micros(1_500)), 2);
    assert_eq!(timeout_millis(Duration::from_millis(250)), 250);
    assert_eq!(timeout_millis(Duration::from_secs(u64::MAX)), u32::MAX - 1);
}

#[test]
fn percentile_is_nearest_rank() {
    let ms = |n| Duration::from_millis(n);
    let samples: Vec<Duration> = (1..=100).rev().map(ms).collect();
    assert_eq!(percentile(&samples, 50), ms(50));
    assert_eq!(percentile(&samples, 99), ms(99));
    assert_eq!(percentile(&samples, 100), ms(100));
    assert_eq!(percentile(&[ms(7)], 99), ms(7));
    assert_eq!(percentile(&[], 50), Duration::ZERO);
}

#[test]
fn benchmark_milliseconds_have_three_decimals() {
    assert_eq!(bench_ms(Duration::from_micros(7_081)), "7.081ms");
    assert_eq!(bench_ms(Duration::from_nanos(999)), "0.000ms");
    assert_eq!(bench_ms(Duration::from_millis(12)), "12.000ms");
}

#[test]
fn cpu_capacity_uses_all_logical_processors() {
    assert_eq!(
        cpu_capacity_100ns(Duration::from_secs(1), 128),
        1_280_000_000
    );
    assert_eq!(cpu_capacity_100ns(Duration::ZERO, 128), 0);
    assert_eq!(
        cpu_capacity_100ns(Duration::from_secs(u64::MAX), 128),
        u64::MAX
    );
}

#[test]
fn capacity_denominator_follows_core_count_changes() {
    let steady = tick_processor_count(8, 8);
    assert_eq!(
        cpu_capacity_100ns(Duration::from_millis(500), steady),
        cpu_capacity_100ns(Duration::from_millis(500), 8)
    );

    let grown = tick_processor_count(8, 16);
    assert_eq!(grown, 16);
    assert_eq!(
        cpu_capacity_100ns(Duration::from_millis(500), grown),
        cpu_capacity_100ns(Duration::from_millis(500), 8) * 2
    );

    assert_eq!(tick_processor_count(16, 8), 8);
    assert_eq!(tick_processor_count(8, 0), 8);
    assert_eq!(tick_processor_count(0, 0), 1);
}

#[test]
fn system_idle_process_is_not_a_displayed_task() {
    assert!(!is_displayed_task(0));
    assert!(is_displayed_task(4));
}

#[test]
fn enrichment_requirement_bits_round_trip_and_compare_coverage() {
    let required = ProcessEnrichmentRequirements {
        user: true,
        exe_path: true,
        ..Default::default()
    };
    assert_eq!(
        ProcessEnrichmentRequirements::from_bits(required.bits()),
        required
    );
    assert!(ProcessEnrichmentRequirements::visible(true).contains(required));
    assert!(!ProcessEnrichmentRequirements::default().contains(required));
}

#[test]
fn enrichment_bits_are_one_per_requirement() {
    assert_eq!(ProcessEnrichmentRequirements::visible(false).bits(), 0b01111);
    assert_eq!(ProcessEnrichmentRequirements::visible(true).bits(), 0b11111);
    assert!(!ProcessEnrichmentRequirements::default().any());
    assert!(ProcessEnrichmentRequirements::from_bits(0b100).arch);
}

fn counters(rx_bytes: u64, tx_bytes: u64) -> NetworkCounters {
    NetworkCounters { rx_bytes, tx_bytes }
}

fn sample(entries: &[(u64, NetworkCounters)]) -> HashMap<u64, NetworkCounters> {
    entries.iter().copied().collect()
}

#[test]
fn network_first_sample_and_new_interfaces_add_no_growth() {
    let first = [(1, counters(10_000, 20_000))];
    assert_eq!(network_totals_and_deltas(&first, None), (10_000, 20_000, 0, 0));

    let second = [(1, counters(10_500, 20_250)), (2, counters(99_000, 88_000))];
    assert_eq!(
        network_totals_and_deltas(&second, Some(&sample(&first))),
        (109_500, 108_250, 500, 250)
    );
}

#[test]
fn network_churn_and_counter_resets_add_no_spike() {
    let before_disconnect = [(1, counters(1_000, 2_000)), (2, counters(5_000, 6_000))];
    let disconnected = [(2, counters(5_100, 6_200))];
    assert_eq!(
        network_totals_and_deltas(&disconnected, Some(&sample(&before_disconnect))),
        (5_100, 6_200, 100, 200)
    );

    let reconnected = [(1, counters(50_000, 60_000)), (2, counters(5_200, 6_300))];
    assert_eq!(
        network_totals_and_deltas(&reconnected, Some(&sample(&disconnected))),
        (55_200, 66_300, 100, 100)
    );

    let reset = [(1, counters(10, 20)), (2, counters(5_300, 6_400))];
    assert_eq!(
        network_totals_and_deltas(&reset, Some(&sample(&reconnected))),
        (5_310, 6_420, 100, 100)
    );
}

#[test]
fn network_totals_saturate() {
    let current = [(1, counters(u64::MAX, 1)), (2, counters(5, u64::MAX))];
    let previous = sample(&[(1, counters(0, 0)), (2, counters(0, 0))]);
    assert_eq!(
        network_totals_and_deltas(&current, Some(&previous)),
        (u64::MAX, u64::MAX, u64::MAX, u64::MAX)
    );
}

#[test]
fn disk_aggregate_saturates_and_excludes_no_current_rate() {
    assert_eq!(aggregate_io_rates(&[(100, 200), (300, 400)]), (400, 600));
    assert_eq!(aggregate_io_rates(&[(u64::MAX, u64::MAX), (1, 1)]), (u64::MAX, u64::MAX));
    assert_eq!(aggregate_io_rates(&[]), (0, 0));
}

#[test]
fn processor_layout_lists_every_group_in_order() {
    assert_eq!(
        processor_layout_from_counts(&[2, 1], 8),
        vec![(0, 0), (0, 1), (1, 0)]
    );
    assert_eq!(processor_layout_from_counts(&[], 2), vec![(0, 0), (0, 1)]);
    assert_eq!(processor_layout_from_counts(&[0, 0], 1), vec![(0, 0)]);
}

#[test]
fn test_classify_adapter() {
    assert!(matches!(classify_adapter(1 << 0), Some(AdapterClass::Gpu)));
    assert!(matches!(classify_adapter(1 << 11), Some(AdapterClass::Npu)));
    assert!(classify_adapter((1 << 0) | (1 << 2)).is_none());
    assert!(classify_adapter((1 << 11) | (1 << 2)).is_none());
    assert!(matches!(
        classify_adapter((1 << 0) | (1 << 11)),
        Some(AdapterClass::Npu)
    ));
    assert!(classify_adapter(0).is_none());
    assert!(matches!(
        classify_adapter((1 << 11) | (1 << 13)),
        Some(AdapterClass::Npu)
    ));
}

#[test]
fn d3dkmt_test_utf16_to_string() {
    let buf: Vec<u16> = "Intel(R) AI Boost\0\0extra".encode_utf16().collect();
    assert_eq!(htop_win::system::d3dkmt::utf16_to_string(&buf), "Intel(R) AI Boost");
    let no_nul: Vec<u16> = "NPU".encode_utf16().collect();
    assert_eq!(htop_win::system::d3dkmt::utf16_to_string(&no_nul), "NPU");
}

#[test]
fn test_compute_only_detection() {
    assert!(is_compute_only_adapter(1 << 11));
    assert!(!is_compute_only_adapter((1 << 11) | (1 << 2)));
    assert!(!is_compute_only_adapter(1 << 0));
    assert!(!is_compute_only_adapter(0));
    assert!(is_compute_only_adapter((1 << 11) | (1 << 13)));
}

#[test]
fn npu_test_utf16_to_string() {
    let buf: Vec<u16> = "Intel(R) AI Boost\0\0extra".encode_utf16().collect();
    assert_eq!(htop_win::system::npu::utf16_to_string(&buf), "Intel(R) AI Boost");
    let no_nul: Vec<u16> = "NPU".encode_utf16().collect();
    assert_eq!(htop_win::system::npu::utf16_to_string(&no_nul), "NPU");
}

#[test]
fn utf16_decoding_pairs_surrogates_and_replaces_lone_ones() {
    let units = [0x41, 0xD83D, 0xDE00, 0xDC00, 0x42];
    assert_eq!(htop_win::system::d3dkmt::utf16_to_string(&units), "A\u{1F600}\u{FFFD}B");
}

#[test]
fn filetime_converts_to_unix_seconds() {
    assert_eq!(filetime_to_unix(116444736000000000), 0);
    assert_eq!(filetime_to_unix(116444736000000000 + 25_000_000), 2);
    assert_eq!(filetime_to_unix(5), 0);
}

#[test]
fn process_list_walks_the_entry_chain() {
    let mut buffer = vec![0u8; 64];
    buffer[0..4].copy_from_slice(&16u32.to_le_bytes());
    buffer[16..20].copy_from_slice(&32u32.to_le_bytes());
    let list = SystemProcessList::new(&buffer);
    let mut iter = list.iter();
    assert_eq!(iter.next(), Some(0));
    assert_eq!(iter.next(), Some(16));
    assert_eq!(iter.next(), Some(48));
    assert_eq!(iter.next(), None);
    assert_eq!(iter.next(), None);
}

#[test]
fn byte_counts_use_the_largest_unit() {
    assert_eq!(format_bytes(512), "512B");
    assert_eq!(format_bytes(1536), "2K");
    assert_eq!(format_bytes(2560), "2K");
    assert_eq!(format_bytes(5 << 20), "5M");
    assert_eq!(format_bytes(3 << 29), "1.5G");
    assert_eq!(format_bytes(1 << 40), "1.0T");
}

fn reference(bytes: u64, divisor_pow2: u32, decimals: usize) -> String {
    if decimals == 1 {
        format!("{:.1}", bytes as f64 / f64::powi(2.0, divisor_pow2 as i32))
    } else {
        format!("{:.0}", bytes as f64 / f64::powi(2.0, divisor_pow2 as i32))
    }
}

#[test]
fn scaled_bytes_match_float_format() {
    let mut state = 0x1234_5678_9ABC_DEF0u64;
    let mut checked = 0usize;
    for &pow in &[10u32, 20, 30, 40] {
        for delta in [0u64, 1, 5, 51, 512, 5120, 52_428] {
            let base = 1u64 << pow;
            for bytes in [base.saturating_sub(delta), base + delta, base / 2 + delta] {
                assert_eq!(scaled_bytes(bytes, pow), reference(bytes, pow, 1), "1dp {bytes}/{pow}");
                assert_eq!(
                    scaled_bytes_round0(bytes, pow),
                    reference(bytes, pow, 0),
                    "0dp {bytes}/{pow}"
                );
                checked += 1;
            }
        }
    }
    for _ in 0..20_000 {
        state ^= state << 13;
        state ^= state >> 7;
        state ^= state << 17;
        let bytes = state >> 11;
        let pow = (state >> 60) as u32 % 3 * 10 + 10;
        assert_eq!(scaled_bytes(bytes, pow), reference(bytes, pow, 1), "1dp {bytes}/{pow}");
        assert_eq!(
            scaled_bytes_round0(bytes, pow),
            reference(bytes, pow, 0),
            "0dp {bytes}/{pow}"
        );
        checked += 1;
    }
    assert!(checked > 20_000);
}

const SECOND: u64 = 1_000_000_000;

fn entry(checked_at: u64) -> ExeStatusEntry {
    ExeStatusEntry {
        updated: false,
        deleted: false,
        checked_at,
        next_check: checked_at + EXE_STATUS_TTL_NANOS,
    }
}

fn add_synthetic_entries(map: &mut ExeStatusMap, range: std::ops::Range<usize>, checked_at: u64) {
    for i in range {
        let key = format!("C:\\apps\\app{i}.exe");
        map.insert(&key, i as u64, entry(checked_at));
    }
}

fn enforce_base_cap(map: &mut ExeStatusMap, now: u64) -> usize {
    let mut len = map.exe_status_len();
    enforce_exe_cache_limit(map, &mut len, now, EXE_CACHE_MAX_SIZE);
    assert_eq!(len, map.exe_status_len(), "running count drifted");
    len
}

#[test]
fn wholesale_clear_only_when_nothing_is_expired() {
    let t0 = 1_000 * SECOND;
    let mut map = ExeStatusMap::new();
    add_synthetic_entries(&mut map, 0..EXE_CACHE_MAX_SIZE + 200, t0);
    assert!(map.exe_status_len() > EXE_CACHE_MAX_SIZE);

    assert_eq!(enforce_base_cap(&mut map, t0 + SECOND), 0);

    assert!(map.is_empty());
}

#[test]
fn caches_under_the_cap_are_left_alone() {
    let t0 = 1_000 * SECOND;
    let mut map = ExeStatusMap::new();
    add_synthetic_entries(&mut map, 0..64, t0);

    assert_eq!(enforce_base_cap(&mut map, t0 + SECOND), 64);

    assert_eq!(map.exe_status_len(), 64);
    assert_eq!(map.path_count(), 64);
}

#[test]
fn expired_only_paths_are_pruned_from_the_outer_map() {
    let t0 = 1_000 * SECOND;
    let later = t0 + EXE_STATUS_TTL_NANOS + EXE_STATUS_TTL_NANOS + SECOND;
    let mut map = ExeStatusMap::new();
    add_synthetic_entries(&mut map, 0..4, t0);
    add_synthetic_entries(&mut map, 100..102, later);

    assert_eq!(evict_expired_entries(&mut map, later), 4);

    assert_eq!(map.path_count(), 2);
    assert!(map.contains_path("C:\\apps\\app100.exe"));
    assert!(map.contains_path("C:\\apps\\app101.exe"));
}

#[test]
fn cap_eviction_sheds_expired_entries_and_keeps_fresh_ones() {
    let t0 = 1_000 * SECOND;
    let later = t0 + EXE_STATUS_TTL_NANOS + EXE_STATUS_TTL_NANOS + SECOND;

    let mut map = ExeStatusMap::new();
    add_synthetic_entries(&mut map, 0..600, t0);
    add_synthetic_entries(&mut map, 1_000..1_600, later);
    map.insert("C:\\apps\\shared.exe", 7, ExeStatusEntry { updated: true, ..entry(t0) });
    map.insert("C:\\apps\\shared.exe", 8, entry(later));
    assert!(map.exe_status_len() > EXE_CACHE_MAX_SIZE);

    enforce_base_cap(&mut map, later);

    assert!(map.exe_status_len() <= EXE_CACHE_MAX_SIZE);
    assert_eq!(map.path_count(), 601);
    for i in 1_000..1_600 {
        assert!(
            map.contains_path(&format!("C:\\apps\\app{i}.exe")),
            "fresh entry {i} was discarded"
        );
    }
    for i in 0..600 {
        assert!(
            !map.contains_path(&format!("C:\\apps\\app{i}.exe")),
            "expired entry {i} survived"
        );
    }
    assert!(map.get("C:\\apps\\shared.exe", 7).is_none());
    assert!(map.get("C:\\apps\\shared.exe", 8).is_some());
}

#[test]
fn staggered_jitter_spreads_deadlines_across_the_window() {
    let ttl = Duration::from_nanos(EXE_STATUS_TTL_NANOS);
    let max_jitter = Duration::from_nanos(EXE_STATUS_MAX_JITTER_NANOS);
    let mut deadlines: Vec<u128> = (0..200)
        .map(|i| {
            let path = format!("C:\\apps\\spread{}.exe", i);
            (ttl + exe_status_jitter(&path, 10_000 + i)).as_millis()
        })
        .collect();
    deadlines.sort_unstable();
    let min = deadlines[0];
    let max = deadlines[deadlines.len() - 1];
    let ttl = ttl.as_millis();
    assert!(min < ttl + max_jitter.as_millis() / 4);
    assert!(max > ttl + max_jitter.as_millis() * 3 / 4);
    assert_eq!(
        exe_status_jitter("C:\\a.exe", 7),
        exe_status_jitter("C:\\a.exe", 7)
    );
}

#[test]
fn inserting_an_existing_key_replaces_its_verdict() {
    let mut map = ExeStatusMap::new();
    assert!(map.insert("C:\\x.exe", 1, entry(0)));
    assert!(!map.insert("C:\\x.exe", 1, ExeStatusEntry { deleted: true, ..entry(5) }));
    assert_eq!(map.exe_status_len(), 1);
    assert!(map.get("C:\\x.exe", 1).unwrap().deleted);
    assert!(exe_entry_is_fresh(&entry(0), EXE_STATUS_TTL_NANOS - 1));
    assert!(!exe_entry_is_fresh(&entry(0), EXE_STATUS_TTL_NANOS));
    assert_eq!(exe_cache_cap(10), EXE_CACHE_MAX_SIZE);
    assert_eq!(exe_cache_cap(1_200), 2_400);
}

#[test]
fn processor_layout_report_counts_each_group() {
    assert_eq!(
        processor_layout_report(&[(0, 0), (0, 1), (1, 0)]),
        "Logical processors: 3\nProcessor groups:   2\n  group 0: 2 processors\n  group 1: 1 processors\n"
    );
    assert_eq!(
        processor_layout_report(&[]),
        "Logical processors: 0\nProcessor groups:   0\n"
    );
    assert_eq!(
        processor_layout_report(&[(2, 0), (0, 0)]),
        "Logical processors: 2\nProcessor groups:   3\n  group 0: 1 processors\n  group 2: 1 processors\n"
    );
}

const SEC: u64 = 1_000_000_000;

fn filetime_from_unix_secs(secs: u64) -> u64 {
    116_444_736_000_000_000 + secs * 10_000_000
}

fn written_at(secs: u64) -> ExeStat {
    ExeStat::Found(Some(ModifiedTime { secs, subsec_nanos: 0 }))
}

/// One executable check as the collector runs it: look the entry up, stat
/// the file only when the cache asks for it, and cache the new verdict.
fn check_exe(
    map: &mut ExeStatusMap,
    len: &mut usize,
    path: &str,
    start: u64,
    now: u64,
    budget: Option<&mut u32>,
    stat: ExeStat,
) -> (bool, bool) {
    let budgeted = budget.is_some();
    let mut spare = 0;
    let budget = budget.unwrap_or(&mut spare);
    match lookup_exe_status(map, path, start, now, budgeted, budget) {
        ExeLookup::Known(updated, deleted) => (updated, deleted),
        ExeLookup::NeedsStat => {
            let verdict = exe_verdict(stat, start);
            enforce_exe_cache_limit(map, len, now, EXE_CACHE_MAX_SIZE);
            let entry = fresh_exe_entry(verdict, now, path, start, budgeted);
            if map.insert(path, start, entry) {
                *len += 1;
            }
            verdict
        }
    }
}

#[test]
fn hit_path_serves_cached_verdict_without_restating() {
    let (mut map, mut len) = (ExeStatusMap::new(), 0);
    let t0 = 1_000 * SEC;
    let start_time = filetime_from_unix_secs(1_000);
    let path = "C:\\hit\\app.exe";
    assert_eq!(check_exe(&mut map, &mut len, path, start_time, t0, None, written_at(2_000)), (true, false));
    let ttl = EXE_STATUS_TTL_NANOS;
    assert_eq!(
        check_exe(&mut map, &mut len, path, start_time, t0 + ttl - SEC, None, written_at(500)),
        (true, false)
    );
    assert_eq!(
        check_exe(&mut map, &mut len, path, start_time, t0 + ttl + SEC, None, written_at(500)),
        (false, false)
    );
}

#[test]
fn deletion_is_negative_cached_until_ttl_lapses() {
    let (mut map, mut len) = (ExeStatusMap::new(), 0);
    let t0 = 1_000 * SEC;
    let start_time = filetime_from_unix_secs(1_000);
    let path = "C:\\deleted\\app.exe";
    let ttl = EXE_STATUS_TTL_NANOS;
    assert_eq!(check_exe(&mut map, &mut len, path, start_time, t0, None, written_at(2_000)), (true, false));
    assert_eq!(
        check_exe(&mut map, &mut len, path, start_time, t0 + 5 * SEC, None, ExeStat::NotFound),
        (true, false)
    );
    assert_eq!(
        check_exe(&mut map, &mut len, path, start_time, t0 + 2 * ttl, None, ExeStat::NotFound),
        (false, true)
    );
    assert_eq!(
        check_exe(&mut map, &mut len, path, start_time, t0 + 3 * ttl, None, ExeStat::NotFound),
        (false, true)
    );
}

#[test]
fn staggered_checks_defer_when_budget_is_exhausted() {
    let (mut map, mut len) = (ExeStatusMap::new(), 0);
    let t0 = 1_000 * SEC;
    let path = "C:\\defer\\app.exe";
    let mut budget = 0;
    assert_eq!(check_exe(&mut map, &mut len, path, 1, t0, Some(&mut budget), ExeStat::NotFound), (false, false));
    assert!(map.is_empty());
    budget = 1;
    assert_eq!(check_exe(&mut map, &mut len, path, 1, t0, Some(&mut budget), ExeStat::NotFound), (false, true));
    let path2 = "C:\\defer\\app2.exe";
    assert_eq!(check_exe(&mut map, &mut len, path2, 2, t0, Some(&mut budget), ExeStat::NotFound), (false, false));
    assert!(!map.contains_path(path2));
}

#[test]
fn staggered_checks_keep_last_verdict_while_deferred() {
    let (mut map, mut len) = (ExeStatusMap::new(), 0);
    let t0 = 1_000 * SEC;
    let path = "C:\\gone\\app.exe";
    let mut budget = 1;
    assert_eq!(check_exe(&mut map, &mut len, path, 1, t0, Some(&mut budget), ExeStat::NotFound), (false, true));
    budget = 0;
    let later = t0 + EXE_STATUS_TTL_NANOS + 60 * SEC;
    assert_eq!(check_exe(&mut map, &mut len, path, 1, later, Some(&mut budget), written_at(0)), (false, true));
}

#[test]
fn exe_verdicts_compare_the_mtime_with_the_process_start() {
    let start = filetime_from_unix_secs(1_000);
    assert_eq!(exe_verdict(written_at(1_000), start), (false, false));
    assert_eq!(exe_verdict(ExeStat::Found(Some(ModifiedTime { secs: 1_000, subsec_nanos: 100 })), start), (true, false));
    assert_eq!(exe_verdict(ExeStat::Found(Some(ModifiedTime { secs: 1_000, subsec_nanos: 99 })), start), (false, false));
    assert_eq!(exe_verdict(ExeStat::Found(Some(ModifiedTime { secs: u64::MAX, subsec_nanos: 0 })), u64::MAX - 1), (true, false));
    assert_eq!(exe_verdict(ExeStat::Found(None), 0), (false, false));
    assert_eq!(exe_verdict(ExeStat::NotFound, start), (false, true));
    assert_eq!(exe_verdict(ExeStat::Failed, start), (false, false));
    assert_eq!(lookup_exe_status(&ExeStatusMap::new(), "", 1, 0, false, &mut 0), ExeLookup::Known(false, false));
}

const GIB: u64 = 1 << 30;

#[test]
fn memory_breakdown_from_the_page_lists() {
    let page = 4096;
    let lists = MemoryLists {
        free_pages: GIB / page,
        modified_pages: (GIB / 2) / page,
        standby_pages: vec![GIB / page, 0, 0, 0, 0, 0, GIB / page, 0],
    };
    let m = memory_totals(16 * GIB, 3 * GIB, 20 * GIB, 6 * GIB, Some((page, (GIB / 4) / page)), Some(&lists));
    // In use: 16 - 1 free - 2 standby = 13 GiB; buffers: the quarter GiB of
    // file cache (under a tenth of in use); shared: the half GiB modified.
    assert_eq!(
        m,
        MemoryTotals {
            total: 16 * GIB,
            used: 13 * GIB - GIB / 4,
            shared: GIB / 2,
            buffers: GIB / 4,
            cached: 2 * GIB,
            swap_total: 4 * GIB,
            swap_used: GIB,
        }
    );
    assert_eq!(used_with_buffers(&m), 13 * GIB + GIB / 2);
}

#[test]
fn memory_breakdown_caps_buffers_and_shared() {
    let page = 4096;
    let lists = MemoryLists { free_pages: 0, modified_pages: GIB / page, standby_pages: vec![] };
    let m = memory_totals(10 * GIB, 0, 0, 0, Some((page, 4 * GIB / page)), Some(&lists));
    assert_eq!(m.buffers, GIB);
    assert_eq!(m.used, 9 * GIB);
    assert_eq!(m.shared, 9 * GIB / 20);
    assert_eq!((m.swap_total, m.swap_used), (0, 0));
}

#[test]
fn memory_breakdown_without_page_lists_estimates_the_cache() {
    let m = memory_totals(8 * GIB, 5 * GIB, 8 * GIB, 5 * GIB, None, None);
    assert_eq!(m.used, 3 * GIB);
    assert_eq!(m.buffers, 0);
    assert_eq!(m.cached, 4 * GIB);
    assert_eq!(m.shared, 0);
    assert_eq!((m.swap_total, m.swap_used), (0, 0));
}

#[test]
fn counter_paths_name_the_group_and_processor() {
    assert_eq!(
        processor_counter_path(1, 17, USER_TIME_COUNTER),
        "\\Processor Information(1,17)\\% User Time"
    );
    assert_eq!(
        processor_counter_path(0, 0, PRIVILEGED_TIME_COUNTER),
        "\\Processor Information(0,0)\\% Privileged Time"
    );
}
