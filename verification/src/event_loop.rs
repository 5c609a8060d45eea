//! The decisions of the viewer's main loop: what the background collector
//! is told and when it is woken, what it must collect and look up, how the
//! loop backs off from empty input wakes, and what the update check reports.

use vstd::prelude::*;
use vstd::string::StringExecFns;
use crate::app::SortColumn;
use crate::system::ProcessEnrichmentRequirements;
use crate::system::collect_gates::{BATTERY, CPU, GPU, NET, NPU};

verus! {

// ============================================================================
// Keeping the collector in step
// ============================================================================

/// What the loop last told the collector.
#[derive(Clone, Copy, Debug, PartialEq, Eq, Structural)]
pub struct CollectorSync {
    pub rate_ms: u64,
    pub paused: bool,
    pub enrichment_bits: u8,
    pub collect_bits: u8,
}

impl CollectorSync {
    /// The state at start-up: the rate and pause state the collector was
    /// started with, and requirement bits no real set has, so the first
    /// pass always sends them.
    pub fn new(rate_ms: u64, paused: bool) -> (r: CollectorSync)
        ensures
            r == (CollectorSync { rate_ms, paused, enrichment_bits: u8::MAX, collect_bits: u8::MAX }),
    {
        CollectorSync { rate_ms, paused, enrichment_bits: u8::MAX, collect_bits: u8::MAX }
    }
}

/// What one pass of the loop sends to the collector.
#[derive(Clone, Copy, Debug, PartialEq, Eq, Structural)]
pub struct CollectorUpdate {
    /// A new refresh rate to store.
    pub rate_ms: Option<u64>,
    /// A new pause state to store.
    pub paused: Option<bool>,
    /// New metadata requirements to send.
    pub enrichment: Option<ProcessEnrichmentRequirements>,
    /// New collection gates to set.
    pub collect_bits: Option<u8>,
    /// Wake the collector so it collects now instead of at its next tick.
    pub wake: bool,
}

/// Send only what changed. The collector is woken when the rate changed
/// (its schedule restarts), when updates resume, or when the requirements
/// changed to metadata the displayed snapshot does not have yet
/// (`has_enrichment`).
pub open spec fn spec_sync(
    last: CollectorSync,
    rate_ms: u64,
    paused: bool,
    enrichment: ProcessEnrichmentRequirements,
    has_enrichment: bool,
    collect_bits: u8,
) -> (CollectorSync, CollectorUpdate) {
    let rate_changed = rate_ms != last.rate_ms;
    let pause_changed = paused != last.paused;
    let enrichment_changed = enrichment.spec_bits() != last.enrichment_bits;
    let collect_changed = collect_bits != last.collect_bits;
    (
        CollectorSync { rate_ms, paused, enrichment_bits: enrichment.spec_bits(), collect_bits },
        CollectorUpdate {
            rate_ms: if rate_changed { Some(rate_ms) } else { None },
            paused: if pause_changed { Some(paused) } else { None },
            enrichment: if enrichment_changed { Some(enrichment) } else { None },
            collect_bits: if collect_changed { Some(collect_bits) } else { None },
            wake: rate_changed || (pause_changed && !paused) || (enrichment_changed && !has_enrichment),
        },
    )
}

/// Compare the loop's current state with what the collector was last told,
/// record the new state, and say what to send.
pub fn sync_collector(
    last: &mut CollectorSync,
    rate_ms: u64,
    paused: bool,
    enrichment: ProcessEnrichmentRequirements,
    has_enrichment: bool,
    collect_bits: u8,
) -> (update: CollectorUpdate)
    ensures
        (*final(last), update) == spec_sync(*old(last), rate_ms, paused, enrichment, has_enrichment, collect_bits),
{
    let mut wake = false;
    let mut new_rate = None;
    if rate_ms != last.rate_ms {
        last.rate_ms = rate_ms;
        new_rate = Some(rate_ms);
        wake = true;
    }
    let mut new_paused = None;
    if paused != last.paused {
        last.paused = paused;
        new_paused = Some(paused);
        wake = wake || !paused;
    }
    let bits = enrichment.bits();
    let mut new_enrichment = None;
    if bits != last.enrichment_bits {
        last.enrichment_bits = bits;
        new_enrichment = Some(enrichment);
        wake = wake || !has_enrichment;
    }
    let mut new_collect = None;
    if collect_bits != last.collect_bits {
        last.collect_bits = collect_bits;
        new_collect = Some(collect_bits);
    }
    CollectorUpdate {
        rate_ms: new_rate,
        paused: new_paused,
        enrichment: new_enrichment,
        collect_bits: new_collect,
        wake,
    }
}

/// A second pass with nothing changed sends nothing and wakes nobody.
pub proof fn sync_is_idempotent(
    last: CollectorSync,
    rate_ms: u64,
    paused: bool,
    enrichment: ProcessEnrichmentRequirements,
    has_enrichment: bool,
    collect_bits: u8,
    has_enrichment_later: bool,
)
    ensures
        ({
            let (next, _) = spec_sync(last, rate_ms, paused, enrichment, has_enrichment, collect_bits);
            spec_sync(next, rate_ms, paused, enrichment, has_enrichment_later, collect_bits)
                == (next, CollectorUpdate {
                rate_ms: None,
                paused: None,
                enrichment: None,
                collect_bits: None,
                wake: false,
            })
        }),
{
}

// ============================================================================
// What the collector has to produce
// ============================================================================

/// What the header shows, which decides the subsystems a refresh collects.
#[derive(Clone, Copy, Debug, PartialEq, Eq, Structural)]
pub struct HeaderDemand {
    pub show_header: bool,
    /// The CPU meters are shown and not hidden.
    pub cpu_meters_shown: bool,
    /// The uptime row, which also shows the average CPU.
    pub uptime_shown: bool,
    /// The layout has room for the network meter.
    pub network_shown: bool,
    /// The layout has room for the battery meter.
    pub battery_shown: bool,
    /// The GPU meter is enabled and not hidden.
    pub gpu_meter_shown: bool,
    /// The NPU meter is enabled and not hidden.
    pub npu_meter_shown: bool,
    /// A GPU or NPU adapter is already being tracked.
    pub adapters_tracked: bool,
}

/// The collection gates for what the header shows: nothing without a
/// header; CPU for the CPU meters or the uptime row; the network and battery
/// meters when the layout shows them; GPU and NPU together while either
/// meter is on or an adapter is tracked.
pub open spec fn spec_collect_requirements(d: HeaderDemand) -> u8 {
    if !d.show_header {
        0
    } else {
        (if d.cpu_meters_shown || d.uptime_shown { CPU } else { 0u8 }) | (if d.network_shown {
            NET
        } else {
            0u8
        }) | (if d.battery_shown { BATTERY } else { 0u8 }) | (if d.gpu_meter_shown || d.npu_meter_shown
            || d.adapters_tracked {
            GPU | NPU
        } else {
            0u8
        })
    }
}

/// Which subsystems a refresh has to collect for what the header shows.
pub fn collect_requirements(d: HeaderDemand) -> (bits: u8)
    ensures
        bits == spec_collect_requirements(d),
{
    if !d.show_header {
        return 0;
    }
    let cpu = if d.cpu_meters_shown || d.uptime_shown { CPU } else { 0u8 };
    let network = if d.network_shown { NET } else { 0u8 };
    let battery = if d.battery_shown { BATTERY } else { 0u8 };
    let adapters = if d.gpu_meter_shown || d.npu_meter_shown || d.adapters_tracked { GPU | NPU } else { 0u8 };
    cpu | network | battery | adapters
}

/// What the process list shows and asks for, which decides the metadata
/// the collector has to look up.
#[derive(Clone, Copy, Debug, PartialEq, Eq, Structural)]
pub struct ListDemand {
    /// A text filter is set.
    pub text_filter: bool,
    /// The list is limited to one user.
    pub user_filter: bool,
    pub show_kernel_threads: bool,
    pub show_user_threads: bool,
    pub sort_column: SortColumn,
    /// The user picker is open or about to open.
    pub user_picker: bool,
    pub show_program_path: bool,
}

/// The metadata the list needs: owners to filter, hide threads, sort by user
/// or pick a user; elevation, architecture or efficiency mode to sort by
/// them; executable paths to filter or to sort the shown paths.
pub open spec fn spec_enrichment_requirements(d: ListDemand) -> ProcessEnrichmentRequirements {
    ProcessEnrichmentRequirements {
        user: d.text_filter || d.user_filter || !d.show_kernel_threads || !d.show_user_threads
            || d.sort_column == SortColumn::User || d.user_picker,
        elevation: d.sort_column == SortColumn::Elevated,
        arch: d.sort_column == SortColumn::Arch,
        efficiency: d.sort_column == SortColumn::Efficiency,
        exe_path: d.text_filter || (d.show_program_path && d.sort_column == SortColumn::Command),
    }
}

/// The per-process metadata the list needs looked up.
pub fn enrichment_requirements(d: ListDemand) -> (r: ProcessEnrichmentRequirements)
    ensures
        r == spec_enrichment_requirements(d),
{
    ProcessEnrichmentRequirements {
        user: d.text_filter || d.user_filter || !d.show_kernel_threads || !d.show_user_threads
            || d.sort_column == SortColumn::User || d.user_picker,
        elevation: d.sort_column == SortColumn::Elevated,
        arch: d.sort_column == SortColumn::Arch,
        efficiency: d.sort_column == SortColumn::Efficiency,
        exe_path: d.text_filter || (d.show_program_path && d.sort_column == SortColumn::Command),
    }
}

// ============================================================================
// Waiting for input
// ============================================================================

/// After this many input wakes in a row that brought no event, the loop
/// sleeps a millisecond before waiting again.
pub const EMPTY_WAKES_BEFORE_BACKOFF: u32 = 3;

/// The count of input wakes in a row that brought no event, after a wait
/// that woke for input (`woke_for_input`) with an event to read or not
/// (`input_ready`), and whether to back off now.
pub fn empty_input_wakes(count: u32, woke_for_input: bool, input_ready: bool) -> (r: (u32, bool))
    requires
        count < u32::MAX,
    ensures
        r.0 == if woke_for_input && !input_ready { count + 1 } else { 0 },
        r.1 == (r.0 >= EMPTY_WAKES_BEFORE_BACKOFF),
{
    let next = if woke_for_input && !input_ready { count + 1 } else { 0 };
    (next, next >= EMPTY_WAKES_BEFORE_BACKOFF)
}

// ============================================================================
// The update check
// ============================================================================

/// How the background update check ended.
pub enum UpdateOutcome {
    /// A newer version was downloaded.
    Downloaded { version: String },
    /// The latest release is the running version.
    UpToDate,
    /// The check or download failed.
    Failed(String),
}

/// The status line for the outcome of the update check, `running` being the
/// running version.
pub open spec fn update_message(outcome: UpdateOutcome, running: Seq<char>) -> Seq<char> {
    match outcome {
        UpdateOutcome::Downloaded { version } => "Update v"@ + version@ + " downloaded. Restart to apply."@,
        UpdateOutcome::UpToDate => "v"@ + running + " Up-to-date!"@,
        UpdateOutcome::Failed(error) => "Update check failed: "@ + error@,
    }
}

/// The status line for the outcome of the update check.
pub fn update_status_message(outcome: &UpdateOutcome, running: &str) -> (s: String)
    ensures
        s@ == update_message(*outcome, running@),
{
    proof {
        reveal_strlit("Update v");
        reveal_strlit(" downloaded. Restart to apply.");
        reveal_strlit("v");
        reveal_strlit(" Up-to-date!");
        reveal_strlit("Update check failed: ");
    }
    let mut s = String::new();
    match outcome {
        UpdateOutcome::Downloaded { version } => {
            s.append("Update v");
            s.append(version.as_str());
            s.append(" downloaded. Restart to apply.");
        },
        UpdateOutcome::UpToDate => {
            s.append("v");
            s.append(running);
            s.append(" Up-to-date!");
        },
        UpdateOutcome::Failed(error) => {
            s.append("Update check failed: ");
            s.append(error.as_str());
        },
    }
    assert(s@ =~= update_message(*outcome, running@));
    s
}

} // verus!
