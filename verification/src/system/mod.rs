//! System-level data: process identity, the metadata a refresh must look
//! up, sampling arithmetic and the collection gates.

use vstd::prelude::*;
use std::time::Duration;
use std::collections::HashMap;
use crate::event_wait::{duration_as_nanos, duration_nanos};
use crate::text::{decimal, push_decimal};
use vstd::string::StringExecFns;

pub mod collect_gates;
pub mod memory;
pub mod d3dkmt;
pub mod npu;
pub mod native;
pub mod cache;
pub mod process;
pub mod refresh;

verus! {

broadcast use vstd::std_specs::hash::group_hash_axioms;

/// A process as the viewer tracks it across refreshes: its id together with
/// its creation time, so a reused pid is a different process.
#[derive(Debug, Clone, Copy, PartialEq, Eq, Hash, Structural)]
pub struct ProcessIdentity {
    pub pid: u32,
    pub create_time_100ns: u64,
}

/// Per-process metadata a refresh has to look up beyond the basic snapshot.
#[derive(Debug, Clone, Copy, PartialEq, Eq, Structural)]
pub struct ProcessEnrichmentRequirements {
    pub user: bool,
    pub elevation: bool,
    pub arch: bool,
    pub efficiency: bool,
    pub exe_path: bool,
}

impl Default for ProcessEnrichmentRequirements {
    fn default() -> (r: ProcessEnrichmentRequirements)
        ensures
            r == ProcessEnrichmentRequirements::none(),
    {
        ProcessEnrichmentRequirements {
            user: false,
            elevation: false,
            arch: false,
            efficiency: false,
            exe_path: false,
        }
    }
}

/// Bit `i` of `bits`.
pub open spec fn bit(bits: u8, i: u8) -> bool {
    (bits >> i) & 1 == 1
}

impl ProcessEnrichmentRequirements {
    /// Nothing required.
    pub open spec fn none() -> ProcessEnrichmentRequirements {
        ProcessEnrichmentRequirements {
            user: false,
            elevation: false,
            arch: false,
            efficiency: false,
            exe_path: false,
        }
    }

    /// Everything `other` requires is required here too.
    pub open spec fn spec_contains(self, other: ProcessEnrichmentRequirements) -> bool {
        &&& other.user ==> self.user
        &&& other.elevation ==> self.elevation
        &&& other.arch ==> self.arch
        &&& other.efficiency ==> self.efficiency
        &&& other.exe_path ==> self.exe_path
    }

    pub open spec fn spec_bits(self) -> u8 {
        (if self.user { 1u8 } else { 0u8 }) | (if self.elevation { 2u8 } else { 0u8 }) | (
        if self.arch { 4u8 } else { 0u8 }) | (if self.efficiency { 8u8 } else { 0u8 }) | (
        if self.exe_path { 16u8 } else { 0u8 })
    }

    pub open spec fn spec_from_bits(bits: u8) -> ProcessEnrichmentRequirements {
        ProcessEnrichmentRequirements {
            user: bits & 1 != 0,
            elevation: bits & 2 != 0,
            arch: bits & 4 != 0,
            efficiency: bits & 8 != 0,
            exe_path: bits & 16 != 0,
        }
    }

    /// What the visible rows need: all the metadata, the executable path
    /// only when program paths are shown.
    pub fn visible(show_program_path: bool) -> (r: ProcessEnrichmentRequirements)
        ensures
            r.user && r.elevation && r.arch && r.efficiency,
            r.exe_path == show_program_path,
    {
        ProcessEnrichmentRequirements {
            user: true,
            elevation: true,
            arch: true,
            efficiency: true,
            exe_path: show_program_path,
        }
    }

    /// The requirements packed one per bit (user lowest, then elevation,
    /// arch, efficiency, exe path).
    pub fn bits(self) -> (r: u8)
        ensures
            r == self.spec_bits(),
    {
        (if self.user { 1u8 } else { 0u8 }) | (if self.elevation { 2u8 } else { 0u8 }) | (
        if self.arch { 4u8 } else { 0u8 }) | (if self.efficiency { 8u8 } else { 0u8 }) | (
        if self.exe_path { 16u8 } else { 0u8 })
    }

    /// Unpack requirements from `bits` (other bits are ignored).
    pub fn from_bits(bits: u8) -> (r: ProcessEnrichmentRequirements)
        ensures
            r == Self::spec_from_bits(bits),
    {
        ProcessEnrichmentRequirements {
            user: bits & 1 != 0,
            elevation: bits & 2 != 0,
            arch: bits & 4 != 0,
            efficiency: bits & 8 != 0,
            exe_path: bits & 16 != 0,
        }
    }

    /// Everything `other` requires is covered by `self`.
    pub fn contains(self, other: ProcessEnrichmentRequirements) -> (r: bool)
        ensures
            r == self.spec_contains(other),
    {
        (!other.user || self.user) && (!other.elevation || self.elevation) && (!other.arch
            || self.arch) && (!other.efficiency || self.efficiency) && (!other.exe_path
            || self.exe_path)
    }

    /// Anything at all is required.
    pub fn any(self) -> (r: bool)
        ensures
            r == (self != Self::none()),
    {
        self.user || self.elevation || self.arch || self.efficiency || self.exe_path
    }
}

/// Packing requirements into bits and unpacking them gives them back.
pub proof fn enrichment_bits_round_trip(r: ProcessEnrichmentRequirements)
    ensures
        ProcessEnrichmentRequirements::spec_from_bits(r.spec_bits()) == r,
{
    let (u, e, a, f, x) = (r.user, r.elevation, r.arch, r.efficiency, r.exe_path);
    let b = r.spec_bits();
    assert(b & 1 != 0 <==> u) by (bit_vector)
        requires
            b == (if u { 1u8 } else { 0u8 }) | (if e { 2u8 } else { 0u8 }) | (if a { 4u8 } else { 0u8 }) | (
            if f { 8u8 } else { 0u8 }) | (if x { 16u8 } else { 0u8 });
    assert(b & 2 != 0 <==> e) by (bit_vector)
        requires
            b == (if u { 1u8 } else { 0u8 }) | (if e { 2u8 } else { 0u8 }) | (if a { 4u8 } else { 0u8 }) | (
            if f { 8u8 } else { 0u8 }) | (if x { 16u8 } else { 0u8 });
    assert(b & 4 != 0 <==> a) by (bit_vector)
        requires
            b == (if u { 1u8 } else { 0u8 }) | (if e { 2u8 } else { 0u8 }) | (if a { 4u8 } else { 0u8 }) | (
            if f { 8u8 } else { 0u8 }) | (if x { 16u8 } else { 0u8 });
    assert(b & 8 != 0 <==> f) by (bit_vector)
        requires
            b == (if u { 1u8 } else { 0u8 }) | (if e { 2u8 } else { 0u8 }) | (if a { 4u8 } else { 0u8 }) | (
            if f { 8u8 } else { 0u8 }) | (if x { 16u8 } else { 0u8 });
    assert(b & 16 != 0 <==> x) by (bit_vector)
        requires
            b == (if u { 1u8 } else { 0u8 }) | (if e { 2u8 } else { 0u8 }) | (if a { 4u8 } else { 0u8 }) | (
            if f { 8u8 } else { 0u8 }) | (if x { 16u8 } else { 0u8 });
}

/// Coverage is a partial order: every set of requirements covers itself and
/// nothing, coverage chains, and what the visible rows need with paths shown
/// covers every set of requirements.
pub proof fn enrichment_coverage_order(
    a: ProcessEnrichmentRequirements,
    b: ProcessEnrichmentRequirements,
    c: ProcessEnrichmentRequirements,
)
    ensures
        a.spec_contains(a),
        a.spec_contains(ProcessEnrichmentRequirements::none()),
        a.spec_contains(b) && b.spec_contains(c) ==> a.spec_contains(c),
        a.spec_contains(b) && b.spec_contains(a) ==> a == b,
        (ProcessEnrichmentRequirements { user: true, elevation: true, arch: true, efficiency: true, exe_path: true }).spec_contains(a),
{
}

/// Whole CPU capacity of an interval: `nanos` of wall clock on `count`
/// logical processors (at least one), in 100 ns units, saturating.
pub open spec fn spec_cpu_capacity(nanos: nat, count: nat) -> nat {
    let cores: nat = if count > 1 { count } else { 1 };
    let product = nanos * cores;
    let saturated: nat = if product > u128::MAX { u128::MAX as nat } else { product };
    let capacity = saturated / 100;
    if capacity > u64::MAX { u64::MAX as nat } else { capacity }
}

/// Total CPU capacity for an interval of `nanos` nanoseconds.
pub fn cpu_capacity_from_nanos(nanos: u128, logical_processor_count: usize) -> (r: u64)
    ensures
        r as nat == spec_cpu_capacity(nanos as nat, logical_processor_count as nat),
{
    let cores: u128 = if logical_processor_count > 1 { logical_processor_count as u128 } else { 1 };
    let product = if nanos > u128::MAX / cores {
        assert(nanos * cores > u128::MAX) by (nonlinear_arith)
            requires
                nanos > u128::MAX / cores,
                cores >= 1,
        {}
        u128::MAX
    } else {
        assert(nanos * cores <= u128::MAX) by (nonlinear_arith)
            requires
                nanos <= u128::MAX / cores,
                cores >= 1,
        {}
        nanos * cores
    };
    let capacity = product / 100;
    if capacity > u64::MAX as u128 {
        u64::MAX
    } else {
        capacity as u64
    }
}

/// Convert a wall-clock sample interval into total CPU capacity in the same
/// 100-nanosecond units the process times use.
pub fn cpu_capacity_100ns(elapsed: Duration, logical_processor_count: usize) -> (r: u64)
    ensures
        r as nat == spec_cpu_capacity(duration_nanos(elapsed) as nat, logical_processor_count as nat),
{
    cpu_capacity_from_nanos(duration_as_nanos(elapsed), logical_processor_count)
}

/// Capacity grows with the number of processors and with the interval.
pub proof fn cpu_capacity_monotone(n1: nat, n2: nat, c1: nat, c2: nat)
    requires
        n1 <= n2,
        c1 <= c2,
    ensures
        spec_cpu_capacity(n1, c1) <= spec_cpu_capacity(n2, c2),
{
    let k1: nat = if c1 > 1 { c1 } else { 1 };
    let k2: nat = if c2 > 1 { c2 } else { 1 };
    assert(n1 * k1 <= n2 * k2) by (nonlinear_arith)
        requires
            n1 <= n2,
            k1 <= k2,
    {}
    let p1: nat = if n1 * k1 > u128::MAX { u128::MAX as nat } else { n1 * k1 };
    let p2: nat = if n2 * k2 > u128::MAX { u128::MAX as nat } else { n2 * k2 };
    assert(p1 / 100 <= p2 / 100) by (nonlinear_arith)
        requires
            p1 <= p2,
    {}
}

/// Capacity denominator for this tick: the count reported by the live
/// processor enumeration when it yields one, otherwise the last known count
/// (never zero, so the interval can still be divided).
pub fn tick_processor_count(previous: usize, enumerated: usize) -> (r: usize)
    ensures
        r == if enumerated > 0 {
            enumerated
        } else if previous > 1 {
            previous
        } else {
            1
        },
        r >= 1,
{
    if enumerated > 0 {
        enumerated
    } else if previous > 1 {
        previous
    } else {
        1
    }
}

/// The System Idle Process (pid 0) is not listed as a task.
pub fn is_displayed_task(pid: u32) -> (r: bool)
    ensures
        r == (pid != 0),
{
    pid != 0
}

/// Flat list of (group, processor-in-group) for every active logical
/// processor, in group-then-index order.
pub open spec fn layout_of_groups(counts: Seq<u32>) -> Seq<(u16, u32)>
    decreases counts.len(),
{
    if counts.len() == 0 {
        Seq::empty()
    } else {
        let g = (counts.len() - 1) as u16;
        layout_of_groups(counts.drop_last()) + Seq::new(counts.last() as nat, |n: int| (g, n as u32))
    }
}

/// The processor layout from the active processor count of each group, or
/// a single group of `fallback_count` processors when the groups report none.
pub open spec fn spec_processor_layout(counts: Seq<u32>, fallback_count: u32) -> Seq<(u16, u32)> {
    let grouped = layout_of_groups(counts);
    if grouped.len() == 0 {
        Seq::new(fallback_count as nat, |n: int| (0u16, n as u32))
    } else {
        grouped
    }
}

/// Build the processor layout from the per-group processor counts (index =
/// group number) and the processor count to fall back on.
pub fn processor_layout_from_counts(group_counts: &[u32], fallback_count: u32) -> (r: Vec<(u16, u32)>)
    requires
        group_counts@.len() <= u16::MAX + 1,
    ensures
        r@ == spec_processor_layout(group_counts@, fallback_count),
{
    let mut layout: Vec<(u16, u32)> = Vec::new();
    let mut g: usize = 0;
    assert(group_counts@.subrange(0, 0) =~= Seq::<u32>::empty());
    while g < group_counts.len()
        invariant
            group_counts@.len() <= u16::MAX + 1,
            0 <= g <= group_counts@.len(),
            layout@ == layout_of_groups(group_counts@.subrange(0, g as int)),
        decreases group_counts.len() - g,
    {
        let count = group_counts[g];
        let ghost before = layout@;
        let mut n: u32 = 0;
        while n < count
            invariant
                0 <= g < group_counts@.len() <= u16::MAX + 1,
                n <= count,
                layout@ == before + Seq::new(n as nat, |k: int| (g as u16, k as u32)),
            decreases count - n,
        {
            layout.push((g as u16, n));
            n = n + 1;
            assert(layout@ =~= before + Seq::new(n as nat, |k: int| (g as u16, k as u32)));
        }
        let ghost prefix = group_counts@.subrange(0, g + 1);
        assert(prefix.drop_last() =~= group_counts@.subrange(0, g as int));
        assert(prefix.last() == count);
        assert(layout@ =~= layout_of_groups(prefix));
        g = g + 1;
    }
    assert(group_counts@.subrange(0, group_counts@.len() as int) =~= group_counts@);
    if layout.len() == 0 {
        let mut n: u32 = 0;
        while n < fallback_count
            invariant
                n <= fallback_count,
                layout@ == Seq::new(n as nat, |k: int| (0u16, k as u32)),
            decreases fallback_count - n,
        {
            layout.push((0, n));
            n = n + 1;
            assert(layout@ =~= Seq::new(n as nat, |k: int| (0u16, k as u32)));
        }
    }
    layout
}

/// Saturating sum of the read (`0`) and write (`1`) rates in `rates`.
pub open spec fn saturating_rate_sums(rates: Seq<(u64, u64)>) -> (u64, u64)
    decreases rates.len(),
{
    if rates.len() == 0 {
        (0, 0)
    } else {
        let (r, w) = saturating_rate_sums(rates.drop_last());
        let last = rates.last();
        (
            if r + last.0 > u64::MAX { u64::MAX } else { (r + last.0) as u64 },
            if w + last.1 > u64::MAX { u64::MAX } else { (w + last.1) as u64 },
        )
    }
}

/// Total disk read and write rates over all processes, saturating at
/// `u64::MAX`; `rates` lists each process's (read, write) rates.
pub fn aggregate_io_rates(rates: &[(u64, u64)]) -> (r: (u64, u64))
    ensures
        r == saturating_rate_sums(rates@),
{
    let mut totals: (u64, u64) = (0, 0);
    let mut i: usize = 0;
    assert(rates@.subrange(0, 0) =~= Seq::<(u64, u64)>::empty());
    while i < rates.len()
        invariant
            0 <= i <= rates@.len(),
            totals == saturating_rate_sums(rates@.subrange(0, i as int)),
        decreases rates.len() - i,
    {
        let (r, w) = rates[i];
        assert(rates@.subrange(0, i + 1).drop_last() =~= rates@.subrange(0, i as int));
        totals = (totals.0.saturating_add(r), totals.1.saturating_add(w));
        i = i + 1;
    }
    assert(rates@.subrange(0, rates@.len() as int) =~= rates@);
    totals
}

/// Lifetime byte counters of one network interface.
#[derive(Debug, Clone, Copy, PartialEq, Eq, Structural)]
pub struct NetworkCounters {
    pub rx_bytes: u64,
    pub tx_bytes: u64,
}

/// `total + amount`, held at `u64::MAX`.
pub open spec fn saturating_sum(total: u64, amount: int) -> u64 {
    if total + amount > u64::MAX { u64::MAX } else { (total + amount) as u64 }
}

/// What a counter grew by since the previous sample: nothing when the
/// interface is new or its counter went backwards (a reset).
pub open spec fn counter_growth(now: u64, before: Option<u64>) -> int {
    match before {
        Some(b) => if now >= b { now - b } else { 0 },
        None => 0,
    }
}

/// The previous sample's counters of interface `identity`, if it was there.
pub open spec fn previous_counters(previous: Option<Map<u64, NetworkCounters>>, identity: u64) -> Option<NetworkCounters> {
    match previous {
        Some(m) => if m.contains_key(identity) { Some(m[identity]) } else { None },
        None => None,
    }
}

/// Received and sent totals over `current`, then the received and sent
/// growth since `previous`, each summed with saturation at `u64::MAX`.
pub open spec fn network_sums(current: Seq<(u64, NetworkCounters)>, previous: Option<Map<u64, NetworkCounters>>) -> (u64, u64, u64, u64)
    decreases current.len(),
{
    if current.len() == 0 {
        (0, 0, 0, 0)
    } else {
        let (rx, tx, drx, dtx) = network_sums(current.drop_last(), previous);
        let (identity, c) = current.last();
        let before = previous_counters(previous, identity);
        (
            saturating_sum(rx, c.rx_bytes as int),
            saturating_sum(tx, c.tx_bytes as int),
            saturating_sum(drx, counter_growth(c.rx_bytes, match before { Some(b) => Some(b.rx_bytes), None => None })),
            saturating_sum(dtx, counter_growth(c.tx_bytes, match before { Some(b) => Some(b.tx_bytes), None => None })),
        )
    }
}

/// The map of a previous sample, if there is one.
pub open spec fn sample_view(previous: Option<&HashMap<u64, NetworkCounters>>) -> Option<Map<u64, NetworkCounters>> {
    match previous {
        Some(m) => Some(m@),
        None => None,
    }
}

/// Network totals and the traffic of the last interval: `current` lists each
/// interface's identity and lifetime counters, `previous` the counters of the
/// sample before. Returns (received total, sent total, received growth, sent
/// growth); an interface that is new, or whose counter was reset, adds nothing
/// to the growth, so churn never shows as a spike.
pub fn network_totals_and_deltas(
    current: &[(u64, NetworkCounters)],
    previous: Option<&HashMap<u64, NetworkCounters>>,
) -> (r: (u64, u64, u64, u64))
    ensures
        r == network_sums(current@, sample_view(previous)),
{
    let mut rx: u64 = 0;
    let mut tx: u64 = 0;
    let mut drx: u64 = 0;
    let mut dtx: u64 = 0;
    let mut i: usize = 0;
    assert(current@.subrange(0, 0) =~= Seq::<(u64, NetworkCounters)>::empty());
    while i < current.len()
        invariant
            0 <= i <= current@.len(),
            (rx, tx, drx, dtx) == network_sums(current@.subrange(0, i as int), sample_view(previous)),
        decreases current.len() - i,
    {
        let (identity, counters) = current[i];
        assert(current@.subrange(0, i + 1).drop_last() =~= current@.subrange(0, i as int));
        rx = rx.saturating_add(counters.rx_bytes);
        tx = tx.saturating_add(counters.tx_bytes);
        match previous {
            Some(m) => match m.get(&identity) {
                Some(old) => {
                    if counters.rx_bytes >= old.rx_bytes {
                        drx = drx.saturating_add(counters.rx_bytes - old.rx_bytes);
                    }
                    if counters.tx_bytes >= old.tx_bytes {
                        dtx = dtx.saturating_add(counters.tx_bytes - old.tx_bytes);
                    }
                },
                None => {},
            },
            None => {},
        }
        i = i + 1;
    }
    assert(current@.subrange(0, current@.len() as int) =~= current@);
    (rx, tx, drx, dtx)
}

/// How many processors of `layout` are in group `g`.
pub open spec fn group_size(layout: Seq<(u16, u32)>, g: int) -> nat
    decreases layout.len(),
{
    if layout.len() == 0 {
        0
    } else {
        group_size(layout.drop_last(), g) + if layout.last().0 == g { 1nat } else { 0nat }
    }
}

/// One more than the highest group number in `layout` (0 for no processors).
pub open spec fn group_span(layout: Seq<(u16, u32)>) -> nat
    decreases layout.len(),
{
    if layout.len() == 0 {
        0
    } else {
        let rest = group_span(layout.drop_last());
        if layout.last().0 + 1 > rest { (layout.last().0 + 1) as nat } else { rest }
    }
}

/// The report line for group `g` of `n` processors.
pub open spec fn group_line(g: nat, n: nat) -> Seq<char> {
    "  group "@ + decimal(g) + ": "@ + decimal(n) + " processors\n"@
}

/// A line for each of the groups below `upto` that has processors, in
/// group order.
pub open spec fn group_lines(layout: Seq<(u16, u32)>, upto: nat) -> Seq<char>
    decreases upto,
{
    if upto == 0 {
        Seq::empty()
    } else {
        let g = (upto - 1) as nat;
        group_lines(layout, g) + if group_size(layout, g as int) > 0 {
            group_line(g, group_size(layout, g as int))
        } else {
            Seq::empty()
        }
    }
}

/// The processor-group part of the CPU diagnostics for `layout`: how many
/// logical processors and groups there are, and how many processors each
/// group has.
pub open spec fn layout_report(layout: Seq<(u16, u32)>) -> Seq<char> {
    "Logical processors: "@ + decimal(layout.len()) + "\n"@ + "Processor groups:   "@ + decimal(
        group_span(layout),
    ) + "\n"@ + group_lines(layout, group_span(layout))
}

proof fn lemma_group_span_bound(layout: Seq<(u16, u32)>)
    ensures
        group_span(layout) <= 65536,
        forall|i: int| 0 <= i < layout.len() ==> layout[i].0 < group_span(layout),
    decreases layout.len(),
{
    if layout.len() > 0 {
        lemma_group_span_bound(layout.drop_last());
        assert forall|i: int| 0 <= i < layout.len() implies layout[i].0 < group_span(layout) by {
            if i < layout.len() - 1 {
                assert(layout.drop_last()[i] == layout[i]);
            }
        }
    }
}

proof fn lemma_group_size_bound(layout: Seq<(u16, u32)>, g: int)
    ensures
        group_size(layout, g) <= layout.len(),
    decreases layout.len(),
{
    if layout.len() > 0 {
        lemma_group_size_bound(layout.drop_last(), g);
    }
}

/// The processor-group part of the CPU diagnostics (see [`layout_report`]).
pub fn processor_layout_report(layout: &[(u16, u32)]) -> (report: String)
    ensures
        report@ == layout_report(layout@),
{
    let mut span: usize = 0;
    let mut i: usize = 0;
    assert(layout@.subrange(0, 0) =~= Seq::<(u16, u32)>::empty());
    while i < layout.len()
        invariant
            0 <= i <= layout@.len(),
            span == group_span(layout@.subrange(0, i as int)),
            span <= 65536,
        decreases layout.len() - i,
    {
        assert(layout@.subrange(0, i + 1).drop_last() =~= layout@.subrange(0, i as int));
        let g = layout[i].0 as usize;
        if g + 1 > span {
            span = g + 1;
        }
        i = i + 1;
    }
    assert(layout@.subrange(0, layout@.len() as int) =~= layout@);
    let mut sizes: Vec<usize> = Vec::new();
    let mut k: usize = 0;
    while k < span
        invariant
            0 <= k <= span,
            sizes@.len() == k,
            forall|j: int| 0 <= j < k ==> sizes@[j] == 0,
        decreases span - k,
    {
        sizes.push(0);
        k = k + 1;
    }
    let mut i: usize = 0;
    proof {
        lemma_group_span_bound(layout@);
    }
    while i < layout.len()
        invariant
            0 <= i <= layout@.len(),
            span == group_span(layout@),
            forall|j: int| 0 <= j < layout@.len() ==> layout@[j].0 < span,
            sizes@.len() == span,
            forall|g: int| 0 <= g < span ==> #[trigger] sizes@[g] == group_size(layout@.subrange(0, i as int), g),
        decreases layout.len() - i,
    {
        assert(layout@.subrange(0, i + 1).drop_last() =~= layout@.subrange(0, i as int));
        let g = layout[i].0 as usize;
        proof {
            lemma_group_size_bound(layout@.subrange(0, i as int), g as int);
        }
        let n = sizes[g];
        sizes.set(g, n + 1);
        i = i + 1;
    }
    assert(layout@.subrange(0, layout@.len() as int) =~= layout@);
    let mut out = String::new();
    proof {
        reveal_strlit("Logical processors: ");
        reveal_strlit("Processor groups:   ");
        reveal_strlit("\n");
        reveal_strlit("  group ");
        reveal_strlit(": ");
        reveal_strlit(" processors\n");
    }
    out.append("Logical processors: ");
    push_decimal(&mut out, layout.len() as u128);
    out.append("\n");
    out.append("Processor groups:   ");
    push_decimal(&mut out, span as u128);
    out.append("\n");
    let ghost head = out@;
    let mut g: usize = 0;
    while g < span
        invariant
            0 <= g <= span,
            span == group_span(layout@),
            sizes@.len() == span,
            forall|h: int| 0 <= h < span ==> #[trigger] sizes@[h] == group_size(layout@, h),
            out@ == head + group_lines(layout@, g as nat),
        decreases span - g,
    {
        let n = sizes[g];
        if n > 0 {
            out.append("  group ");
            push_decimal(&mut out, g as u128);
            out.append(": ");
            push_decimal(&mut out, n as u128);
            out.append(" processors\n");
        }
        assert(out@ =~= head + group_lines(layout@, (g + 1) as nat));
        g = g + 1;
    }
    assert(out@ =~= layout_report(layout@));
    out
}

/// The PDH counter path of `counter` for processor `n` of `group`, in the
/// group-aware "Processor Information" counter set that covers every
/// processor group.
pub open spec fn spec_counter_path(group: u16, n: u32, counter: Seq<char>) -> Seq<char> {
    "\\Processor Information("@ + decimal(group as nat) + ","@ + decimal(n as nat) + ")\\"@ + counter
}

/// The user-time counter's name.
pub const USER_TIME_COUNTER: &'static str = "% User Time";

/// The privileged-time counter's name.
pub const PRIVILEGED_TIME_COUNTER: &'static str = "% Privileged Time";

/// The PDH counter path of `counter` for processor `n` of `group`.
pub fn processor_counter_path(group: u16, n: u32, counter: &str) -> (path: String)
    ensures
        path@ == spec_counter_path(group, n, counter@),
{
    proof {
        reveal_strlit("\\Processor Information(");
        reveal_strlit(",");
        reveal_strlit(")\\");
    }
    let mut path = String::new();
    path.append("\\Processor Information(");
    push_decimal(&mut path, group as u128);
    path.append(",");
    push_decimal(&mut path, n as u128);
    path.append(")\\");
    path.append(counter);
    assert(path@ =~= spec_counter_path(group, n, counter@));
    path
}

} // verus!
