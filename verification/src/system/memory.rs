//! Human-readable byte counts.

use vstd::prelude::*;
use vstd::string::StringExecFns;
use crate::numfmt::{scaled_bytes_into, scaled_bytes_round0, spec_scaled_bytes, spec_round_half_even_div};
use crate::text::{decimal, push_decimal, digit_text, digits_value, decimal_reads_back};
use crate::numfmt::{round_half_even, round_half_even_is_nearest};
use vstd::arithmetic::power2::{pow2, lemma2_to64, lemma2_to64_rest};

verus! {

/// `bytes` with the largest binary unit it reaches: one decimal for T and
/// G, whole numbers for M and K (halves to even), plain bytes below 1 K.
pub open spec fn spec_format_bytes(bytes: u64) -> Seq<char> {
    if bytes >= 0x100_0000_0000 {
        spec_scaled_bytes(bytes, 40) + seq!['T']
    } else if bytes >= 0x4000_0000 {
        spec_scaled_bytes(bytes, 30) + seq!['G']
    } else if bytes >= 0x10_0000 {
        decimal(spec_round_half_even_div(bytes as nat, 20)) + seq!['M']
    } else if bytes >= 0x400 {
        decimal(spec_round_half_even_div(bytes as nat, 10)) + seq!['K']
    } else {
        decimal(bytes as nat) + seq!['B']
    }
}

proof fn lemma_large_bytes_text(bytes: u64)
    requires
        bytes >= 1_073_741_824,
    ensures
        exists|i: Seq<char>, d: Seq<char>|
            #![trigger digits_value(i), digits_value(d)]
            {
                let unit: nat = if bytes < 1_099_511_627_776 { 1_073_741_824 } else { 1_099_511_627_776 };
                let t = digits_value(i) * 10 + digits_value(d);
                &&& spec_format_bytes(bytes).drop_last() == i + seq!['.'] + d
                &&& digit_text(i)
                &&& digit_text(d)
                &&& d.len() == 1
                &&& 20 * bytes <= 2 * t * unit + unit
                &&& 2 * t * unit <= 20 * bytes + unit
            },
{
    lemma2_to64();
    lemma2_to64_rest();
    let k: nat = if bytes < 1_099_511_627_776 { 30 } else { 40 };
    let unit: nat = if bytes < 1_099_511_627_776 { 1_073_741_824 } else { 1_099_511_627_776 };
    assert(pow2(k) == unit);
    let r = round_half_even(bytes as nat * 10, unit);
    assert(spec_round_half_even_div(bytes as nat * 10, k) == r);
    let i = decimal(r / 10);
    let d = seq![crate::text::digit_char(r % 10)];
    assert(spec_scaled_bytes(bytes, k as u32) =~= i + seq!['.'] + d);
    assert(spec_format_bytes(bytes).drop_last() =~= spec_scaled_bytes(bytes, k as u32));
    decimal_reads_back(r / 10);
    decimal_reads_back(r % 10);
    assert(decimal((r % 10) as nat) =~= d);
    assert(r == (r / 10) * 10 + r % 10);
    round_half_even_is_nearest(bytes as nat * 10, unit);
    assert(digits_value(i) * 10 + digits_value(d) == r);
}

/// The unit is the largest binary unit the count reaches: T from 2^40
/// bytes, G from 2^30, M from 2^20, K from 2^10, else B. Below K the number
/// is the byte count itself; in K and M it is the count in that unit
/// rounded to the nearest whole, so at least 1.
pub proof fn format_bytes_unit(bytes: u64)
    ensures
        (spec_format_bytes(bytes).last() == 'T') == (bytes >= 1_099_511_627_776),
        (spec_format_bytes(bytes).last() == 'G') == (1_073_741_824 <= bytes < 1_099_511_627_776),
        (spec_format_bytes(bytes).last() == 'M') == (1_048_576 <= bytes < 1_073_741_824),
        (spec_format_bytes(bytes).last() == 'K') == (1024 <= bytes < 1_048_576),
        (spec_format_bytes(bytes).last() == 'B') == (bytes < 1024),
        bytes < 1024 ==> {
            let n = spec_format_bytes(bytes).drop_last();
            digit_text(n) && digits_value(n) == bytes
        },
        bytes >= 1_073_741_824 ==> exists|i: Seq<char>, d: Seq<char>|
            #![trigger digits_value(i), digits_value(d)]
            {
                let unit: nat = if bytes < 1_099_511_627_776 { 1_073_741_824 } else { 1_099_511_627_776 };
                let t = digits_value(i) * 10 + digits_value(d);
                &&& spec_format_bytes(bytes).drop_last() == i + seq!['.'] + d
                &&& digit_text(i)
                &&& digit_text(d)
                &&& d.len() == 1
                &&& 20 * bytes <= 2 * t * unit + unit
                &&& 2 * t * unit <= 20 * bytes + unit
            },
        1024 <= bytes < 1_073_741_824 ==> {
            let n = spec_format_bytes(bytes).drop_last();
            let unit: nat = if bytes < 1_048_576 { 1024 } else { 1_048_576 };
            &&& digit_text(n)
            &&& digits_value(n) >= 1
            &&& 2 * bytes <= 2 * digits_value(n) * unit + unit
            &&& 2 * digits_value(n) * unit <= 2 * bytes + unit
        },
{
    lemma2_to64();
    let f = spec_format_bytes(bytes);
    if bytes >= 0x100_0000_0000 {
        assert(f.last() == 'T');
    } else if bytes >= 0x4000_0000 {
        assert(f.last() == 'G');
    }
    if bytes >= 0x4000_0000 {
        lemma_large_bytes_text(bytes);
    } else if bytes >= 0x10_0000 {
        let r = round_half_even(bytes as nat, pow2(20));
        assert(f == decimal(r) + seq!['M']);
        assert(f.drop_last() =~= decimal(r));
        decimal_reads_back(r);
        round_half_even_is_nearest(bytes as nat, pow2(20));
    } else if bytes >= 0x400 {
        let r = round_half_even(bytes as nat, pow2(10));
        assert(f == decimal(r) + seq!['K']);
        assert(f.drop_last() =~= decimal(r));
        decimal_reads_back(r);
        round_half_even_is_nearest(bytes as nat, pow2(10));
    } else {
        assert(f.drop_last() =~= decimal(bytes as nat));
        decimal_reads_back(bytes as nat);
    }
}

/// Format bytes into human-readable string
pub fn format_bytes(bytes: u64) -> (s: String)
    ensures
        s@ == spec_format_bytes(bytes),
{
    proof {
        reveal_strlit("T");
        reveal_strlit("G");
        reveal_strlit("M");
        reveal_strlit("K");
        reveal_strlit("B");
    }
    let mut s = String::new();
    if bytes >= 0x100_0000_0000 {
        scaled_bytes_into(&mut s, bytes, 40);
        s.append("T");
    } else if bytes >= 0x4000_0000 {
        scaled_bytes_into(&mut s, bytes, 30);
        s.append("G");
    } else if bytes >= 0x10_0000 {
        s = scaled_bytes_round0(bytes, 20);
        s.append("M");
    } else if bytes >= 0x400 {
        s = scaled_bytes_round0(bytes, 10);
        s.append("K");
    } else {
        push_decimal(&mut s, bytes as u128);
        s.append("B");
    }
    assert(s@ =~= spec_format_bytes(bytes));
    s
}

// ============================================================================
// Memory breakdown
// ============================================================================

/// The page size assumed when the performance query fails.
pub const DEFAULT_PAGE_SIZE: u64 = 4096;

/// The system's page lists, in pages.
pub struct MemoryLists {
    pub free_pages: u64,
    pub modified_pages: u64,
    /// The standby lists, one count per priority.
    pub standby_pages: Vec<u64>,
}

/// The memory figures the header shows, in bytes.
#[derive(Debug, Clone, Copy, PartialEq, Eq, Structural)]
pub struct MemoryTotals {
    pub total: u64,
    /// What applications use, without cache and buffers.
    pub used: u64,
    pub shared: u64,
    pub buffers: u64,
    pub cached: u64,
    pub swap_total: u64,
    pub swap_used: u64,
}

/// `a - b`, or 0 below zero.
pub open spec fn sat_sub(a: int, b: int) -> int {
    if a >= b { a - b } else { 0 }
}

/// The sum of a sequence of counts.
pub open spec fn sum_counts(s: Seq<u64>) -> nat
    decreases s.len(),
{
    if s.len() == 0 { 0 } else { sum_counts(s.drop_last()) + (s.last() as nat) }
}

/// Page size and file-cache bytes from the performance query (page size and
/// cache pages), or the default page size and no cache without it.
pub open spec fn spec_page_info(perf: Option<(u64, u64)>) -> (u64, int) {
    match perf {
        Some((page_size, cache_pages)) => (page_size, cache_pages * page_size),
        None => (DEFAULT_PAGE_SIZE, 0),
    }
}

/// The memory figures in the manner of htop. With the page lists: cache is
/// the standby lists, buffers a share of the file cache of at most a tenth
/// of what is in use (total less free and standby), used the rest of it,
/// and shared the modified pages up to a twentieth of used. Without them:
/// in use is total less available, cache four fifths of what is available,
/// no shared. Swap is the commit limit beyond physical memory.
pub open spec fn spec_memory_totals(
    total: u64,
    available: u64,
    total_page_file: u64,
    available_page_file: u64,
    perf: Option<(u64, u64)>,
    lists: Option<(u64, u64, Seq<u64>)>,
) -> MemoryTotals {
    let (page_size, system_cache) = spec_page_info(perf);
    let swap_total = sat_sub(total_page_file as int, total as int);
    let swap_available = sat_sub(available_page_file as int, available as int);
    let swap_used = sat_sub(swap_total, swap_available);
    match lists {
        Some((free_pages, modified_pages, standby)) => {
            let standby_bytes = sum_counts(standby) * page_size;
            let in_use = sat_sub(total as int, free_pages * page_size + standby_bytes);
            let buffers = if system_cache <= in_use / 10 { system_cache } else { in_use / 10 };
            let used = sat_sub(in_use, buffers);
            let modified = modified_pages * page_size;
            MemoryTotals {
                total,
                used: used as u64,
                shared: (if modified <= used / 20 { modified } else { used / 20 }) as u64,
                buffers: buffers as u64,
                cached: standby_bytes as u64,
                swap_total: swap_total as u64,
                swap_used: swap_used as u64,
            }
        },
        None => {
            let in_use = sat_sub(total as int, available as int);
            let buffers = if system_cache <= in_use / 10 { system_cache } else { in_use / 10 };
            MemoryTotals {
                total,
                used: sat_sub(in_use, buffers) as u64,
                shared: 0,
                buffers: buffers as u64,
                cached: (available * 4 / 5) as u64,
                swap_total: swap_total as u64,
                swap_used: swap_used as u64,
            }
        },
    }
}

/// The page lists' counts as plain values.
pub open spec fn lists_view(lists: Option<&MemoryLists>) -> Option<(u64, u64, Seq<u64>)> {
    match lists {
        Some(l) => Some((l.free_pages, l.modified_pages, l.standby_pages@)),
        None => None,
    }
}

/// Everything the arithmetic needs to stay within `u64`: the cache bytes,
/// the standby sum, the free and standby bytes, and four fifths of what is
/// available.
pub open spec fn memory_fits(available: u64, perf: Option<(u64, u64)>, lists: Option<(u64, u64, Seq<u64>)>) -> bool {
    let page_size = spec_page_info(perf).0;
    &&& spec_page_info(perf).1 <= u64::MAX
    &&& available * 4 <= u64::MAX
    &&& match lists {
        Some((free_pages, modified_pages, standby)) => {
            &&& sum_counts(standby) <= u64::MAX
            &&& sum_counts(standby) * page_size <= u64::MAX
            &&& free_pages * page_size <= u64::MAX
            &&& modified_pages * page_size <= u64::MAX
            &&& free_pages * page_size + sum_counts(standby) * page_size <= u64::MAX
        },
        None => true,
    }
}

proof fn lemma_sum_counts_prefix(s: Seq<u64>, i: int)
    requires
        0 <= i <= s.len(),
    ensures
        sum_counts(s.subrange(0, i)) <= sum_counts(s),
    decreases s.len() - i,
{
    if i < s.len() {
        lemma_sum_counts_prefix(s, i + 1);
        assert(s.subrange(0, i + 1).drop_last() =~= s.subrange(0, i));
    } else {
        assert(s.subrange(0, i) =~= s);
    }
}

/// The memory figures from the physical and commit totals
/// (`GlobalMemoryStatusEx`), the page size and cache pages
/// (`GetPerformanceInfo`, when it answered) and the page lists (when the
/// system reported them).
pub fn memory_totals(
    total: u64,
    available: u64,
    total_page_file: u64,
    available_page_file: u64,
    perf: Option<(u64, u64)>,
    lists: Option<&MemoryLists>,
) -> (m: MemoryTotals)
    requires
        memory_fits(available, perf, lists_view(lists)),
    ensures
        m == spec_memory_totals(total, available, total_page_file, available_page_file, perf, lists_view(lists)),
{
    let (page_size, system_cache) = match perf {
        Some((size, pages)) => (size, pages * size),
        None => (DEFAULT_PAGE_SIZE, 0),
    };
    let swap_total = total_page_file.saturating_sub(total);
    let swap_available = available_page_file.saturating_sub(available);
    let swap_used = swap_total.saturating_sub(swap_available);
    match lists {
        Some(l) => {
            let mut standby_pages: u64 = 0;
            let mut i: usize = 0;
            assert(l.standby_pages@.subrange(0, 0) =~= Seq::<u64>::empty());
            while i < l.standby_pages.len()
                invariant
                    0 <= i <= l.standby_pages@.len(),
                    standby_pages == sum_counts(l.standby_pages@.subrange(0, i as int)),
                    sum_counts(l.standby_pages@) <= u64::MAX,
                decreases l.standby_pages.len() - i,
            {
                assert(l.standby_pages@.subrange(0, i + 1).drop_last() =~= l.standby_pages@.subrange(0, i as int));
                proof {
                    lemma_sum_counts_prefix(l.standby_pages@, i + 1);
                }
                standby_pages = standby_pages + l.standby_pages[i];
                i = i + 1;
            }
            assert(l.standby_pages@.subrange(0, l.standby_pages@.len() as int) =~= l.standby_pages@);
            let standby = standby_pages * page_size;
            let modified = l.modified_pages * page_size;
            let free = l.free_pages * page_size;
            let in_use = total.saturating_sub(free + standby);
            let buffers = if system_cache <= in_use / 10 { system_cache } else { in_use / 10 };
            let used = in_use.saturating_sub(buffers);
            let shared = if modified <= used / 20 { modified } else { used / 20 };
            MemoryTotals { total, used, shared, buffers, cached: standby, swap_total, swap_used }
        },
        None => {
            let in_use = total.saturating_sub(available);
            let estimated_standby = available * 4 / 5;
            let buffers = if system_cache <= in_use / 10 { system_cache } else { in_use / 10 };
            let used = in_use.saturating_sub(buffers);
            MemoryTotals { total, used, shared: 0, buffers, cached: estimated_standby, swap_total, swap_used }
        },
    }
}

/// The memory applications hold, as the usage percentage counts it: used,
/// buffers and shared.
pub fn used_with_buffers(m: &MemoryTotals) -> (r: u64)
    requires
        m.used + m.buffers + m.shared <= u64::MAX,
    ensures
        r == m.used + m.buffers + m.shared,
{
    m.used + m.buffers + m.shared
}

} // verus!
