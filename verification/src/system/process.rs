//! Per-process facts beyond the kernel's process snapshot: architecture,
//! CPU time display, and which facts an enrichment pass has to query given
//! what the caches already hold, and how its results are merged.

use vstd::prelude::*;
use vstd::string::StringExecFns;
use std::time::Duration;
use crate::bench::zero_duration;
use crate::event_wait::{duration_as_nanos, duration_nanos};
use crate::text::{decimal, push_decimal, string_of, char_value, digit_text, digits_value, decimal_reads_back};
use crate::system::native::{filetime_to_unix, spec_filetime_to_unix};

verus! {

// ============================================================================
// Architecture
// ============================================================================

/// Process architecture
#[derive(Clone, Copy, Debug, PartialEq, Eq, Structural)]
pub enum ProcessArch {
    /// Native architecture (matches OS)
    Native,
    /// 32-bit x86 (WoW64 on x64/ARM64)
    X86,
    /// x64 running on ARM64 via emulation
    X64,
    /// Native ARM64
    ARM64,
}

impl Default for ProcessArch {
    fn default() -> (r: ProcessArch)
        ensures
            r == ProcessArch::Native,
    {
        ProcessArch::Native
    }
}

impl ProcessArch {
    /// The short label shown for each architecture.
    pub open spec fn label(self) -> Seq<char> {
        match self {
            ProcessArch::Native => ""@,
            ProcessArch::X86 => "x86"@,
            ProcessArch::X64 => "x64"@,
            ProcessArch::ARM64 => "ARM"@,
        }
    }

    /// Short display string for the architecture
    pub fn as_str(&self) -> (s: &'static str)
        ensures
            s@ == self.label(),
    {
        match self {
            ProcessArch::Native => "",
            ProcessArch::X86 => "x86",
            ProcessArch::X64 => "x64",
            ProcessArch::ARM64 => "ARM",
        }
    }
}

/// `IMAGE_FILE_MACHINE_I386`.
pub const MACHINE_I386: u16 = 0x014c;

/// `IMAGE_FILE_MACHINE_AMD64`.
pub const MACHINE_AMD64: u16 = 0x8664;

/// `IMAGE_FILE_MACHINE_ARM64`.
pub const MACHINE_ARM64: u16 = 0xAA64;

/// The architecture a process runs as, from the process machine that
/// `IsWow64Process2` reports (0 when the process is not emulated).
pub fn arch_from_machine(process_machine: u16) -> (a: ProcessArch)
    ensures
        a == (if process_machine == MACHINE_I386 {
            ProcessArch::X86
        } else if process_machine == MACHINE_AMD64 {
            ProcessArch::X64
        } else if process_machine == MACHINE_ARM64 {
            ProcessArch::ARM64
        } else {
            ProcessArch::Native
        }),
{
    if process_machine == 0 {
        ProcessArch::Native
    } else if process_machine == MACHINE_I386 {
        ProcessArch::X86
    } else if process_machine == MACHINE_AMD64 {
        ProcessArch::X64
    } else if process_machine == MACHINE_ARM64 {
        ProcessArch::ARM64
    } else {
        ProcessArch::Native
    }
}

/// `PROCESS_POWER_THROTTLING_EXECUTION_SPEED`.
pub const THROTTLE_EXECUTION_SPEED: u32 = 0x1;

/// A process is in efficiency mode when the power-throttling query
/// succeeded and execution-speed throttling is both controlled and on.
pub fn efficiency_from_throttling(query_ok: bool, state_mask: u32, control_mask: u32) -> (r: bool)
    ensures
        r == (query_ok && state_mask & THROTTLE_EXECUTION_SPEED != 0 && control_mask & THROTTLE_EXECUTION_SPEED
            != 0),
{
    query_ok && (state_mask & THROTTLE_EXECUTION_SPEED) != 0 && (control_mask & THROTTLE_EXECUTION_SPEED) != 0
}

// ============================================================================
// CPU time display
// ============================================================================

/// `n` in decimal, padded with a leading zero to at least two digits.
pub open spec fn two_digits(n: nat) -> Seq<char> {
    if n < 10 {
        seq!['0'] + decimal(n)
    } else {
        decimal(n)
    }
}

/// CPU time as `HH:MM:SS` from an hour on, else as `MM:SS.cc` (hundredths).
pub open spec fn cpu_time_text(nanos: nat) -> Seq<char> {
    let secs = nanos / 1_000_000_000;
    let hours = secs / 3600;
    let mins = (secs % 3600) / 60;
    let s = secs % 60;
    let centis = ((nanos % 1_000_000_000) / 1_000_000) / 10;
    if hours > 0 {
        two_digits(hours) + seq![':'] + two_digits(mins) + seq![':'] + two_digits(s)
    } else {
        two_digits(mins) + seq![':'] + two_digits(s) + seq!['.'] + two_digits(centis)
    }
}

proof fn lemma_two_digits(n: nat)
    requires
        n < 100,
    ensures
        digit_text(two_digits(n)),
        two_digits(n).len() == 2,
        digits_value(two_digits(n)) == n,
{
    decimal_reads_back(n);
    if n < 10 {
        let t = two_digits(n);
        assert(t.drop_last() =~= seq!['0']);
        assert(seq!['0'].drop_last() =~= Seq::<char>::empty());
        assert(seq!['0'].last() == '0');
        assert(digits_value(Seq::<char>::empty()) == 0);
        assert(digits_value(seq!['0']) == digits_value(seq!['0'].drop_last()) * 10 + char_value(seq!['0'].last()));
        assert(digits_value(seq!['0']) == 0);
        assert(t.last() == decimal(n)[0]);
        assert(digits_value(decimal(n)) == digits_value(decimal(n).drop_last()) * 10 + char_value(decimal(n).last()));
        assert(decimal(n).drop_last() =~= Seq::<char>::empty());
        assert forall|i: int| 0 <= i < t.len() implies '0' <= #[trigger] t[i] && t[i] <= '9' by {
            if i == 1 {
                assert(t[1] == decimal(n)[0]);
            }
        }
    }
}

proof fn lemma_hour_digits(n: nat)
    ensures
        digit_text(two_digits(n)),
        digits_value(two_digits(n)) == n,
{
    decimal_reads_back(n);
    if n < 10 {
        lemma_two_digits(n);
    }
}

/// The CPU-time text reads back as the time it shows: from an hour on as
/// `h:mm:ss` with `h * 3600 + mm * 60 + ss` the whole seconds, below an
/// hour as `mm:ss.cc` with `mm * 60 + ss` the whole seconds and `cc` the
/// hundredths of the second begun.
pub proof fn cpu_time_text_reads_back(nanos: nat)
    ensures
        nanos >= 3_600_000_000_000 ==> exists|h: Seq<char>, m: Seq<char>, sec: Seq<char>|
            #![trigger digits_value(h), digits_value(m), digits_value(sec)]
            cpu_time_text(nanos) == h + seq![':'] + m + seq![':'] + sec && digit_text(h) && digit_text(m) && digit_text(sec)
                && m.len() == 2 && sec.len() == 2 && digits_value(m) < 60 && digits_value(sec) < 60 && digits_value(h) * 3600
                + digits_value(m) * 60 + digits_value(sec) == nanos / 1_000_000_000,
        nanos < 3_600_000_000_000 ==> exists|m: Seq<char>, sec: Seq<char>, c: Seq<char>|
            #![trigger digits_value(m), digits_value(sec), digits_value(c)]
            cpu_time_text(nanos) == m + seq![':'] + sec + seq!['.'] + c && digit_text(m) && digit_text(sec) && digit_text(c)
                && m.len() == 2 && sec.len() == 2 && c.len() == 2 && digits_value(sec) < 60 && digits_value(m) * 60
                + digits_value(sec) == nanos / 1_000_000_000 && digits_value(c) * 10_000_000 <= nanos % 1_000_000_000 < (
            digits_value(c) + 1) * 10_000_000,
{
    let secs = nanos / 1_000_000_000;
    let hours = secs / 3600;
    let mins = (secs % 3600) / 60;
    let s = secs % 60;
    let rest = nanos % 1_000_000_000;
    let centis = (rest / 1_000_000) / 10;
    assert(mins < 60 && s < 60);
    assert(secs == hours * 3600 + mins * 60 + s);
    lemma_two_digits(mins);
    lemma_two_digits(s);
    if nanos >= 3_600_000_000_000 {
        assert(hours > 0);
        lemma_hour_digits(hours);
        let h = two_digits(hours);
        let m = two_digits(mins);
        let sc = two_digits(s);
        assert(cpu_time_text(nanos) == h + seq![':'] + m + seq![':'] + sc);
        assert(digits_value(h) * 3600 + digits_value(m) * 60 + digits_value(sc) == nanos / 1_000_000_000);
    } else {
        assert(hours == 0);
        assert(centis == rest / 10_000_000) by (nonlinear_arith)
            requires
                centis == (rest / 1_000_000) / 10,
        ;
        assert(centis * 10_000_000 <= rest < (centis + 1) * 10_000_000) by (nonlinear_arith)
            requires
                centis == rest / 10_000_000,
        ;
        assert(centis < 100) by (nonlinear_arith)
            requires
                centis == rest / 10_000_000,
                rest < 1_000_000_000,
        ;
        lemma_two_digits(centis);
        let m = two_digits(mins);
        let sc = two_digits(s);
        let c = two_digits(centis);
        assert(cpu_time_text(nanos) == m + seq![':'] + sc + seq!['.'] + c);
        assert(digits_value(m) * 60 + digits_value(sc) == nanos / 1_000_000_000);
        assert(digits_value(c) * 10_000_000 <= nanos % 1_000_000_000 < (digits_value(c) + 1) * 10_000_000);
    }
}

fn push_two_digits(out: &mut String, n: u128)
    ensures
        final(out)@ == old(out)@ + two_digits(n as nat),
{
    if n < 10 {
        proof {
            reveal_strlit("0");
        }
        out.append("0");
    }
    push_decimal(out, n);
    assert(out@ =~= old(out)@ + two_digits(n as nat));
}

/// Format CPU time as HH:MM:SS or MM:SS.ms
pub fn format_cpu_time(cpu_time: Duration) -> (s: String)
    ensures
        s@ == cpu_time_text(duration_nanos(cpu_time) as nat),
{
    let nanos = duration_as_nanos(cpu_time);
    let secs = nanos / 1_000_000_000;
    let hours = secs / 3600;
    let mins = (secs % 3600) / 60;
    let sec = secs % 60;
    let centis = ((nanos % 1_000_000_000) / 1_000_000) / 10;
    let mut out = String::new();
    proof {
        reveal_strlit(":");
        reveal_strlit(".");
    }
    if hours > 0 {
        push_two_digits(&mut out, hours);
        out.append(":");
        push_two_digits(&mut out, mins);
        out.append(":");
        push_two_digits(&mut out, sec);
    } else {
        push_two_digits(&mut out, mins);
        out.append(":");
        push_two_digits(&mut out, sec);
        out.append(".");
        push_two_digits(&mut out, centis);
    }
    assert(out@ =~= cpu_time_text(nanos as nat));
    out
}

// ============================================================================
// Enrichment: what to query, and what to keep
// ============================================================================

/// How long a cached efficiency-mode verdict is trusted, in milliseconds.
pub const EFFICIENCY_CACHE_TTL_MS: u128 = 30000;

/// What the caches hold for a process before it is enriched.
pub struct CachedFacts {
    /// Elevation, architecture and executable path, which never change for a pid.
    pub static_info: Option<(bool, ProcessArch, String)>,
    /// The account the process runs as.
    pub user: Option<String>,
    /// The cached efficiency-mode verdict and its age in milliseconds.
    pub efficiency: Option<(bool, u128)>,
}

/// [`CachedFacts`] with its strings as character sequences.
pub struct CachedView {
    pub static_info: Option<(bool, ProcessArch, Seq<char>)>,
    pub user: Option<Seq<char>>,
    pub efficiency: Option<(bool, u128)>,
}

impl View for CachedFacts {
    type V = CachedView;

    open spec fn view(&self) -> CachedView {
        CachedView {
            static_info: match self.static_info {
                Some((e, a, p)) => Some((e, a, p@)),
                None => None,
            },
            user: match self.user {
                Some(u) => Some(u@),
                None => None,
            },
            efficiency: self.efficiency,
        }
    }
}

/// The cached efficiency-mode verdict is young enough to be used.
pub open spec fn efficiency_fresh(cached: CachedView) -> bool {
    match cached.efficiency {
        Some((_, age)) => age < EFFICIENCY_CACHE_TTL_MS,
        None => false,
    }
}

/// Which facts an enrichment pass has to ask Windows for.
#[derive(Clone, Copy, Debug, PartialEq, Eq, Structural)]
pub struct QueryPlan {
    pub need_static: bool,
    pub need_user: bool,
    pub need_efficiency: bool,
    pub need_exe_path: bool,
}

/// The plan for a process with `cached` facts: query whatever is not cached
/// (or, for the efficiency mode, no longer fresh), and the executable path
/// only when paths are shown and none is cached yet.
pub open spec fn spec_plan(cached: CachedView, fetch_exe_path: bool) -> QueryPlan {
    QueryPlan {
        need_static: cached.static_info is None,
        need_user: cached.user is None,
        need_efficiency: !efficiency_fresh(cached),
        need_exe_path: fetch_exe_path && match cached.static_info {
            Some((_, _, path)) => path.len() == 0,
            None => true,
        },
    }
}

impl QueryPlan {
    pub open spec fn spec_needs_handle(self) -> bool {
        self.need_static || self.need_user || self.need_efficiency || self.need_exe_path
    }

    /// Whether the process has to be opened at all.
    pub fn needs_handle(&self) -> (r: bool)
        ensures
            r == self.spec_needs_handle(),
    {
        self.need_static || self.need_user || self.need_efficiency || self.need_exe_path
    }
}

/// What to query for a process, given what the caches hold.
pub fn plan_enrichment(cached: &CachedFacts, fetch_exe_path: bool) -> (p: QueryPlan)
    ensures
        p == spec_plan(cached@, fetch_exe_path),
{
    let need_exe_path = fetch_exe_path && match &cached.static_info {
        Some((_, _, path)) => path.as_str().is_empty(),
        None => true,
    };
    QueryPlan {
        need_static: cached.static_info.is_none(),
        need_user: cached.user.is_none(),
        need_efficiency: match cached.efficiency {
            Some((_, age)) => !(age < EFFICIENCY_CACHE_TTL_MS),
            None => true,
        },
        need_exe_path,
    }
}

/// What the queries through an open process handle returned. Only the
/// facts the plan asked for are read.
pub struct HandleResults {
    /// CPU time, start time and shared memory, always queried.
    pub times: (Duration, u64, u64),
    pub exe_path: String,
    pub efficiency_mode: bool,
    pub elevated: bool,
    pub arch: ProcessArch,
    /// The account, when the token could be read.
    pub user: Option<String>,
}

/// [`HandleResults`] with its strings as character sequences and durations
/// in nanoseconds.
pub struct HandleView {
    pub times: (u128, u64, u64),
    pub exe_path: Seq<char>,
    pub efficiency_mode: bool,
    pub elevated: bool,
    pub arch: ProcessArch,
    pub user: Option<Seq<char>>,
}

impl View for HandleResults {
    type V = HandleView;

    open spec fn view(&self) -> HandleView {
        HandleView {
            times: (duration_nanos(self.times.0), self.times.1, self.times.2),
            exe_path: self.exe_path@,
            efficiency_mode: self.efficiency_mode,
            elevated: self.elevated,
            arch: self.arch,
            user: match self.user {
                Some(u) => Some(u@),
                None => None,
            },
        }
    }
}

/// The enriched facts of one process.
pub struct EnrichedFacts {
    pub cpu_time: Duration,
    pub start_time: u64,
    pub shared_mem: u64,
    pub efficiency_mode: bool,
    pub is_elevated: bool,
    pub arch: ProcessArch,
    pub user: Option<String>,
    pub exe_path: String,
}

/// [`EnrichedFacts`] with its strings as character sequences and the CPU
/// time in nanoseconds.
pub struct FactsView {
    pub cpu_nanos: u128,
    pub start_time: u64,
    pub shared_mem: u64,
    pub efficiency_mode: bool,
    pub is_elevated: bool,
    pub arch: ProcessArch,
    pub user: Option<Seq<char>>,
    pub exe_path: Seq<char>,
}

impl View for EnrichedFacts {
    type V = FactsView;

    open spec fn view(&self) -> FactsView {
        FactsView {
            cpu_nanos: duration_nanos(self.cpu_time),
            start_time: self.start_time,
            shared_mem: self.shared_mem,
            efficiency_mode: self.efficiency_mode,
            is_elevated: self.is_elevated,
            arch: self.arch,
            user: match self.user {
                Some(u) => Some(u@),
                None => None,
            },
            exe_path: self.exe_path@,
        }
    }
}

/// The kernel's own processes (the idle process and System) are never opened.
pub open spec fn is_kernel_process(pid: u32) -> bool {
    pid == 0 || pid == 4
}

/// The facts of process `pid` after enrichment, given what the caches held
/// and what the queries through its handle returned (`None` when it was not
/// opened). The kernel's own processes run as SYSTEM, with only System
/// elevated. A process that needed querying but could not be opened keeps
/// what the caches hold. Otherwise cached facts are kept and the rest comes
/// from the queries; nothing is measured without a handle.
pub open spec fn spec_enrich(
    pid: u32,
    cached: CachedView,
    fetch_exe_path: bool,
    queried: Option<HandleView>,
) -> FactsView {
    if is_kernel_process(pid) {
        FactsView {
            cpu_nanos: 0,
            start_time: 0,
            shared_mem: 0,
            efficiency_mode: false,
            is_elevated: pid == 4,
            arch: ProcessArch::Native,
            user: Some("SYSTEM"@),
            exe_path: Seq::empty(),
        }
    } else if spec_plan(cached, fetch_exe_path).spec_needs_handle() && queried is None {
        FactsView {
            cpu_nanos: 0,
            start_time: 0,
            shared_mem: 0,
            efficiency_mode: match cached.efficiency {
                Some((mode, _)) => mode,
                None => false,
            },
            is_elevated: match cached.static_info {
                Some((e, _, _)) => e,
                None => false,
            },
            arch: match cached.static_info {
                Some((_, a, _)) => a,
                None => ProcessArch::Native,
            },
            user: cached.user,
            exe_path: match cached.static_info {
                Some((_, _, p)) => p,
                None => Seq::empty(),
            },
        }
    } else {
        FactsView {
            cpu_nanos: match queried {
                Some(q) => q.times.0,
                None => 0,
            },
            start_time: match queried {
                Some(q) => q.times.1,
                None => 0,
            },
            shared_mem: match queried {
                Some(q) => q.times.2,
                None => 0,
            },
            efficiency_mode: if efficiency_fresh(cached) {
                cached.efficiency.unwrap().0
            } else {
                match queried {
                    Some(q) => q.efficiency_mode,
                    None => false,
                }
            },
            is_elevated: match cached.static_info {
                Some((e, _, _)) => e,
                None => match queried {
                    Some(q) => q.elevated,
                    None => false,
                },
            },
            arch: match cached.static_info {
                Some((_, a, _)) => a,
                None => match queried {
                    Some(q) => q.arch,
                    None => ProcessArch::Native,
                },
            },
            user: match cached.user {
                Some(u) => Some(u),
                None => match queried {
                    Some(q) => q.user,
                    None => None,
                },
            },
            exe_path: if !fetch_exe_path {
                Seq::empty()
            } else {
                match cached.static_info {
                    Some((_, _, p)) if p.len() > 0 => p,
                    _ => match queried {
                        Some(q) => q.exe_path,
                        None => Seq::empty(),
                    },
                }
            },
        }
    }
}

/// Enrich one process: `cached` is what the caches held, `queried` what the
/// queries through its handle returned, `None` when it was not opened
/// (because nothing needed querying, or opening failed).
pub fn enrich_facts(
    pid: u32,
    cached: CachedFacts,
    fetch_exe_path: bool,
    queried: Option<HandleResults>,
) -> (f: EnrichedFacts)
    ensures
        f@ == spec_enrich(pid, cached@, fetch_exe_path, match queried {
            Some(q) => Some(q@),
            None => None,
        }),
{
    if pid == 0 || pid == 4 {
        proof {
            reveal_strlit("SYSTEM");
        }
        return EnrichedFacts {
            cpu_time: zero_duration(),
            start_time: 0,
            shared_mem: 0,
            efficiency_mode: false,
            is_elevated: pid == 4,
            arch: ProcessArch::Native,
            user: Some(String::from_str("SYSTEM")),
            exe_path: String::new(),
        };
    }
    let plan = plan_enrichment(&cached, fetch_exe_path);
    let fresh = match cached.efficiency {
        Some((_, age)) => age < EFFICIENCY_CACHE_TTL_MS,
        None => false,
    };
    let cached_mode = match cached.efficiency {
        Some((mode, _)) => mode,
        None => false,
    };
    match queried {
        None => {
            let (is_elevated, arch, exe_path) = match cached.static_info {
                Some((e, a, p)) => (e, a, p),
                None => (false, ProcessArch::Native, String::new()),
            };
            let exe_path = if plan.needs_handle() || fetch_exe_path {
                exe_path
            } else {
                String::new()
            };
            EnrichedFacts {
                cpu_time: zero_duration(),
                start_time: 0,
                shared_mem: 0,
                efficiency_mode: if plan.needs_handle() || fresh { cached_mode } else { false },
                is_elevated,
                arch,
                user: cached.user,
                exe_path,
            }
        },
        Some(q) => {
            let (cpu_time, start_time, shared_mem) = q.times;
            let efficiency_mode = if fresh { cached_mode } else { q.efficiency_mode };
            let (is_elevated, arch, cached_path) = match cached.static_info {
                Some((e, a, p)) => (e, a, Some(p)),
                None => (q.elevated, q.arch, None),
            };
            let exe_path = if !fetch_exe_path {
                String::new()
            } else {
                match cached_path {
                    Some(p) => if p.as_str().is_empty() { q.exe_path } else { p },
                    None => q.exe_path,
                }
            };
            let user = match cached.user {
                Some(u) => Some(u),
                None => q.user,
            };
            EnrichedFacts { cpu_time, start_time, shared_mem, efficiency_mode, is_elevated, arch, user, exe_path }
        },
    }
}

/// The lowercase form of a text, as `str::to_lowercase` gives it (full
/// Unicode case mapping, the same on every machine).
pub uninterp spec fn lowercase_of(s: Seq<char>) -> Seq<char>;

/// `str::to_lowercase`; its result is named by [`lowercase_of`].
#[verifier::external_body]
fn to_lowercase(s: &str) -> (r: String)
    ensures
        r@ == lowercase_of(s@),
{
    s.to_lowercase()
}

/// The fields of a process row that enrichment fills in, with the
/// lowercase copies that filtering and search read.
pub struct ProcessFacts {
    pub cpu_time: Duration,
    pub start_time: u64,
    pub shared_mem: u64,
    pub efficiency_mode: bool,
    pub is_elevated: bool,
    pub arch: ProcessArch,
    pub user: String,
    pub user_lower: String,
    pub exe_path: String,
    pub command: String,
    pub command_lower: String,
}

/// Merge enrichment results into a process row. Measurements the snapshot
/// already had are kept when the enrichment has none (a process that could
/// not be opened reports zeros), and so are the account and the command
/// line when no account or path was found.
pub fn merge_facts(row: &mut ProcessFacts, data: &EnrichedFacts)
    ensures
        final(row).cpu_time == if duration_nanos(data.cpu_time) != 0 {
            data.cpu_time
        } else {
            old(row).cpu_time
        },
        final(row).start_time == if data.start_time != 0 { data.start_time } else { old(row).start_time },
        final(row).shared_mem == if data.shared_mem != 0 { data.shared_mem } else { old(row).shared_mem },
        final(row).efficiency_mode == data.efficiency_mode,
        final(row).is_elevated == data.is_elevated,
        final(row).arch == data.arch,
        match data.user {
            Some(u) => final(row).user@ == u@ && final(row).user_lower@ == lowercase_of(u@),
            None => final(row).user@ == old(row).user@ && final(row).user_lower@ == old(row).user_lower@,
        },
        if data.exe_path@.len() > 0 {
            &&& final(row).exe_path@ == data.exe_path@
            &&& final(row).command@ == data.exe_path@
            &&& final(row).command_lower@ == lowercase_of(data.exe_path@)
        } else {
            &&& final(row).exe_path@ == old(row).exe_path@
            &&& final(row).command@ == old(row).command@
            &&& final(row).command_lower@ == old(row).command_lower@
        },
{
    if duration_as_nanos(data.cpu_time) != 0 {
        row.cpu_time = data.cpu_time;
    }
    if data.start_time != 0 {
        row.start_time = data.start_time;
    }
    if data.shared_mem != 0 {
        row.shared_mem = data.shared_mem;
    }
    row.efficiency_mode = data.efficiency_mode;
    row.is_elevated = data.is_elevated;
    row.arch = data.arch;
    match &data.user {
        Some(user) => {
            row.user = user.clone();
            row.user_lower = to_lowercase(user.as_str());
        },
        None => {},
    }
    if !data.exe_path.as_str().is_empty() {
        row.exe_path = data.exe_path.clone();
        row.command = data.exe_path.clone();
        row.command_lower = to_lowercase(data.exe_path.as_str());
    }
}

// ============================================================================
// Rows from the kernel snapshot
// ============================================================================

/// The integer fields of one kernel process entry that a row is built from.
#[derive(Debug, Clone, Copy, PartialEq, Eq, Structural)]
pub struct NativeCounters {
    pub pid: u32,
    pub parent_pid: u32,
    pub base_priority: i32,
    pub thread_count: u32,
    pub handle_count: u32,
    pub working_set: u64,
    pub private_bytes: u64,
    pub virtual_size: u64,
    /// Kernel and user CPU time, in 100 ns units.
    pub kernel_time: u64,
    pub user_time: u64,
    /// FILETIME of the process start.
    pub create_time: u64,
    pub read_bytes: u64,
    pub write_bytes: u64,
}

/// The non-float part of a process row built from a kernel entry and the
/// caches (CPU and memory percentages are computed beside it).
pub struct NativeRow {
    pub pid: u32,
    pub parent_pid: u32,
    pub priority: i32,
    pub user: String,
    pub user_lower: String,
    pub name: String,
    pub name_lower: String,
    pub exe_path: String,
    pub command: String,
    pub command_lower: String,
    pub cpu_time: Duration,
    /// Unix seconds of the process start.
    pub start_time: u64,
    pub virtual_mem: u64,
    pub resident_mem: u64,
    pub shared_mem: u64,
    pub thread_count: u32,
    pub handle_count: u32,
    pub io_read_bytes: u64,
    pub io_write_bytes: u64,
}

/// The priority column for a kernel base priority.
pub open spec fn priority_band(base_priority: i32) -> i32 {
    if 0 <= base_priority <= 4 {
        0
    } else if 5 <= base_priority <= 8 {
        5
    } else if 9 <= base_priority <= 12 {
        20
    } else if 13 <= base_priority <= 15 {
        30
    } else {
        39
    }
}

/// The account shown before the owner has been looked up.
pub open spec fn default_user(pid: u32) -> Seq<char> {
    if pid == 0 || pid == 4 {
        "SYSTEM"@
    } else {
        "-"@
    }
}

/// `Duration::new`: `secs` seconds and `nanos` nanoseconds, which for
/// `nanos` below one second involves no carry.
#[verifier::external_body]
fn duration_new(secs: u64, nanos: u32) -> (r: Duration)
    requires
        nanos < 1_000_000_000,
    ensures
        duration_nanos(r) == secs as nat * 1_000_000_000 + nanos as nat,
{
    Duration::new(secs, nanos)
}

/// CPU time from kernel plus user time in 100 ns units.
fn cpu_time_of(total_100ns: u64) -> (d: Duration)
    ensures
        duration_nanos(d) == total_100ns as nat * 100,
{
    let secs = total_100ns / 10_000_000;
    let rest = total_100ns % 10_000_000;
    assert(secs as nat * 1_000_000_000 + rest as nat * 100 == total_100ns as nat * 100) by (nonlinear_arith)
        requires
            secs == total_100ns / 10_000_000,
            rest == total_100ns % 10_000_000,
    {}
    duration_new(secs, (rest * 100) as u32)
}

/// Builds the row for one kernel entry. The owner comes from the cache
/// when it is there, else a placeholder; the command line is the cached
/// executable path when one is known, else the image name.
pub fn native_row(counters: &NativeCounters, name: &str, cached_user: Option<&str>, cached_exe_path: &str) -> (row: NativeRow)
    requires
        counters.kernel_time + counters.user_time <= u64::MAX,
    ensures
        row.pid == counters.pid,
        row.parent_pid == counters.parent_pid,
        row.priority == priority_band(counters.base_priority),
        row.user@ == match cached_user {
            Some(u) => u@,
            None => default_user(counters.pid),
        },
        row.user_lower@ == lowercase_of(row.user@),
        row.name@ == name@,
        row.name_lower@ == lowercase_of(name@),
        cached_exe_path@.len() > 0 ==> row.exe_path@ == cached_exe_path@ && row.command@ == cached_exe_path@,
        cached_exe_path@.len() == 0 ==> row.exe_path@ == Seq::<char>::empty() && row.command@ == name@,
        row.command_lower@ == lowercase_of(row.command@),
        duration_nanos(row.cpu_time) == (counters.kernel_time + counters.user_time) * 100,
        row.start_time == spec_filetime_to_unix(counters.create_time),
        row.virtual_mem == counters.virtual_size,
        row.resident_mem == counters.working_set,
        row.shared_mem == if counters.working_set >= counters.private_bytes {
            counters.working_set - counters.private_bytes
        } else {
            0
        },
        row.thread_count == counters.thread_count,
        row.handle_count == counters.handle_count,
        row.io_read_bytes == counters.read_bytes,
        row.io_write_bytes == counters.write_bytes,
{
    let bp = counters.base_priority;
    let priority: i32 = if 0 <= bp && bp <= 4 {
        0
    } else if 5 <= bp && bp <= 8 {
        5
    } else if 9 <= bp && bp <= 12 {
        20
    } else if 13 <= bp && bp <= 15 {
        30
    } else {
        39
    };
    let user = match cached_user {
        Some(u) => string_of(u),
        None => if counters.pid == 0 || counters.pid == 4 {
            string_of("SYSTEM")
        } else {
            string_of("-")
        },
    };
    proof {
        reveal_strlit("SYSTEM");
        reveal_strlit("-");
    }
    let user_lower = to_lowercase(user.as_str());
    let (exe_path, command) = if !cached_exe_path.is_empty() {
        (string_of(cached_exe_path), string_of(cached_exe_path))
    } else {
        (string_of(""), string_of(name))
    };
    proof {
        reveal_strlit("");
    }
    let command_lower = to_lowercase(command.as_str());
    NativeRow {
        pid: counters.pid,
        parent_pid: counters.parent_pid,
        priority,
        user,
        user_lower,
        name: string_of(name),
        name_lower: to_lowercase(name),
        exe_path,
        command,
        command_lower,
        cpu_time: cpu_time_of(counters.kernel_time + counters.user_time),
        start_time: filetime_to_unix(counters.create_time),
        virtual_mem: counters.virtual_size,
        resident_mem: counters.working_set,
        shared_mem: counters.working_set.saturating_sub(counters.private_bytes),
        thread_count: counters.thread_count,
        handle_count: counters.handle_count,
        io_read_bytes: counters.read_bytes,
        io_write_bytes: counters.write_bytes,
    }
}

} // verus!
