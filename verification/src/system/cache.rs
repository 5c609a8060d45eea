//! The executable-status cache: for each executable path and process
//! creation time, whether the file was updated or deleted since the process
//! started, with jittered freshness deadlines and a size cap.
//!
//! Times are nanoseconds on a monotonic clock.

use vstd::prelude::*;
use std::time::Duration;
use crate::event_wait::duration_nanos;
use crate::bytes::str_eq;
use crate::text::string_of;
use vstd::string::StringSliceAdditionalSpecFns;

verus! {

/// Exe status check interval in seconds
pub const EXE_STATUS_TTL_SECS: u64 = 10;
/// Minimum exe status cache capacity before eviction.
pub const EXE_CACHE_MAX_SIZE: usize = 1000;
/// How long an exe-status entry stays fresh before its file is re-stat'd.
pub const EXE_STATUS_TTL_NANOS: u64 = 10_000_000_000;
/// Upper bound of the per-entry freshness jitter (half the TTL).
pub const EXE_STATUS_MAX_JITTER_NANOS: u64 = 5_000_000_000;

/// Exe status cache entry
#[derive(Debug, Clone, Copy, PartialEq, Eq, Structural)]
pub struct ExeStatusEntry {
    pub updated: bool,
    pub deleted: bool,
    /// When the filesystem stat backing this entry was taken.
    pub checked_at: u64,
    /// Freshness deadline: `checked_at + TTL + jitter`.
    pub next_check: u64,
}

/// An entry is fresh while `now` is before its (jittered) deadline.
pub open spec fn spec_is_fresh(entry: ExeStatusEntry, now: u64) -> bool {
    now < entry.next_check
}

/// An entry is retained until twice the TTL has passed since its stat.
pub open spec fn spec_retained(entry: ExeStatusEntry, now: u64) -> bool {
    (if now > entry.checked_at { now - entry.checked_at } else { 0 }) < 2 * EXE_STATUS_TTL_NANOS
}

pub fn exe_entry_is_fresh(entry: &ExeStatusEntry, now: u64) -> (r: bool)
    ensures
        r == spec_is_fresh(*entry, now),
{
    now < entry.next_check
}

pub fn exe_entry_retained(entry: &ExeStatusEntry, now: u64) -> (r: bool)
    ensures
        r == spec_retained(*entry, now),
{
    let age = now.saturating_sub(entry.checked_at);
    age < 2 * EXE_STATUS_TTL_NANOS
}

/// `Duration::from_nanos`: a duration of exactly `nanos` nanoseconds.
#[verifier::external_body]
fn duration_from_nanos(nanos: u64) -> (r: Duration)
    ensures
        duration_nanos(r) == nanos,
{
    Duration::from_nanos(nanos)
}

pub const FNV_OFFSET_BASIS: u64 = 0xcbf2_9ce4_8422_2325;
pub const FNV_PRIME: u64 = 0x0000_0100_0000_01b3;
pub const MIX_MULTIPLIER: u64 = 0xff51_afd7_ed55_8ccd;

/// FNV-1a hash of `bytes`.
pub open spec fn fnv1a(bytes: Seq<u8>) -> u64
    decreases bytes.len(),
{
    if bytes.len() == 0 {
        FNV_OFFSET_BASIS
    } else {
        (fnv1a(bytes.drop_last()) ^ (bytes.last() as u64)).wrapping_mul(FNV_PRIME)
    }
}

/// The jitter of an entry, in nanoseconds: its path hash mixed with the
/// creation time, reduced to `[0, EXE_STATUS_MAX_JITTER)`.
pub open spec fn spec_jitter(path: Seq<u8>, start: u64) -> u64 {
    let h = (fnv1a(path) ^ start).wrapping_mul(MIX_MULTIPLIER);
    let mixed = h ^ (h >> 33u64);
    mixed % EXE_STATUS_MAX_JITTER_NANOS
}

/// Deterministic per-entry jitter in `[0, EXE_STATUS_MAX_JITTER)`, hashed
/// from path and create time so entries created in the same tick get
/// different deadlines without touching a wall clock or RNG.
pub fn exe_status_jitter(exe_path: &str, start_time_100ns: u64) -> (r: Duration)
    ensures
        duration_nanos(r) == spec_jitter(exe_path.spec_bytes(), start_time_100ns),
        duration_nanos(r) < EXE_STATUS_MAX_JITTER_NANOS,
{
    duration_from_nanos(exe_status_jitter_nanos(exe_path, start_time_100ns))
}

/// [`exe_status_jitter`] in nanoseconds.
pub fn exe_status_jitter_nanos(exe_path: &str, start_time_100ns: u64) -> (r: u64)
    ensures
        r == spec_jitter(exe_path.spec_bytes(), start_time_100ns),
        r < EXE_STATUS_MAX_JITTER_NANOS,
{
    let bytes = exe_path.as_bytes();
    let mut hash: u64 = FNV_OFFSET_BASIS;
    let mut i: usize = 0;
    assert(bytes@.take(0) =~= Seq::<u8>::empty());
    while i < bytes.len()
        invariant
            0 <= i <= bytes@.len(),
            hash == fnv1a(bytes@.take(i as int)),
        decreases bytes.len() - i,
    {
        assert(bytes@.take(i + 1).drop_last() =~= bytes@.take(i as int));
        hash = hash ^ (bytes[i] as u64);
        hash = hash.wrapping_mul(FNV_PRIME);
        i = i + 1;
    }
    assert(bytes@.take(bytes@.len() as int) =~= bytes@);
    hash = hash ^ start_time_100ns;
    hash = hash.wrapping_mul(MIX_MULTIPLIER);
    hash = hash ^ (hash >> 33u64);
    hash % EXE_STATUS_MAX_JITTER_NANOS
}

/// A cache record: executable path, process start time, status.
#[derive(Debug)]
pub struct ExeStatusRecord {
    pub path: String,
    pub start: u64,
    pub entry: ExeStatusEntry,
}

/// The executable-status cache, one record per (path, creation time).
#[derive(Debug)]
pub struct ExeStatusMap {
    pub records: Vec<ExeStatusRecord>,
}

/// The abstract content of a record.
pub type RecordView = (Seq<char>, u64, ExeStatusEntry);

pub open spec fn record_view(r: ExeStatusRecord) -> RecordView {
    (r.path@, r.start, r.entry)
}

/// No two records share a (path, creation time) key.
pub open spec fn keys_distinct(s: Seq<RecordView>) -> bool {
    forall|i: int, j: int| 0 <= i < j < s.len() ==> !(s[i].0 == s[j].0 && s[i].1 == s[j].1)
}

/// The records that are retained at `now`, in order.
pub open spec fn retained_records(s: Seq<RecordView>, now: u64) -> Seq<RecordView>
    decreases s.len(),
{
    if s.len() == 0 {
        Seq::empty()
    } else if spec_retained(s.last().2, now) {
        retained_records(s.drop_last(), now).push(s.last())
    } else {
        retained_records(s.drop_last(), now)
    }
}

/// How many different paths the records mention.
pub open spec fn path_count(s: Seq<RecordView>) -> nat
    decreases s.len(),
{
    if s.len() == 0 {
        0
    } else if exists|j: int| 0 <= j < s.len() - 1 && s[j].0 == s.last().0 {
        path_count(s.drop_last())
    } else {
        path_count(s.drop_last()) + 1
    }
}

impl ExeStatusMap {
    pub open spec fn view(&self) -> Seq<RecordView> {
        self.records@.map_values(|r: ExeStatusRecord| record_view(r))
    }

    /// Well-formed: every key at most once.
    pub open spec fn wf(&self) -> bool {
        keys_distinct(self.view())
    }

    /// The entry cached for `(path, start)`, if any.
    pub open spec fn entry_for(&self, path: Seq<char>, start: u64) -> Option<ExeStatusEntry> {
        if exists|i: int| 0 <= i < self.view().len() && self.view()[i].0 == path && self.view()[i].1 == start {
            let i = choose|i: int| 0 <= i < self.view().len() && self.view()[i].0 == path && self.view()[i].1 == start;
            Some(self.view()[i].2)
        } else {
            None
        }
    }

    pub fn new() -> (r: ExeStatusMap)
        ensures
            r.view() == Seq::<RecordView>::empty(),
            r.wf(),
    {
        ExeStatusMap { records: Vec::new() }
    }

    /// Total number of cached entries across every path.
    pub fn exe_status_len(&self) -> (r: usize)
        ensures
            r == self.view().len(),
    {
        self.records.len()
    }

    pub fn is_empty(&self) -> (r: bool)
        ensures
            r == (self.view().len() == 0),
    {
        self.records.len() == 0
    }

    /// Number of different paths with at least one entry.
    pub fn path_count(&self) -> (r: usize)
        ensures
            r == path_count(self.view()),
    {
        let ghost v = self.view();
        let mut count: usize = 0;
        let mut i: usize = 0;
        assert(v.take(0) =~= Seq::<RecordView>::empty());
        while i < self.records.len()
            invariant
                v == self.view(),
                v.len() == self.records@.len(),
                0 <= i <= v.len(),
                count == path_count(v.take(i as int)),
                count <= i,
            decreases self.records.len() - i,
        {
            let mut seen = false;
            let mut j: usize = 0;
            while j < i
                invariant
                    v == self.view(),
                    v.len() == self.records@.len(),
                    0 <= j <= i < v.len(),
                    seen == exists|k: int| 0 <= k < j && v[k].0 == v[i as int].0,
                decreases i - j,
            {
                assert(v[j as int] == record_view(self.records@[j as int]));
                assert(v[i as int] == record_view(self.records@[i as int]));
                if str_eq(self.records[j].path.as_str(), self.records[i].path.as_str()) {
                    seen = true;
                }
                j = j + 1;
            }
            let ghost t = v.take(i + 1);
            assert(t.drop_last() =~= v.take(i as int));
            assert(t.last() == v[i as int]);
            assert((exists|k: int| 0 <= k < t.len() - 1 && t[k].0 == t.last().0) == seen) by {
                if seen {
                    let k = choose|k: int| 0 <= k < i && v[k].0 == v[i as int].0;
                    assert(t[k].0 == t.last().0);
                }
            }
            if !seen {
                count = count + 1;
            }
            i = i + 1;
        }
        assert(v.take(v.len() as int) =~= v);
        count
    }

    /// Some entry is cached for `path`.
    pub fn contains_path(&self, path: &str) -> (r: bool)
        ensures
            r == exists|i: int| 0 <= i < self.view().len() && self.view()[i].0 == path@,
    {
        let mut i: usize = 0;
        while i < self.records.len()
            invariant
                0 <= i <= self.records@.len(),
                forall|k: int| 0 <= k < i ==> self.view()[k].0 != path@,
            decreases self.records.len() - i,
        {
            assert(self.view()[i as int] == record_view(self.records@[i as int]));
            if str_eq(self.records[i].path.as_str(), path) {
                return true;
            }
            i = i + 1;
        }
        false
    }

    /// The entry cached for `(path, start)`.
    pub fn get(&self, path: &str, start: u64) -> (r: Option<ExeStatusEntry>)
        requires
            self.wf(),
        ensures
            r == self.entry_for(path@, start),
    {
        let mut i: usize = 0;
        while i < self.records.len()
            invariant
                self.wf(),
                0 <= i <= self.records@.len(),
                forall|k: int| 0 <= k < i ==> !(self.view()[k].0 == path@ && self.view()[k].1 == start),
            decreases self.records.len() - i,
        {
            assert(self.view()[i as int] == record_view(self.records@[i as int]));
            if self.records[i].start == start && str_eq(self.records[i].path.as_str(), path) {
                proof {
                    assert(self.view()[i as int].0 == path@ && self.view()[i as int].1 == start);
                    let k = choose|k: int| 0 <= k < self.view().len() && self.view()[k].0 == path@ && self.view()[k].1 == start;
                    assert(k == i) by {
                        if k < i {
                        } else if k > i {
                            assert(keys_distinct(self.view()));
                        }
                    }
                }
                return Some(self.records[i].entry);
            }
            i = i + 1;
        }
        None
    }

    /// Cache `entry` for `(path, start)`, replacing an entry cached for the
    /// same key. Returns whether the key is new.
    pub fn insert(&mut self, path: &str, start: u64, entry: ExeStatusEntry) -> (added: bool)
        requires
            old(self).wf(),
        ensures
            final(self).wf(),
            added == old(self).entry_for(path@, start) is None,
            added ==> final(self).view() == old(self).view().push((path@, start, entry)),
            !added ==> exists|i: int| 0 <= i < old(self).view().len() && old(self).view()[i].0 == path@
                && old(self).view()[i].1 == start && final(self).view() == old(self).view().update(i, (path@, start, entry)),
    {
        let mut i: usize = 0;
        while i < self.records.len()
            invariant
                self.wf(),
                self.view() == old(self).view(),
                0 <= i <= self.records@.len(),
                forall|k: int| 0 <= k < i ==> !(self.view()[k].0 == path@ && self.view()[k].1 == start),
            decreases self.records.len() - i,
        {
            assert(self.view()[i as int] == record_view(self.records@[i as int]));
            if self.records[i].start == start && str_eq(self.records[i].path.as_str(), path) {
                let ghost before = self.view();
                assert(before[i as int].0 == path@ && before[i as int].1 == start);
                self.records[i].entry = entry;
                assert(self.view() =~= before.update(i as int, (path@, start, entry)));
                assert(keys_distinct(self.view())) by {
                    assert forall|a: int, b: int| 0 <= a < b < self.view().len() implies !(self.view()[a].0
                        == self.view()[b].0 && self.view()[a].1 == self.view()[b].1) by {
                        assert(before[a].0 == self.view()[a].0 && before[a].1 == self.view()[a].1);
                        assert(before[b].0 == self.view()[b].0 && before[b].1 == self.view()[b].1);
                    }
                }
                return false;
            }
            i = i + 1;
        }
        let ghost before = self.view();
        self.records.push(ExeStatusRecord { path: string_of(path), start, entry });
        assert(self.view() =~= before.push((path@, start, entry)));
        true
    }

    /// Drop every entry.
    pub fn clear(&mut self)
        ensures
            final(self).view() == Seq::<RecordView>::empty(),
            final(self).wf(),
    {
        self.records.clear();
        assert(self.view() =~= Seq::<RecordView>::empty());
    }
}

/// Drop entries past the retention grace (a path left without entries is
/// gone with them). Returns the number of entries removed.
pub fn evict_expired_entries(map: &mut ExeStatusMap, now: u64) -> (removed: usize)
    requires
        old(map).wf(),
    ensures
        final(map).view() == retained_records(old(map).view(), now),
        removed == old(map).view().len() - final(map).view().len(),
        final(map).wf(),
{
    proof {
        lemma_retained_records(old(map).view(), now);
    }
    let ghost before = map.view();
    let mut kept: Vec<ExeStatusRecord> = Vec::new();
    let mut old_records: Vec<ExeStatusRecord> = Vec::new();
    std::mem::swap(&mut old_records, &mut map.records);
    assert(old_records@.map_values(|r: ExeStatusRecord| record_view(r)) == before);
    let n = old_records.len();
    let mut i: usize = 0;
    assert(before.take(0) =~= Seq::<RecordView>::empty());
    assert(kept@.map_values(|r: ExeStatusRecord| record_view(r)) =~= Seq::<RecordView>::empty());
    while i < n
        invariant
            n == old_records@.len(),
            old_records@.map_values(|r: ExeStatusRecord| record_view(r)) == before,
            0 <= i <= n,
            kept@.map_values(|r: ExeStatusRecord| record_view(r)) == retained_records(before.take(i as int), now),
        decreases n - i,
    {
        assert(before.take(i + 1).drop_last() =~= before.take(i as int));
        assert(before.take(i + 1).last() == before[i as int]);
        assert(before[i as int] == record_view(old_records@[i as int]));
        if exe_entry_retained(&old_records[i].entry, now) {
            let ghost kv = kept@.map_values(|r: ExeStatusRecord| record_view(r));
            let rec = ExeStatusRecord {
                path: old_records[i].path.clone(),
                start: old_records[i].start,
                entry: old_records[i].entry,
            };
            kept.push(rec);
            assert(kept@.map_values(|r: ExeStatusRecord| record_view(r)) =~= kv.push(before[i as int]));
        }
        i = i + 1;
    }
    assert(before.take(n as int) =~= before);
    let removed = n - kept.len();
    map.records = kept;
    proof {
        lemma_retained_records(before, now);
        lemma_retained_keys_distinct(before, now);
    }
    removed
}

/// What eviction keeps: the retained records in their order, never more
/// than there were.
pub proof fn lemma_retained_records(s: Seq<RecordView>, now: u64)
    ensures
        retained_records(s, now).len() <= s.len(),
        forall|k: int| 0 <= k < retained_records(s, now).len() ==> spec_retained(
            #[trigger] retained_records(s, now)[k].2,
            now,
        ),
        forall|k: int| 0 <= k < retained_records(s, now).len() ==> s.contains(#[trigger] retained_records(s, now)[k]),
        forall|i: int| 0 <= i < s.len() && spec_retained(s[i].2, now) ==> retained_records(s, now).contains(#[trigger] s[i]),
    decreases s.len(),
{
    if s.len() > 0 {
        let t = s.drop_last();
        lemma_retained_records(t, now);
        let r = retained_records(s, now);
        let rt = retained_records(t, now);
        assert forall|k: int| 0 <= k < r.len() implies s.contains(#[trigger] r[k]) by {
            if k < rt.len() {
                assert(r[k] == rt[k]);
                let j = choose|j: int| 0 <= j < t.len() && t[j] == rt[k];
                assert(s[j] == t[j]);
            } else {
                assert(r[k] == s.last());
                assert(s[s.len() - 1] == s.last());
            }
        }
        assert forall|i: int| 0 <= i < s.len() && spec_retained(s[i].2, now) implies r.contains(#[trigger] s[i]) by {
            if i < s.len() - 1 {
                assert(s[i] == t[i]);
                assert(rt.contains(t[i]));
                let j = choose|j: int| 0 <= j < rt.len() && rt[j] == t[i];
                assert(r[j] == rt[j]);
            } else {
                assert(s[i] == s.last());
                assert(r[r.len() - 1] == s.last());
            }
        }
        assert forall|k: int| 0 <= k < r.len() implies spec_retained(#[trigger] r[k].2, now) by {
            if k < rt.len() {
                assert(r[k] == rt[k]);
            }
        }
    }
}

/// Eviction keeps keys distinct.
proof fn lemma_retained_keys_distinct(s: Seq<RecordView>, now: u64)
    requires
        keys_distinct(s),
    ensures
        keys_distinct(retained_records(s, now)),
    decreases s.len(),
{
    if s.len() > 0 {
        let t = s.drop_last();
        assert(keys_distinct(t)) by {
            assert forall|i: int, j: int| 0 <= i < j < t.len() implies !(t[i].0 == t[j].0 && t[i].1 == t[j].1) by {
                assert(t[i] == s[i] && t[j] == s[j]);
            }
        }
        lemma_retained_keys_distinct(t, now);
        lemma_retained_records(t, now);
        let r = retained_records(s, now);
        let rt = retained_records(t, now);
        if spec_retained(s.last().2, now) {
            assert forall|i: int, j: int| 0 <= i < j < r.len() implies !(r[i].0 == r[j].0 && r[i].1 == r[j].1) by {
                if j == r.len() - 1 {
                    assert(r[i] == rt[i]);
                    assert(t.contains(rt[i]));
                    let k = choose|k: int| 0 <= k < t.len() && t[k] == rt[i];
                    assert(s[k] == t[k]);
                    assert(r[j] == s[s.len() - 1]);
                } else {
                    assert(r[i] == rt[i] && r[j] == rt[j]);
                }
            }
        }
    }
}

/// Enforce the size cap once it is exceeded: shed expired entries first and
/// wipe the cache wholesale only when everything left is still fresh, i.e.
/// when eviction cannot free enough room. `len` is the running entry count.
pub fn enforce_exe_cache_limit(map: &mut ExeStatusMap, len: &mut usize, now: u64, cap: usize)
    requires
        old(map).wf(),
        *old(len) == old(map).view().len(),
    ensures
        final(map).wf(),
        *final(len) == final(map).view().len(),
        *old(len) <= cap ==> final(map).view() == old(map).view(),
        *old(len) > cap && retained_records(old(map).view(), now).len() <= cap ==> final(map).view()
            == retained_records(old(map).view(), now),
        *old(len) > cap && retained_records(old(map).view(), now).len() > cap ==> final(map).view()
            == Seq::<RecordView>::empty(),
{
    if *len <= cap {
        return;
    }
    let removed = evict_expired_entries(map, now);
    *len = len.saturating_sub(removed);
    if *len > cap {
        map.clear();
        *len = 0;
    }
}

/// The cap never discards an entry that eviction would keep unless every
/// entry left is one eviction keeps (then the whole cache goes), and it
/// leaves the cache within the cap.
pub proof fn cache_limit_law(s: Seq<RecordView>, now: u64, cap: nat)
    ensures
        s.len() > cap && retained_records(s, now).len() <= cap ==> forall|i: int|
            0 <= i < s.len() && spec_retained(s[i].2, now) ==> retained_records(s, now).contains(#[trigger] s[i]),
        retained_records(s, now).len() <= s.len(),
{
    lemma_retained_records(s, now);
}

/// Cache capacity for a tick: twice the live process count, but never below
/// the base size.
pub fn exe_cache_cap(live_processes: usize) -> (r: usize)
    ensures
        r == if live_processes * 2 > usize::MAX {
            usize::MAX as int
        } else if live_processes * 2 > EXE_CACHE_MAX_SIZE {
            live_processes * 2
        } else {
            EXE_CACHE_MAX_SIZE as int
        },
{
    let doubled = if live_processes > usize::MAX / 2 { usize::MAX } else { live_processes * 2 };
    if doubled > EXE_CACHE_MAX_SIZE {
        doubled
    } else {
        EXE_CACHE_MAX_SIZE
    }
}

// ============================================================================
// Checking an executable
// ============================================================================

/// The Unix epoch as a FILETIME, in 100 ns units since 1601.
pub const UNIX_EPOCH_FILETIME_100NS: u64 = 116444736000000000;

/// A modification time since the Unix epoch.
#[derive(Debug, Clone, Copy, PartialEq, Eq, Structural)]
pub struct ModifiedTime {
    pub secs: u64,
    pub subsec_nanos: u32,
}

/// What a filesystem stat of an executable found.
#[derive(Debug, Clone, Copy, PartialEq, Eq, Structural)]
pub enum ExeStat {
    /// The file exists, with its modification time when the platform
    /// reports one at or after the Unix epoch.
    Found(Option<ModifiedTime>),
    NotFound,
    /// Any other failure.
    Failed,
}

/// `a + b`, held at `u64::MAX`.
pub open spec fn sat_add(a: u64, b: int) -> u64 {
    if a + b > u64::MAX { u64::MAX } else { (a + b) as u64 }
}

/// A modification time as a FILETIME (100 ns units since 1601), saturating.
pub open spec fn mtime_filetime(secs: u64, subsec_nanos: u32) -> u64 {
    let secs_100ns: u64 = if secs * 10_000_000 > u64::MAX { u64::MAX } else { (secs * 10_000_000) as u64 };
    sat_add(sat_add(UNIX_EPOCH_FILETIME_100NS, secs_100ns as int), (subsec_nanos / 100) as int)
}

/// The (updated, deleted) verdict of a stat for a process started at
/// `start_time_100ns` (a FILETIME): updated when the file was modified after
/// the process started, deleted when it is gone; an unknown modification
/// time or a failed stat says neither.
pub open spec fn spec_exe_verdict(stat: ExeStat, start_time_100ns: u64) -> (bool, bool) {
    match stat {
        ExeStat::Found(Some(m)) => (mtime_filetime(m.secs, m.subsec_nanos) > start_time_100ns, false),
        ExeStat::Found(None) => (false, false),
        ExeStat::NotFound => (false, true),
        ExeStat::Failed => (false, false),
    }
}

/// The verdict of a stat (see [`spec_exe_verdict`]).
pub fn exe_verdict(stat: ExeStat, start_time_100ns: u64) -> (r: (bool, bool))
    ensures
        r == spec_exe_verdict(stat, start_time_100ns),
{
    match stat {
        ExeStat::Found(Some(m)) => {
            let secs_100ns = if m.secs > u64::MAX / 10_000_000 { u64::MAX } else { m.secs * 10_000_000 };
            let mtime = UNIX_EPOCH_FILETIME_100NS.saturating_add(secs_100ns).saturating_add(
                (m.subsec_nanos / 100) as u64,
            );
            (mtime > start_time_100ns, false)
        },
        ExeStat::Found(None) => (false, false),
        ExeStat::NotFound => (false, true),
        ExeStat::Failed => (false, false),
    }
}

/// What the cache says about an executable.
#[derive(Debug, Clone, Copy, PartialEq, Eq, Structural)]
pub enum ExeLookup {
    /// The (updated, deleted) verdict to report without touching the file.
    Known(bool, bool),
    /// The file has to be stat'd.
    NeedsStat,
}

/// The lookup for `(path, start)` at `now`: no path has nothing to check; a
/// fresh entry is reported as cached; a due or missing entry needs a stat,
/// unless stats are budgeted (`budgeted`) and the tick's budget is spent,
/// in which case the last verdict (or, for a new entry, neither) stands.
pub open spec fn spec_exe_lookup(
    map: ExeStatusMap,
    path: Seq<char>,
    start: u64,
    now: u64,
    budgeted: bool,
    budget: u32,
) -> ExeLookup {
    if path.len() == 0 {
        ExeLookup::Known(false, false)
    } else {
        match map.entry_for(path, start) {
            Some(e) if spec_is_fresh(e, now) => ExeLookup::Known(e.updated, e.deleted),
            cached => if budgeted && budget == 0 {
                match cached {
                    Some(e) => ExeLookup::Known(e.updated, e.deleted),
                    None => ExeLookup::Known(false, false),
                }
            } else {
                ExeLookup::NeedsStat
            },
        }
    }
}

/// A text has bytes exactly when it has characters.
proof fn lemma_no_bytes_no_chars(s: Seq<char>)
    ensures
        (vstd::utf8::encode_utf8(s).len() == 0) == (s.len() == 0),
{
    if s.len() > 0 {
        assert(vstd::utf8::encode_scalar(s[0] as u32).len() >= 1);
    }
}

/// Look `(path, start)` up in the cache at `now`. A budgeted stat takes one
/// from `budget`.
pub fn lookup_exe_status(
    map: &ExeStatusMap,
    path: &str,
    start: u64,
    now: u64,
    budgeted: bool,
    budget: &mut u32,
) -> (r: ExeLookup)
    requires
        map.wf(),
    ensures
        r == spec_exe_lookup(*map, path@, start, now, budgeted, *old(budget)),
        *final(budget) == if budgeted && r == ExeLookup::NeedsStat && path@.len() > 0 {
            (*old(budget) - 1) as u32
        } else {
            *old(budget)
        },
{
    if path.as_bytes().len() == 0 {
        proof {
            lemma_no_bytes_no_chars(path@);
        }
        return ExeLookup::Known(false, false);
    }
    proof {
        lemma_no_bytes_no_chars(path@);
    }
    let existing = map.get(path, start);
    match existing {
        Some(e) => {
            if exe_entry_is_fresh(&e, now) {
                return ExeLookup::Known(e.updated, e.deleted);
            }
        },
        None => {},
    }
    if budgeted {
        if *budget == 0 {
            return match existing {
                Some(e) => ExeLookup::Known(e.updated, e.deleted),
                None => ExeLookup::Known(false, false),
            };
        }
        *budget = *budget - 1;
    }
    ExeLookup::NeedsStat
}

/// The cache entry for a fresh verdict stat'd at `now`: fresh for the TTL,
/// plus the entry's jitter when deadlines are staggered (`jittered`).
pub open spec fn spec_fresh_entry(verdict: (bool, bool), now: u64, jitter: u64) -> ExeStatusEntry {
    ExeStatusEntry {
        updated: verdict.0,
        deleted: verdict.1,
        checked_at: now,
        next_check: (now + EXE_STATUS_TTL_NANOS + jitter) as u64,
    }
}

/// The entry to cache for a verdict stat'd at `now`.
pub fn fresh_exe_entry(verdict: (bool, bool), now: u64, path: &str, start: u64, jittered: bool) -> (e: ExeStatusEntry)
    requires
        now <= u64::MAX - EXE_STATUS_TTL_NANOS - EXE_STATUS_MAX_JITTER_NANOS,
    ensures
        e == spec_fresh_entry(verdict, now, if jittered { spec_jitter(path.spec_bytes(), start) } else { 0 }),
{
    let jitter = if jittered { exe_status_jitter_nanos(path, start) } else { 0 };
    ExeStatusEntry {
        updated: verdict.0,
        deleted: verdict.1,
        checked_at: now,
        next_check: now + EXE_STATUS_TTL_NANOS + jitter,
    }
}

} // verus!
