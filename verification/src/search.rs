//! Finding processes in the list: typing a pid, and stepping through the
//! rows that match the search text.

use vstd::prelude::*;
use vstd::string::StringSliceAdditionalSpecFns;
use std::time::Duration;
use crate::event_wait::{duration_as_nanos, duration_nanos};
use crate::text::{decimal, digit_char};

verus! {

// ============================================================================
// Typed pid
// ============================================================================

/// At most this many digits are kept: a `u32` has ten.
pub const PID_DIGITS_MAX: usize = 10;

/// Idle time after which the typed pid starts over, in nanoseconds.
pub const PID_TYPING_IDLE_NANOS: u128 = 1_000_000_000;

/// `c` is an ASCII decimal digit.
pub open spec fn is_digit(c: char) -> bool {
    '0' <= c && c <= '9'
}

/// The value of digit `c`.
pub open spec fn digit_value(c: char) -> int {
    c as int - '0' as int
}

/// The number the digits of `s` spell, most significant first.
pub open spec fn digits_value(s: Seq<char>) -> int
    decreases s.len(),
{
    if s.len() == 0 {
        0
    } else {
        digits_value(s.drop_last()) * 10 + digit_value(s.last())
    }
}

/// The pid a string of digits names, as `str::parse::<u32>` reads it: none
/// for an empty string, a non-digit or a value past `u32::MAX`.
pub open spec fn parsed_pid(s: Seq<char>) -> Option<u32> {
    if s.len() > 0 && (forall|i: int| 0 <= i < s.len() ==> is_digit(#[trigger] s[i])) && digits_value(s)
        <= u32::MAX {
        Some(digits_value(s) as u32)
    } else {
        None
    }
}

/// `typed` is how the decimal rendering of `pid` begins.
pub open spec fn pid_has_prefix(pid: u32, typed: Seq<char>) -> bool {
    typed.len() <= decimal(pid as nat).len() && decimal(pid as nat).subrange(0, typed.len() as int) == typed
}

/// Position `k` is the row that typing `typed` selects among `pids`: the
/// first row with exactly that pid; failing that, the first of the rows with
/// the smallest pid whose decimal rendering starts with the digits typed.
pub open spec fn pid_pick(pids: Seq<u32>, typed: Seq<char>, k: int) -> bool {
    match parsed_pid(typed) {
        None => false,
        Some(v) => 0 <= k < pids.len() && (
            (pids[k] == v && forall|j: int| 0 <= j < k ==> pids[j] != v)
            || ((forall|j: int| 0 <= j < pids.len() ==> pids[j] != v)
                && pid_has_prefix(pids[k], typed)
                && (forall|j: int| 0 <= j < pids.len() && pid_has_prefix(#[trigger] pids[j], typed) ==> pids[k] <= pids[j])
                && (forall|j: int| 0 <= j < k && pid_has_prefix(#[trigger] pids[j], typed) ==> pids[k] < pids[j]))),
    }
}

/// No row is selected by typing `typed`.
pub open spec fn pid_no_pick(pids: Seq<u32>, typed: Seq<char>) -> bool {
    match parsed_pid(typed) {
        None => true,
        Some(v) => (forall|j: int| 0 <= j < pids.len() ==> pids[j] != v)
            && (forall|j: int| 0 <= j < pids.len() ==> !pid_has_prefix(#[trigger] pids[j], typed)),
    }
}

/// The digits typed so far to jump to a process by pid.
pub struct PidSearch {
    digits: Vec<char>,
}

impl View for PidSearch {
    type V = Seq<char>;

    closed spec fn view(&self) -> Seq<char> {
        self.digits@
    }
}

/// The buffer after typing `digit`: it starts over when typing was idle for
/// too long or ten digits are already there.
pub open spec fn after_digit(typed: Seq<char>, digit: char, idle: bool) -> Seq<char> {
    if idle || typed.len() >= PID_DIGITS_MAX {
        seq![digit]
    } else {
        typed.push(digit)
    }
}

/// Typing was idle for longer than allowed: `since_last` is the time since
/// the previous digit, if there was one.
pub open spec fn typing_idle(since_last: Option<Duration>) -> bool {
    match since_last {
        Some(d) => duration_nanos(d) > PID_TYPING_IDLE_NANOS,
        None => false,
    }
}

fn digit_char_of(d: u32) -> (c: char)
    requires
        d < 10,
    ensures
        c == digit_char(d as nat),
{
    match d {
        0 => '0',
        1 => '1',
        2 => '2',
        3 => '3',
        4 => '4',
        5 => '5',
        6 => '6',
        7 => '7',
        8 => '8',
        _ => '9',
    }
}

/// The decimal rendering of `n`, as characters.
fn decimal_chars(n: u32) -> (r: Vec<char>)
    ensures
        r@ == decimal(n as nat),
{
    let mut out: Vec<char> = Vec::new();
    out.push(digit_char_of(n % 10));
    let mut m: u32 = n / 10;
    assert(decimal(n as nat) == (if m == 0 { Seq::<char>::empty() } else { decimal(m as nat) }) + out@);
    while m > 0
        invariant
            decimal(n as nat) == (if m == 0 { Seq::<char>::empty() } else { decimal(m as nat) }) + out@,
        decreases m,
    {
        let ghost before = out@;
        out.insert(0, digit_char_of(m % 10));
        assert(decimal(m as nat) == (if m / 10 == 0 { Seq::<char>::empty() } else { decimal((m / 10) as nat) })
            + seq![digit_char((m % 10) as nat)]);
        assert(out@ == seq![digit_char((m % 10) as nat)] + before);
        m = m / 10;
    }
    assert(out@ =~= decimal(n as nat));
    out
}

/// Whether `typed` is how the decimal rendering of `pid` begins.
fn has_prefix(pid: u32, typed: &Vec<char>) -> (r: bool)
    ensures
        r == pid_has_prefix(pid, typed@),
{
    let dec = decimal_chars(pid);
    if typed.len() > dec.len() {
        return false;
    }
    let mut i: usize = 0;
    while i < typed.len()
        invariant
            typed@.len() <= dec@.len(),
            dec@ == decimal(pid as nat),
            0 <= i <= typed@.len(),
            forall|j: int| 0 <= j < i ==> dec@[j] == typed@[j],
        decreases typed.len() - i,
    {
        if dec[i] != typed[i] {
            assert(dec@.subrange(0, typed@.len() as int)[i as int] != typed@[i as int]);
            return false;
        }
        i = i + 1;
    }
    assert(dec@.subrange(0, typed@.len() as int) =~= typed@);
    true
}

proof fn lemma_digits_value_bounds(s: Seq<char>)
    requires
        forall|i: int| 0 <= i < s.len() ==> is_digit(#[trigger] s[i]),
    ensures
        0 <= digits_value(s),
    decreases s.len(),
{
    if s.len() > 0 {
        assert forall|i: int| 0 <= i < s.drop_last().len() implies is_digit(#[trigger] s.drop_last()[i]) by {
            assert(s.drop_last()[i] == s[i]);
        }
        lemma_digits_value_bounds(s.drop_last());
    }
}

/// `str::parse::<u32>` on a string of digits.
fn parse_digits(typed: &Vec<char>) -> (r: Option<u32>)
    ensures
        r == parsed_pid(typed@),
{
    if typed.len() == 0 {
        return None;
    }
    let mut value: u64 = 0;
    let mut i: usize = 0;
    while i < typed.len()
        invariant
            0 <= i <= typed@.len(),
            typed@.len() > 0,
            forall|j: int| 0 <= j < i ==> is_digit(#[trigger] typed@[j]),
            value as int == digits_value(typed@.subrange(0, i as int)),
            value <= u32::MAX,
        decreases typed.len() - i,
    {
        let c = typed[i];
        assert(typed@.subrange(0, i + 1).drop_last() =~= typed@.subrange(0, i as int));
        if !('0' <= c && c <= '9') {
            assert(!is_digit(typed@[i as int]));
            return None;
        }
        let d = (c as u32) - ('0' as u32);
        value = value * 10 + d as u64;
        if value > 0xFFFF_FFFF {
            proof {
                assert(forall|j: int| 0 <= j <= i ==> is_digit(#[trigger] typed@[j]));
                lemma_digits_value_grows(typed@, i as int + 1);
            }
            return None;
        }
        i = i + 1;
    }
    assert(typed@.subrange(0, typed@.len() as int) =~= typed@);
    Some(value as u32)
}

/// A longer run of digits spells at least as much as its beginning.
proof fn lemma_digits_value_grows(s: Seq<char>, k: int)
    requires
        0 <= k <= s.len(),
        forall|i: int| 0 <= i < k ==> is_digit(#[trigger] s[i]),
    ensures
        (forall|i: int| 0 <= i < s.len() ==> is_digit(#[trigger] s[i])) ==> digits_value(s.subrange(0, k))
            <= digits_value(s),
    decreases s.len() - k,
{
    if forall|i: int| 0 <= i < s.len() ==> is_digit(#[trigger] s[i]) {
        if k < s.len() {
            lemma_digits_value_grows(s, k + 1);
            assert(s.subrange(0, k + 1).drop_last() =~= s.subrange(0, k));
            lemma_digits_value_bounds(s.subrange(0, k));
        } else {
            assert(s.subrange(0, k) =~= s);
        }
    }
}

impl PidSearch {
    /// Nothing typed yet.
    pub fn new() -> (r: PidSearch)
        ensures
            r@ == Seq::<char>::empty(),
    {
        PidSearch { digits: Vec::new() }
    }

    /// The digits typed so far.
    pub fn typed(&self) -> (r: &Vec<char>)
        ensures
            r@ == self@,
    {
        &self.digits
    }

    /// Forget the digits typed so far.
    pub fn clear(&mut self)
        ensures
            final(self)@ == Seq::<char>::empty(),
    {
        self.digits.clear();
    }

    /// Type `digit`; `idle` says the previous digit was typed too long ago.
    pub fn push_digit(&mut self, digit: char, idle: bool)
        requires
            is_digit(digit),
        ensures
            final(self)@ == after_digit(old(self)@, digit, idle),
    {
        if idle || self.digits.len() >= PID_DIGITS_MAX {
            self.digits.clear();
        }
        self.digits.push(digit);
        assert(self@ =~= after_digit(old(self)@, digit, idle));
    }

    /// Type `digit`, `since_last` after the previous digit (none for the
    /// first one).
    pub fn push_digit_after(&mut self, digit: char, since_last: Option<Duration>)
        requires
            is_digit(digit),
        ensures
            final(self)@ == after_digit(old(self)@, digit, typing_idle(since_last)),
    {
        let idle = match since_last {
            Some(d) => duration_as_nanos(d) > PID_TYPING_IDLE_NANOS,
            None => false,
        };
        self.push_digit(digit, idle);
    }

    /// The row the digits typed so far select among the displayed `pids`.
    pub fn pick(&self, pids: &[u32]) -> (r: Option<usize>)
        ensures
            match r {
                Some(k) => pid_pick(pids@, self@, k as int),
                None => pid_no_pick(pids@, self@),
            },
    {
        pick_pid(pids, &self.digits)
    }
}

/// The row that typing `typed` selects among `pids` (see [`pid_pick`]).
fn pick_pid(pids: &[u32], typed: &Vec<char>) -> (r: Option<usize>)
    ensures
        match r {
            Some(k) => pid_pick(pids@, typed@, k as int),
            None => pid_no_pick(pids@, typed@),
        },
{
    let v = match parse_digits(typed) {
        Some(v) => v,
        None => return None,
    };
    let mut i: usize = 0;
    while i < pids.len()
        invariant
            0 <= i <= pids@.len(),
            parsed_pid(typed@) == Some(v),
            forall|j: int| 0 <= j < i ==> pids@[j] != v,
        decreases pids.len() - i,
    {
        if pids[i] == v {
            return Some(i);
        }
        i = i + 1;
    }
    let mut best: Option<usize> = None;
    let mut j: usize = 0;
    while j < pids.len()
        invariant
            0 <= j <= pids@.len(),
            parsed_pid(typed@) == Some(v),
            forall|k: int| 0 <= k < pids@.len() ==> pids@[k] != v,
            match best {
                Some(b) => b < j && pid_has_prefix(pids@[b as int], typed@)
                    && (forall|k: int| 0 <= k < j && pid_has_prefix(#[trigger] pids@[k], typed@) ==> pids@[b as int] <= pids@[k])
                    && (forall|k: int| 0 <= k < b && pid_has_prefix(#[trigger] pids@[k], typed@) ==> pids@[b as int] < pids@[k]),
                None => forall|k: int| 0 <= k < j ==> !pid_has_prefix(#[trigger] pids@[k], typed@),
            },
        decreases pids.len() - j,
    {
        if has_prefix(pids[j], typed) {
            match best {
                Some(b) => {
                    if pids[j] < pids[b] {
                        best = Some(j);
                    }
                },
                None => {
                    best = Some(j);
                },
            }
        }
        j = j + 1;
    }
    best
}

// ============================================================================
// Search text
// ============================================================================

/// `needle` occurs in `hay` starting at byte `i`.
pub open spec fn occurs_at(hay: Seq<u8>, needle: Seq<u8>, i: int) -> bool {
    0 <= i && i + needle.len() <= hay.len() && hay.subrange(i, i + needle.len()) == needle
}

/// `needle` occurs somewhere in `hay` (the empty needle everywhere).
pub open spec fn occurs_in(hay: Seq<u8>, needle: Seq<u8>) -> bool {
    exists|i: int| #[trigger] occurs_at(hay, needle, i)
}

/// Whether `pat` occurs in `hay` at byte `i`.
fn bytes_match_at(hay: &[u8], pat: &[u8], i: usize) -> (r: bool)
    requires
        i + pat@.len() <= hay@.len(),
    ensures
        r == occurs_at(hay@, pat@, i as int),
{
    let n = hay.len();
    let mut j: usize = 0;
    while j < pat.len()
        invariant
            n == hay@.len(),
            i + pat@.len() <= hay@.len(),
            0 <= j <= pat@.len(),
            forall|m: int| 0 <= m < j ==> hay@[i + m] == pat@[m],
        decreases pat.len() - j,
    {
        if hay[i + j] != pat[j] {
            assert(hay@.subrange(i as int, i + pat@.len())[j as int] != pat@[j as int]);
            return false;
        }
        j = j + 1;
    }
    assert(hay@.subrange(i as int, i + pat@.len()) =~= pat@);
    true
}

/// Whether `needle` occurs in `haystack`, as `str::contains` answers it.
pub fn text_contains(haystack: &str, needle: &str) -> (r: bool)
    ensures
        r == occurs_in(haystack.spec_bytes(), needle.spec_bytes()),
{
    let hay = haystack.as_bytes();
    let pat = needle.as_bytes();
    if pat.len() > hay.len() {
        assert forall|i: int| !#[trigger] occurs_at(hay@, pat@, i) by {}
        return false;
    }
    let last = hay.len() - pat.len();
    let mut i: usize = 0;
    loop
        invariant
            hay@ == haystack.spec_bytes(),
            pat@ == needle.spec_bytes(),
            last == hay@.len() - pat@.len(),
            0 <= i <= last,
            forall|k: int| 0 <= k < i ==> !#[trigger] occurs_at(hay@, pat@, k),
        decreases last - i,
    {
        if bytes_match_at(hay, pat, i) {
            return true;
        }
        if i == last {
            assert forall|k: int| !#[trigger] occurs_at(hay@, pat@, k) by {
                if 0 <= k && k < i {
                }
            }
            return false;
        }
        i = i + 1;
    }
}

/// A process row matches the search when its lowercase name or command line
/// contains the lowercase search text.
pub fn row_matches_search(name_lower: &str, command_lower: &str, search_lower: &str) -> (r: bool)
    ensures
        r == (occurs_in(name_lower.spec_bytes(), search_lower.spec_bytes())
            || occurs_in(command_lower.spec_bytes(), search_lower.spec_bytes())),
{
    text_contains(name_lower, search_lower) || text_contains(command_lower, search_lower)
}

/// How many steps after `selected` row `k` comes, going down the `n` rows
/// and wrapping to the top.
pub open spec fn steps_after(selected: int, k: int, n: int) -> int {
    (k - selected - 1) % n
}

/// The next matching row after `selected`, wrapping around to the top
/// (`selected` itself comes last); `matches` says which rows match.
pub fn find_next_match(matches: &[bool], selected: usize) -> (r: Option<usize>)
    requires
        selected + matches@.len() <= usize::MAX,
    ensures
        match r {
            Some(k) => k < matches@.len() && matches@[k as int]
                && forall|j: int| 0 <= j < matches@.len()
                    && steps_after(selected as int, j, matches@.len() as int)
                        < steps_after(selected as int, k as int, matches@.len() as int)
                    ==> !#[trigger] matches@[j],
            None => forall|k: int| 0 <= k < matches@.len() ==> !#[trigger] matches@[k],
        },
{
    let n = matches.len();
    if n == 0 {
        return None;
    }
    let start = selected + 1;
    let mut i: usize = 0;
    while i < n
        invariant
            n == matches@.len(),
            n > 0,
            start == selected + 1,
            start + n <= usize::MAX + 1,
            0 <= i <= n,
            forall|m: int| 0 <= m < i ==> !#[trigger] matches@[(start + m) % (n as int)],
        decreases n - i,
    {
        let idx = (start + i) % n;
        if matches[idx] {
            proof {
                assert(steps_after(selected as int, idx as int, n as int) == i) by {
                    lemma_steps_after(selected as int, i as int, n as int);
                }
                assert forall|j: int| 0 <= j < n && steps_after(selected as int, j, n as int) < i
                    implies !#[trigger] matches@[j] by {
                    lemma_steps_after_back(selected as int, j, n as int);
                    assert(!matches@[(start + steps_after(selected as int, j, n as int)) % (n as int)]);
                }
            }
            return Some(idx);
        }
        i = i + 1;
    }
    proof {
        assert forall|k: int| 0 <= k < n implies !#[trigger] matches@[k] by {
            let m = steps_after(selected as int, k, n as int);
            lemma_steps_after_back(selected as int, k, n as int);
            assert(!matches@[(start + m) % (n as int)]);
        }
    }
    None
}

proof fn lemma_steps_after(selected: int, i: int, n: int)
    requires
        0 <= selected,
        0 <= i < n,
    ensures
        steps_after(selected, (selected + 1 + i) % n, n) == i,
{
    let x = selected + 1 + i;
    let k = x % n;
    let q = x / n;
    vstd::arithmetic::div_mod::lemma_fundamental_div_mod(x, n);
    assert(n * (-q) == -(n * q)) by (nonlinear_arith);
    assert(k - selected - 1 == n * (-q) + i);
    vstd::arithmetic::div_mod::lemma_mod_multiples_vanish(-q, i, n);
    vstd::arithmetic::div_mod::lemma_small_mod(i as nat, n as nat);
}

proof fn lemma_steps_after_back(selected: int, k: int, n: int)
    requires
        0 <= selected,
        0 <= k < n,
    ensures
        0 <= steps_after(selected, k, n) < n,
        (selected + 1 + steps_after(selected, k, n)) % n == k,
{
    let x = k - selected - 1;
    let m = x % n;
    let q = x / n;
    vstd::arithmetic::div_mod::lemma_fundamental_div_mod(x, n);
    vstd::arithmetic::div_mod::lemma_mod_bound(x, n);
    assert(n * (-q) == -(n * q)) by (nonlinear_arith);
    assert(selected + 1 + m == n * (-q) + k);
    vstd::arithmetic::div_mod::lemma_mod_multiples_vanish(-q, k, n);
    vstd::arithmetic::div_mod::lemma_small_mod(k as nat, n as nat);
}

} // verus!
