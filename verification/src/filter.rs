//! Which processes the list shows: the kernel/user split, the pid and user
//! filters given on the command line or picked, and the text filter.

use vstd::prelude::*;
use vstd::string::StringSliceAdditionalSpecFns;
use crate::search::{occurs_in, text_contains};

verus! {

/// `s` read as a `u32` the way `str::parse::<u32>` reads it: an optional
/// `+`, then one or more ASCII digits, with a value no greater than
/// `u32::MAX`.
pub open spec fn parsed_u32(s: Seq<u8>) -> Option<u32> {
    let digits = unsigned_digits(s);
    if digits.len() > 0 && all_digits(digits) && digits_number(digits) <= u32::MAX {
        Some(digits_number(digits) as u32)
    } else {
        None
    }
}

/// `s` without the `+` it may begin with.
pub open spec fn unsigned_digits(s: Seq<u8>) -> Seq<u8> {
    if s.len() > 0 && s[0] == 43u8 {
        s.drop_first()
    } else {
        s
    }
}

/// Every byte of `s` is an ASCII digit.
pub open spec fn all_digits(s: Seq<u8>) -> bool {
    forall|i: int| 0 <= i < s.len() ==> 48u8 <= #[trigger] s[i] <= 57u8
}

/// The number the ASCII digits `s` spell, most significant first.
pub open spec fn digits_number(s: Seq<u8>) -> int
    decreases s.len(),
{
    if s.len() == 0 {
        0
    } else {
        digits_number(s.drop_last()) * 10 + (s.last() - 48)
    }
}

proof fn lemma_digits_number_grows(s: Seq<u8>, k: int)
    requires
        0 <= k <= s.len(),
        forall|i: int| 0 <= i < s.len() ==> 48u8 <= #[trigger] s[i] <= 57u8,
    ensures
        0 <= digits_number(s.subrange(0, k)) <= digits_number(s),
    decreases s.len() - k,
{
    if k < s.len() {
        lemma_digits_number_grows(s, k + 1);
        assert(s.subrange(0, k + 1).drop_last() =~= s.subrange(0, k));
    } else {
        assert(s.subrange(0, k) =~= s);
    }
    lemma_digits_number_nonnegative(s.subrange(0, k));
}

proof fn lemma_digits_number_nonnegative(s: Seq<u8>)
    requires
        forall|i: int| 0 <= i < s.len() ==> 48u8 <= #[trigger] s[i] <= 57u8,
    ensures
        0 <= digits_number(s),
    decreases s.len(),
{
    if s.len() > 0 {
        assert forall|i: int| 0 <= i < s.drop_last().len() implies 48u8 <= #[trigger] s.drop_last()[i] <= 57u8 by {
            assert(s.drop_last()[i] == s[i]);
        }
        lemma_digits_number_nonnegative(s.drop_last());
    }
}

/// Read `s` as a `u32` (see [`parsed_u32`]).
pub fn parse_u32(s: &str) -> (r: Option<u32>)
    ensures
        r == parsed_u32(s.spec_bytes()),
{
    let b = s.as_bytes();
    let start: usize = if b.len() > 0 && b[0] == 43u8 { 1 } else { 0 };
    let ghost digits = unsigned_digits(b@);
    assert(digits =~= b@.subrange(start as int, b@.len() as int));
    if start >= b.len() {
        return None;
    }
    let mut value: u64 = 0;
    let mut i: usize = start;
    while i < b.len()
        invariant
            start <= i <= b@.len(),
            start < b@.len(),
            b@ == s.spec_bytes(),
            digits == unsigned_digits(b@),
            digits =~= b@.subrange(start as int, b@.len() as int),
            forall|j: int| start <= j < i ==> 48u8 <= #[trigger] b@[j] <= 57u8,
            value as int == digits_number(b@.subrange(start as int, i as int)),
            value <= u32::MAX,
        decreases b.len() - i,
    {
        let c = b[i];
        assert(b@.subrange(start as int, i + 1).drop_last() =~= b@.subrange(start as int, i as int));
        if c < 48u8 || c > 57u8 {
            assert(digits[i - start] == c);
            assert(!(48u8 <= digits[i - start] <= 57u8));
            assert(!all_digits(digits));
            return None;
        }
        value = value * 10 + (c - 48u8) as u64;
        assert(value as int == digits_number(b@.subrange(start as int, i + 1)));
        if value > 0xFFFF_FFFF {
            proof {
                let d = b@.subrange(start as int, i + 1);
                if all_digits(digits) {
                    assert(d =~= digits.subrange(0, i + 1 - start));
                    lemma_digits_number_grows(digits, i + 1 - start);
                }
            }
            return None;
        }
        i = i + 1;
    }
    assert(b@.subrange(start as int, b@.len() as int) =~= digits);
    assert forall|j: int| 0 <= j < digits.len() implies 48u8 <= #[trigger] digits[j] <= 57u8 by {
        assert(digits[j] == b@[start + j]);
    }
    Some(value as u32)
}

/// The bytes of the account name kernel processes run under, lowercase.
pub open spec fn system_account() -> Seq<u8> {
    seq![115u8, 121u8, 115u8, 116u8, 101u8, 109u8]
}

/// The lowercase prefix of the built-in service accounts.
pub open spec fn service_account_prefix() -> Seq<u8> {
    seq![110u8, 116u8, 32u8, 97u8, 117u8, 116u8, 104u8, 111u8, 114u8, 105u8, 116u8, 121u8]
}

/// On Windows the "kernel threads" are the processes of the system
/// accounts: `system`, `nt authority\...`, the idle process and System.
pub open spec fn is_kernel_task(pid: u32, user_lower: Seq<u8>) -> bool {
    user_lower == system_account() || (user_lower.len() >= service_account_prefix().len()
        && user_lower.subrange(0, service_account_prefix().len() as int) == service_account_prefix()) || pid
        == 0 || pid == 4
}

/// Whether `text` begins with `prefix`.
fn starts_with_bytes(text: &[u8], prefix: &[u8]) -> (r: bool)
    ensures
        r == (prefix@.len() <= text@.len() && text@.subrange(0, prefix@.len() as int) == prefix@),
{
    if prefix.len() > text.len() {
        return false;
    }
    let mut i: usize = 0;
    while i < prefix.len()
        invariant
            prefix@.len() <= text@.len(),
            0 <= i <= prefix@.len(),
            forall|j: int| 0 <= j < i ==> text@[j] == prefix@[j],
        decreases prefix.len() - i,
    {
        if text[i] != prefix[i] {
            assert(text@.subrange(0, prefix@.len() as int)[i as int] != prefix@[i as int]);
            return false;
        }
        i = i + 1;
    }
    assert(text@.subrange(0, prefix@.len() as int) =~= prefix@);
    true
}

/// Whether the process runs under a system account (see [`is_kernel_task`]).
pub fn is_kernel_process(pid: u32, user_lower: &str) -> (r: bool)
    ensures
        r == is_kernel_task(pid, user_lower.spec_bytes()),
{
    let user = user_lower.as_bytes();
    let system: Vec<u8> = vec![115u8, 121u8, 115u8, 116u8, 101u8, 109u8];
    let service: Vec<u8> = vec![110u8, 116u8, 32u8, 97u8, 117u8, 116u8, 104u8, 111u8, 114u8, 105u8, 116u8, 121u8];
    assert(system@ =~= system_account());
    assert(service@ =~= service_account_prefix());
    let is_system = user.len() == 6 && starts_with_bytes(user, system.as_slice());
    proof {
        if user@.len() == 6 {
            assert(user@ =~= user@.subrange(0, 6));
        }
        assert(system_account().len() == 6);
    }
    let is_service = starts_with_bytes(user, service.as_slice());
    assert(is_system == (user@ == system_account()));
    assert(is_service == (user@.len() >= service_account_prefix().len()
        && user@.subrange(0, service_account_prefix().len() as int) == service_account_prefix()));
    is_system || is_service || pid == 0 || pid == 4
}

/// What a process row offers the filters.
pub struct ProcessText {
    pub pid: u32,
    pub name_lower: String,
    pub command_lower: String,
    pub user: String,
    pub user_lower: String,
}

/// The filters the list applies.
pub struct ListFilter {
    pub show_kernel_threads: bool,
    pub show_user_threads: bool,
    /// Only these pids, when given.
    pub pid_filter: Option<Vec<u32>>,
    /// Only this user's processes, when picked.
    pub user_filter: Option<String>,
    /// The text filter, lowercase (empty for none).
    pub text_lower: String,
}

/// The UTF-8 bytes of a text given as characters.
pub open spec fn bytes_of_chars(s: Seq<char>) -> Seq<u8> {
    vstd::utf8::encode_utf8(s)
}

/// A process passes the filters when it is on the shown side of the
/// kernel/user split, among the pids asked for, run by the picked user, and,
/// with a text filter, has the text in its name, command line or user, or
/// has the pid the text spells.
pub open spec fn passes(p: ProcessText, f: ListFilter) -> bool {
    let kernel = is_kernel_task(p.pid, bytes_of_chars(p.user_lower@));
    let text = bytes_of_chars(f.text_lower@);
    &&& f.show_kernel_threads || !kernel
    &&& f.show_user_threads || kernel
    &&& match f.pid_filter {
        Some(pids) => pids@.contains(p.pid),
        None => true,
    }
    &&& match f.user_filter {
        Some(u) => p.user@ == u@,
        None => true,
    }
    &&& text.len() == 0 || occurs_in(bytes_of_chars(p.name_lower@), text) || occurs_in(
        bytes_of_chars(p.command_lower@),
        text,
    ) || parsed_u32(text) == Some(p.pid) || occurs_in(bytes_of_chars(p.user_lower@), text)
}

/// Whether `pids` lists `pid`.
fn lists_pid(pids: &Vec<u32>, pid: u32) -> (r: bool)
    ensures
        r == pids@.contains(pid),
{
    let mut i: usize = 0;
    while i < pids.len()
        invariant
            0 <= i <= pids@.len(),
            forall|j: int| 0 <= j < i ==> pids@[j] != pid,
        decreases pids.len() - i,
    {
        if pids[i] == pid {
            return true;
        }
        i = i + 1;
    }
    false
}

/// Whether process `p` passes the list's filters (see [`passes`]).
pub fn passes_filters(p: &ProcessText, f: &ListFilter) -> (r: bool)
    ensures
        r == passes(*p, *f),
{
    let kernel = is_kernel_process(p.pid, p.user_lower.as_str());
    if !f.show_kernel_threads && kernel {
        return false;
    }
    if !f.show_user_threads && !kernel {
        return false;
    }
    match &f.pid_filter {
        Some(pids) => {
            if !lists_pid(pids, p.pid) {
                return false;
            }
        },
        None => {},
    }
    match &f.user_filter {
        Some(user) => {
            if !(p.user == *user) {
                return false;
            }
        },
        None => {},
    }
    let text = f.text_lower.as_str();
    if text.as_bytes().len() == 0 {
        return true;
    }
    text_contains(p.name_lower.as_str(), text) || text_contains(p.command_lower.as_str(), text) || match parse_u32(
        text,
    ) {
        Some(n) => n == p.pid,
        None => false,
    } || text_contains(p.user_lower.as_str(), text)
}

/// The positions of the processes in `rows` that pass the filters, in order.
pub open spec fn passing_positions(rows: Seq<ProcessText>, f: ListFilter) -> Seq<usize>
    decreases rows.len(),
{
    if rows.len() == 0 {
        Seq::empty()
    } else {
        let rest = passing_positions(rows.drop_last(), f);
        if passes(rows.last(), f) {
            rest.push((rows.len() - 1) as usize)
        } else {
            rest
        }
    }
}

/// The positions of the processes that pass the filters, in list order.
pub fn filtered_positions(rows: &[ProcessText], f: &ListFilter) -> (r: Vec<usize>)
    ensures
        r@ == passing_positions(rows@, *f),
{
    let mut out: Vec<usize> = Vec::new();
    let mut i: usize = 0;
    assert(rows@.subrange(0, 0) =~= Seq::<ProcessText>::empty());
    while i < rows.len()
        invariant
            0 <= i <= rows@.len(),
            out@ == passing_positions(rows@.subrange(0, i as int), *f),
        decreases rows.len() - i,
    {
        assert(rows@.subrange(0, i + 1).drop_last() =~= rows@.subrange(0, i as int));
        if passes_filters(&rows[i], f) {
            out.push(i);
        }
        i = i + 1;
    }
    assert(rows@.subrange(0, rows@.len() as int) =~= rows@);
    out
}

/// Each active filter holds on its own for a process that passes: the
/// user filter and the pid filter apply whatever the text filter is, the
/// kernel/user split is respected, and a text filter needs the text in the
/// name, command line or user, or the pid it spells.
pub proof fn filters_hold_separately(p: ProcessText, f: ListFilter)
    requires
        passes(p, f),
    ensures
        f.user_filter matches Some(u) ==> p.user@ == u@,
        f.pid_filter matches Some(pids) ==> pids@.contains(p.pid),
        !f.show_kernel_threads ==> !is_kernel_task(p.pid, bytes_of_chars(p.user_lower@)),
        !f.show_user_threads ==> is_kernel_task(p.pid, bytes_of_chars(p.user_lower@)),
        bytes_of_chars(f.text_lower@).len() > 0 ==> occurs_in(bytes_of_chars(p.name_lower@), bytes_of_chars(f.text_lower@))
            || occurs_in(bytes_of_chars(p.command_lower@), bytes_of_chars(f.text_lower@)) || parsed_u32(
            bytes_of_chars(f.text_lower@),
        ) == Some(p.pid) || occurs_in(bytes_of_chars(p.user_lower@), bytes_of_chars(f.text_lower@)),
{
}

/// The filtered list holds, in order, exactly the rows that pass, so every
/// row it lists is run by the picked user and has a listed pid.
pub proof fn filtered_rows_meet_every_filter(rows: Seq<ProcessText>, f: ListFilter)
    requires
        rows.len() <= usize::MAX,
    ensures
        forall|k: int|
            0 <= k < passing_positions(rows, f).len() ==> {
                let i = #[trigger] passing_positions(rows, f)[k] as int;
                &&& 0 <= i < rows.len()
                &&& passes(rows[i], f)
                &&& f.user_filter matches Some(u) ==> rows[i].user@ == u@
                &&& f.pid_filter matches Some(pids) ==> pids@.contains(rows[i].pid)
            },
        forall|a: int, b: int|
            0 <= a < b < passing_positions(rows, f).len() ==> #[trigger] passing_positions(rows, f)[a]
                < #[trigger] passing_positions(rows, f)[b],
        forall|i: int| 0 <= i < rows.len() && passes(#[trigger] rows[i], f) ==> passing_positions(rows, f).contains(i as usize),
    decreases rows.len(),
{
    if rows.len() > 0 {
        let init = rows.drop_last();
        filtered_rows_meet_every_filter(init, f);
        let rest = passing_positions(init, f);
        let out = passing_positions(rows, f);
        assert forall|k: int| 0 <= k < rest.len() implies #[trigger] rest[k] < init.len() by {
            let i = rest[k] as int;
        }
        assert forall|k: int|
            0 <= k < out.len() implies {
                let i = #[trigger] out[k] as int;
                &&& 0 <= i < rows.len()
                &&& passes(rows[i], f)
                &&& f.user_filter matches Some(u) ==> rows[i].user@ == u@
                &&& f.pid_filter matches Some(pids) ==> pids@.contains(rows[i].pid)
            } by {
            let i = out[k] as int;
            if k < rest.len() {
                assert(out[k] == rest[k]);
                let j = rest[k] as int;
                assert(0 <= j < init.len() && passes(init[j], f));
                assert(rows[i] == init[i]);
            } else {
                assert(out[k] == (rows.len() - 1) as usize);
                assert(rows[i] == rows.last());
            }
            filters_hold_separately(rows[i], f);
        }
        assert forall|a: int, b: int| 0 <= a < b < out.len() implies #[trigger] out[a] < #[trigger] out[b] by {
            if b < rest.len() {
                assert(out[a] == rest[a] && out[b] == rest[b]);
            } else {
                assert(out[a] == rest[a]);
                assert(rest[a] < init.len());
                assert(out[b] == (rows.len() - 1) as usize);
            }
        }
        assert forall|i: int| 0 <= i < rows.len() && passes(#[trigger] rows[i], f) implies out.contains(i as usize) by {
            if i < init.len() {
                assert(rows[i] == init[i]);
                let k = choose|k: int| 0 <= k < rest.len() && rest[k] == i as usize;
                assert(out[k] == rest[k]);
            } else {
                assert(out[out.len() - 1] == i as usize);
            }
        }
    }
}

} // verus!
